//! The device list and the chosen target: a device of the list, or a file.

use vstd::prelude::*;
use vstd::string::*;

use crate::gui::devices::{DeviceEntry, DeviceEntryView};
use crate::search::{first_where, first_where_is, first_where_props};
use crate::text::{cat2, opt_text, push_text, same_text, texts};

verus! {

/// What operations work on: a file, or else the selected device of the list.
#[derive(Debug)]
pub struct Target {
    pub devices: Vec<DeviceEntry>,
    pub selected: Option<usize>,
    pub file: Option<String>,
}

pub struct TargetView {
    pub devices: Seq<DeviceEntryView>,
    pub selected: Option<int>,
    pub file: Option<Seq<char>>,
}

pub open spec fn entry_views(v: Seq<DeviceEntry>) -> Seq<DeviceEntryView> {
    v.map_values(|d: DeviceEntry| d@)
}

impl View for Target {
    type V = TargetView;

    open spec fn view(&self) -> TargetView {
        TargetView {
            devices: entry_views(self.devices@),
            selected: match self.selected {
                Some(i) => Some(i as int),
                None => None,
            },
            file: opt_text(self.file),
        }
    }
}

pub open spec fn device_at(path: Seq<char>) -> spec_fn(DeviceEntryView) -> bool {
    |d: DeviceEntryView| d.path == path
}

/// A device to select without being asked: removable, with media, and not the
/// system disk.
pub open spec fn auto_selectable() -> spec_fn(DeviceEntryView) -> bool {
    |d: DeviceEntryView| d.has_media() && d.is_removable() && !d.system
}

/// Where the first match is, if there is one.
pub open spec fn place_of<T>(s: Seq<T>, p: spec_fn(T) -> bool) -> Option<int> {
    let i = first_where(s, p) as int;
    if i < s.len() {
        Some(i)
    } else {
        None
    }
}

pub open spec fn paths(devices: Seq<DeviceEntryView>) -> Seq<Seq<char>> {
    devices.map_values(|d: DeviceEntryView| d.path)
}

impl TargetView {
    /// The selected entry of the list.
    pub open spec fn entry(self) -> Option<DeviceEntryView> {
        match self.selected {
            Some(i) => if 0 <= i < self.devices.len() {
                Some(self.devices[i])
            } else {
                None
            },
            None => None,
        }
    }

    /// The device argument of an operation: the file, or the selected path.
    pub open spec fn device_arg(self) -> Option<Seq<char>> {
        match self.file {
            Some(f) => Some(f),
            None => match self.entry() {
                Some(d) => Some(d.path),
                None => None,
            },
        }
    }

    /// A selection that may stand in the mode.
    pub open spec fn pruned(self, advanced: bool) -> TargetView {
        TargetView {
            selected: if self.entry() matches Some(d) && d.selectable(advanced) {
                self.selected
            } else {
                None
            },
            ..self
        }
    }

    /// The list replaced: the selection follows the device's path.
    pub open spec fn relisted(self, devices: Seq<DeviceEntryView>, advanced: bool) -> TargetView {
        TargetView {
            devices,
            selected: match self.entry() {
                Some(d) => place_of(devices, device_at(d.path)),
                None => None,
            },
            file: self.file,
        }.pruned(advanced)
    }

    /// The device that is selected by itself: the first removable one, in an
    /// idle frontend that has no target, with the option on.
    pub open spec fn auto_choice(self, auto: bool, busy: bool) -> Option<int> {
        if auto && self.selected is None && self.file is None && !busy {
            place_of(self.devices, auto_selectable())
        } else {
            None
        }
    }

    /// The target after a new device list.
    pub open spec fn after_devices(
        self,
        devices: Seq<DeviceEntryView>,
        advanced: bool,
        auto: bool,
        busy: bool,
    ) -> TargetView {
        let next = self.relisted(devices, advanced);
        match next.auto_choice(auto, busy) {
            Some(i) => TargetView { selected: Some(i), ..next },
            None => next,
        }
    }

    /// What a new device list has to say.
    pub open spec fn devices_news(
        self,
        devices: Seq<DeviceEntryView>,
        announce: bool,
        advanced: bool,
        auto: bool,
        busy: bool,
    ) -> Seq<Seq<char>> {
        let next = self.relisted(devices, advanced);
        (if announce && paths(self.devices) != paths(devices) {
            seq!["device list updated (hotplug)"@]
        } else {
            Seq::empty()
        }) + (match next.auto_choice(auto, busy) {
            Some(i) => seq!["auto-selected removable disk: "@ + devices[i].path],
            None => Seq::empty(),
        })
    }

    /// A disk that is not known to be removable is written by force only.
    pub open spec fn needs_force(self) -> bool {
        self.file is None && (self.entry() matches Some(d) && !d.is_removable())
    }

    /// The card's capacity; file targets grow on demand.
    pub open spec fn card_size(self) -> Option<u64> {
        match self.file {
            Some(_) => None,
            None => match self.entry() {
                Some(d) => d.size_bytes,
                None => None,
            },
        }
    }

    /// The target as the device selector shows it.
    pub open spec fn label(self) -> Seq<char> {
        match self.file {
            Some(f) => "file: "@ + f,
            None => match self.entry() {
                Some(d) => d.label(),
                None => "(select a device)"@,
            },
        }
    }
}

impl Target {
    pub fn new() -> (r: Target)
        ensures
            r@ == (TargetView { devices: Seq::empty(), selected: None, file: None }),
    {
        let r = Target { devices: Vec::new(), selected: None, file: None };
        assert(entry_views(r.devices@) =~= Seq::<DeviceEntryView>::empty());
        r
    }

    /// The selected entry of the list.
    pub fn entry(&self) -> (r: Option<&DeviceEntry>)
        ensures
            (match r {
                Some(d) => Some(d@),
                None => None,
            }) == self@.entry(),
    {
        match self.selected {
            Some(i) => if i < self.devices.len() {
                assert(self@.devices[i as int] == self.devices@[i as int]@);
                Some(&self.devices[i])
            } else {
                None
            },
            None => None,
        }
    }

    /// The device argument of an operation on this target.
    pub fn device_arg(&self) -> (r: Option<String>)
        ensures
            opt_text(r) == self@.device_arg(),
    {
        match &self.file {
            Some(f) => Some(f.clone()),
            None => match self.entry() {
                Some(d) => Some(d.path.clone()),
                None => None,
            },
        }
    }

    /// Drop a selection that the mode does not allow.
    pub fn prune(&mut self, advanced: bool)
        ensures
            final(self)@ == old(self)@.pruned(advanced),
    {
        let ok = match self.entry() {
            Some(d) => d.selectable(advanced),
            None => false,
        };
        if !ok {
            self.selected = None;
        }
    }

    /// Choose a device of the list.
    pub fn choose_device(&mut self, index: usize)
        ensures
            final(self)@ == (TargetView { selected: Some(index as int), file: None, ..old(self)@ }),
    {
        self.selected = Some(index);
        self.file = None;
    }

    /// Choose a file.
    pub fn choose_file(&mut self, path: String)
        ensures
            final(self)@ == (TargetView { selected: None, file: Some(path@), ..old(self)@ }),
    {
        self.file = Some(path);
        self.selected = None;
    }

    fn position(&self, path: &str) -> (r: Option<usize>)
        ensures
            (match r {
                Some(i) => Some(i as int),
                None => None,
            }) == place_of(self@.devices, device_at(path@)),
    {
        let n: usize = self.devices.len();
        let mut i: usize = 0;
        while i < n && !same_text(&self.devices[i].path, path)
            invariant
                n == self.devices@.len(),
                i <= n,
                forall|j: int| 0 <= j < i ==> !device_at(path@)(#[trigger] self@.devices[j]),
            decreases n - i,
        {
            assert(self@.devices[i as int] == self.devices@[i as int]@);
            i = i + 1;
        }
        proof {
            if i < n {
                assert(self@.devices[i as int] == self.devices@[i as int]@);
            }
            first_where_is(self@.devices, device_at(path@), i as int);
        }
        if i < n {
            Some(i)
        } else {
            None
        }
    }

    fn first_removable(&self) -> (r: Option<usize>)
        ensures
            (match r {
                Some(i) => Some(i as int),
                None => None,
            }) == place_of(self@.devices, auto_selectable()),
            r matches Some(i) ==> i < self.devices@.len(),
    {
        let n: usize = self.devices.len();
        let mut i: usize = 0;
        while i < n
            invariant
                n == self.devices@.len(),
                i <= n,
                forall|j: int| 0 <= j < i ==> !auto_selectable()(#[trigger] self@.devices[j]),
            decreases n - i,
        {
            let d = &self.devices[i];
            assert(self@.devices[i as int] == self.devices@[i as int]@);
            if d.has_media() && d.is_removable() && !d.system {
                proof {
                    first_where_is(self@.devices, auto_selectable(), i as int);
                }
                return Some(i);
            }
            i = i + 1;
        }
        proof {
            first_where_is(self@.devices, auto_selectable(), n as int);
        }
        None
    }

    /// Install a new device list. Returns what to log.
    pub fn apply_devices(
        &mut self,
        devices: Vec<DeviceEntry>,
        announce: bool,
        advanced: bool,
        auto: bool,
        busy: bool,
    ) -> (r: Vec<String>)
        ensures
            final(self)@ == old(self)@.after_devices(entry_views(devices@), advanced, auto, busy),
            texts(r@) == old(self)@.devices_news(
                entry_views(devices@),
                announce,
                advanced,
                auto,
                busy,
            ),
    {
        let changed = announce && !same_paths(&self.devices, &devices);
        let path = match self.entry() {
            Some(d) => Some(d.path.clone()),
            None => None,
        };
        self.devices = devices;
        self.selected = match &path {
            Some(p) => self.position(p),
            None => None,
        };
        self.prune(advanced);
        let ghost next = self@;
        let mut news: Vec<String> = Vec::new();
        if changed {
            push_text(&mut news, "device list updated (hotplug)");
        }
        let ghost first = texts(news@);
        assert(first =~= if changed {
            seq!["device list updated (hotplug)"@]
        } else {
            Seq::empty()
        });
        if auto && self.selected.is_none() && self.file.is_none() && !busy {
            if let Some(i) = self.first_removable() {
                self.selected = Some(i);
                assert(self@.devices[i as int] == self.devices@[i as int]@);
                let line = cat2("auto-selected removable disk: ", &self.devices[i].path);
                push_text(&mut news, &line);
                assert(texts(news@) =~= first + seq![line@]);
            } else {
                assert(texts(news@) =~= first + Seq::<Seq<char>>::empty());
            }
        } else {
            assert(texts(news@) =~= first + Seq::<Seq<char>>::empty());
        }
        news
    }

    /// Does writing to this target need force?
    pub fn needs_force(&self) -> (r: bool)
        ensures
            r == self@.needs_force(),
    {
        self.file.is_none() && match self.entry() {
            Some(d) => !d.is_removable(),
            None => false,
        }
    }

    /// The capacity of the selected card.
    pub fn card_size(&self) -> (r: Option<u64>)
        ensures
            r == self@.card_size(),
    {
        match &self.file {
            Some(_) => None,
            None => match self.entry() {
                Some(d) => d.size_bytes,
                None => None,
            },
        }
    }

    /// Is a device of the list, rather than a file, the target? Only such a
    /// target can be ejected.
    pub fn is_device(&self) -> (r: bool)
        ensures
            r == (self@.file is None && self@.entry() is Some),
    {
        self.file.is_none() && self.entry().is_some()
    }

    /// The target as the device selector shows it.
    pub fn label(&self) -> (r: String)
        ensures
            r@ == self@.label(),
    {
        match &self.file {
            Some(f) => cat2("file: ", f),
            None => match self.entry() {
                Some(d) => d.label(),
                None => "(select a device)".to_owned(),
            },
        }
    }
}

fn same_paths(a: &Vec<DeviceEntry>, b: &Vec<DeviceEntry>) -> (r: bool)
    ensures
        r == (paths(entry_views(a@)) == paths(entry_views(b@))),
{
    let ghost pa = paths(entry_views(a@));
    let ghost pb = paths(entry_views(b@));
    assert(pa.len() == a@.len() && pb.len() == b@.len());
    if a.len() != b.len() {
        return false;
    }
    let mut i: usize = 0;
    while i < a.len()
        invariant
            i <= a@.len(),
            a@.len() == b@.len(),
            pa == paths(entry_views(a@)),
            pb == paths(entry_views(b@)),
            forall|j: int| 0 <= j < i ==> #[trigger] pa[j] == pb[j],
        decreases a@.len() - i,
    {
        assert(pa[i as int] == a@[i as int].path@ && pb[i as int] == b@[i as int].path@);
        if !same_text(&a[i].path, &b[i].path) {
            return false;
        }
        i = i + 1;
    }
    assert(pa =~= pb);
    true
}

/// Are the slot states of an earlier target shown for another one now? A lost
/// selection keeps them: they are the last known state of the card that left.
pub fn states_are_stale(shown_for: Option<&str>, now: Option<&str>) -> (r: bool)
    ensures
        r == (match (shown_for, now) {
            (_, None) => false,
            (None, Some(_)) => true,
            (Some(a), Some(b)) => a@ != b@,
        }),
{
    match now {
        None => false,
        Some(b) => match shown_for {
            None => true,
            Some(a) => !same_text(a, b),
        },
    }
}

/// An explicit target is never overridden: with a file chosen, or a selected
/// device that is still listed and allowed, a new device list keeps it.
pub proof fn explicit_target_is_kept(
    t: TargetView,
    devices: Seq<DeviceEntryView>,
    advanced: bool,
    auto: bool,
    busy: bool,
)
    requires
        t.file is Some || (t.entry() matches Some(d) && exists|i: int|
            0 <= i < devices.len() && #[trigger] devices[i] == d) && (t.entry()->0).selectable(
            advanced,
        ) && (forall|i: int|
            0 <= i < devices.len() && (#[trigger] devices[i]).path == (t.entry()->0).path
                ==> devices[i] == t.entry()->0),
    ensures
        t.after_devices(devices, advanced, auto, busy).device_arg() == t.device_arg(),
{
    if t.file is None {
        let d = t.entry()->0;
        let i = choose|i: int| 0 <= i < devices.len() && #[trigger] devices[i] == d;
        first_where_props(devices, device_at(d.path));
        let k = first_where(devices, device_at(d.path)) as int;
        if k >= devices.len() {
            assert(!device_at(d.path)(devices[i]));
        }
        assert(devices[k].path == d.path);
    }
}

/// The system disk is never the selected device once a list was installed.
pub proof fn system_disk_is_never_selected(
    t: TargetView,
    devices: Seq<DeviceEntryView>,
    advanced: bool,
    auto: bool,
    busy: bool,
)
    ensures
        t.after_devices(devices, advanced, auto, busy).entry() matches Some(d) ==> !d.system,
{
    first_where_props(devices, auto_selectable());
}

} // verus!

//! Options, safety rails, plan preview and output rules of the commands.

use vstd::prelude::*;
use vstd::string::*;

use crate::device::{is_platform_device_path, names_platform_device, DeviceInfo};
use crate::engine::plan::{
    extract_filename, extracted_name, job_views, EngineOpts, WriteJob, WriteJobView,
    DEFAULT_CHUNK_SIZE,
};
use crate::error::{Error, ErrorView, Result};
use crate::events::{Event, EventView};
use crate::layout::{
    parsed_assign, parsed_ref, slot_label, slot_name, slots_lie_in_their_bank, Layout, LayoutView,
    SlotAssign, SlotAssignView, SlotRef,
};
use crate::paths::{join_path, joins_to};
use crate::search::{first_where, first_where_is, first_where_props};
use crate::text::{
    align_left, align_right, byte_range, cat2, cat3, cat4, cat5, dec, dec_count, dec_text,
    eq_ignoring_case, hex_of, hex_text, join_texts, joined, left_in, opt_text, push_text, quoted,
    quoted_text, range_text, right_in, same_ignoring_case, same_text, texts, trim, trimmed,
    zero_pad, zero_padded,
};
use crate::units::{bytes_text, format_bytes, parse_size, size_value};

verus! {

// ---------------------------------------------------------------------------
// Options
// ---------------------------------------------------------------------------

/// The largest chunk that may be asked for: 512 MiB.
pub const MAX_CHUNK_SIZE: u64 = 536870912;

pub open spec fn bad_chunk(sector_size: u32) -> ErrorView {
    ErrorView::Validation(
        "--chunk-size must be a nonzero multiple of the "@ + dec(sector_size as nat)
            + "-byte sector, at most 512 MiB"@,
    )
}

/// The chunk size that the option gives: whole sectors, within the limit.
pub open spec fn chunk_option(text: Option<Seq<char>>, sector_size: u32) -> std::result::Result<
    int,
    ErrorView,
> {
    match text {
        None => Ok(DEFAULT_CHUNK_SIZE as int),
        Some(s) => match size_value(s, sector_size) {
            Err(e) => Err(e),
            Ok(n) => if n == 0 || n as int % (sector_size as int) != 0 || n > MAX_CHUNK_SIZE {
                Err(bad_chunk(sector_size))
            } else {
                Ok(n as int)
            },
        },
    }
}

/// The engine's options from the command's.
pub fn engine_opts(
    chunk_size: Option<&str>,
    strict_size: bool,
    verify: bool,
    sector_size: u32,
) -> (r: Result<EngineOpts>)
    requires
        sector_size > 0,
    ensures
        ({
            let text = match chunk_size {
                Some(s) => Some(s@),
                None => None,
            };
            match r {
                Ok(o) => chunk_option(text, sector_size) == Ok::<int, ErrorView>(
                    o.chunk_size as int,
                ) && o.strict_size == strict_size && o.verify == verify,
                Err(e) => chunk_option(text, sector_size) == Err::<int, ErrorView>(e@),
            }
        }),
{
    match chunk_size {
        None => Ok(EngineOpts { chunk_size: DEFAULT_CHUNK_SIZE, verify, strict_size }),
        Some(s) => {
            let n: u64 = match parse_size(s, sector_size) {
                Ok(n) => n,
                Err(e) => {
                    return Err(e);
                },
            };
            if n == 0 || n % sector_size as u64 != 0 || n > MAX_CHUNK_SIZE {
                let d = dec_text(sector_size as u64);
                return Err(
                    Error::Validation(
                        cat3(
                            "--chunk-size must be a nonzero multiple of the ",
                            &d,
                            "-byte sector, at most 512 MiB",
                        ),
                    ),
                );
            }
            Ok(EngineOpts { chunk_size: n as usize, verify, strict_size })
        },
    }
}

/// The assignments of the slot options, or the first error.
pub open spec fn assigns_from(slots: Seq<Seq<char>>, i: int, acc: Seq<SlotAssignView>) -> std::result::Result<
    Seq<SlotAssignView>,
    ErrorView,
>
    decreases slots.len() - i,
{
    if i < 0 || i >= slots.len() {
        Ok(acc)
    } else {
        match parsed_assign(slots[i]) {
            Ok(a) => assigns_from(slots, i + 1, acc.push(a)),
            Err(e) => Err(e),
        }
    }
}

pub open spec fn assign_views(v: Seq<SlotAssign>) -> Seq<SlotAssignView> {
    v.map_values(|a: SlotAssign| a@)
}

/// Parse the slot options in order.
pub fn parse_assigns(slots: &Vec<String>) -> (r: Result<Vec<SlotAssign>>)
    ensures
        match r {
            Ok(v) => assigns_from(texts(slots@), 0, Seq::empty()) == Ok::<
                Seq<SlotAssignView>,
                ErrorView,
            >(assign_views(v@)),
            Err(e) => assigns_from(texts(slots@), 0, Seq::empty()) == Err::<
                Seq<SlotAssignView>,
                ErrorView,
            >(e@),
        },
{
    let ghost total = assigns_from(texts(slots@), 0, Seq::empty());
    let mut out: Vec<SlotAssign> = Vec::new();
    let mut i: usize = 0;
    assert(assign_views(out@) =~= Seq::<SlotAssignView>::empty());
    while i < slots.len()
        invariant
            i <= slots@.len(),
            total == assigns_from(texts(slots@), 0, Seq::empty()),
            total == assigns_from(texts(slots@), i as int, assign_views(out@)),
        decreases slots@.len() - i,
    {
        let ghost before = out@;
        match SlotAssign::parse(&slots[i]) {
            Ok(a) => {
                let ghost v = a@;
                out.push(a);
                assert(assign_views(out@) =~= assign_views(before).push(v));
            },
            Err(e) => {
                return Err(e);
            },
        }
        i = i + 1;
    }
    Ok(out)
}

/// The slots that references point to, or the first error.
pub open spec fn slots_from(
    layout: LayoutView,
    slots: Seq<Seq<char>>,
    i: int,
    acc: Seq<(int, u32)>,
) -> std::result::Result<Seq<(int, u32)>, ErrorView>
    decreases slots.len() - i,
{
    if i < 0 || i >= slots.len() {
        Ok(acc)
    } else {
        match parsed_ref(slots[i]) {
            Err(e) => Err(e),
            Ok(r) => match layout.resolved(r) {
                Err(e) => Err(e),
                Ok(x) => slots_from(layout, slots, i + 1, acc.push(x)),
            },
        }
    }
}

pub open spec fn place_views(v: Seq<(usize, u32)>) -> Seq<(int, u32)> {
    v.map_values(|x: (usize, u32)| (x.0 as int, x.1))
}

/// Resolve slot references in order: each to a bank's index and a unit of it.
pub fn resolve_slots(layout: &Layout, slots: &Vec<String>) -> (r: Result<Vec<(usize, u32)>>)
    ensures
        match r {
            Ok(v) => slots_from(layout@, texts(slots@), 0, Seq::empty()) == Ok::<
                Seq<(int, u32)>,
                ErrorView,
            >(place_views(v@)) && forall|i: int|
                0 <= i < v@.len() ==> (#[trigger] v@[i]).0 < layout.banks@.len() && v@[i].1
                    < layout@.banks[v@[i].0 as int].units,
            Err(e) => slots_from(layout@, texts(slots@), 0, Seq::empty()) == Err::<
                Seq<(int, u32)>,
                ErrorView,
            >(e@),
        },
{
    let ghost total = slots_from(layout@, texts(slots@), 0, Seq::empty());
    let mut out: Vec<(usize, u32)> = Vec::new();
    let mut i: usize = 0;
    assert(place_views(out@) =~= Seq::<(int, u32)>::empty());
    while i < slots.len()
        invariant
            i <= slots@.len(),
            total == slots_from(layout@, texts(slots@), 0, Seq::empty()),
            total == slots_from(layout@, texts(slots@), i as int, place_views(out@)),
            forall|j: int|
                0 <= j < out@.len() ==> (#[trigger] out@[j]).0 < layout.banks@.len() && out@[j].1
                    < layout@.banks[out@[j].0 as int].units,
        decreases slots@.len() - i,
    {
        let ghost before = out@;
        let slot = match SlotRef::parse(&slots[i]) {
            Ok(s) => s,
            Err(e) => {
                return Err(e);
            },
        };
        match layout.resolve_slot(&slot) {
            Ok(x) => {
                out.push(x);
                assert(place_views(out@) =~= place_views(before).push((x.0 as int, x.1)));
            },
            Err(e) => {
                return Err(e);
            },
        }
        i = i + 1;
    }
    Ok(out)
}

// ---------------------------------------------------------------------------
// Safety rails
// ---------------------------------------------------------------------------

pub open spec fn device_with_path(path: Seq<char>) -> spec_fn(DeviceInfo) -> bool {
    |d: DeviceInfo| same_ignoring_case(d.path@, path)
}

/// Which listed device a destructive command works on, if one: files have no
/// rails; the system disk is refused always; what is not known to be removable,
/// or not listed at all, only goes by force.
pub open spec fn guarded(path: Seq<char>, force: bool, devices: Seq<DeviceInfo>) -> std::result::Result<
    Option<int>,
    ErrorView,
> {
    let i = first_where(devices, device_with_path(path)) as int;
    if !names_platform_device(path) {
        Ok(None)
    } else if i >= devices.len() {
        if force {
            Ok(None)
        } else {
            Err(
                ErrorView::Validation(
                    path
                        + " was not found by device enumeration; pass --force if you are sure"@,
                ),
            )
        }
    } else if devices[i].system {
        Err(ErrorView::Validation(path + " is the system/boot disk; refusing to write it"@))
    } else if devices[i].removable == Some(true) || force {
        Ok(Some(i))
    } else {
        Err(
            ErrorView::Validation(
                path + " is not a removable device (model "@ + quoted(devices[i].model@)
                    + "); pass --force if you are sure"@,
            ),
        )
    }
}

/// The safety rails of destructive commands. Returns the place of the device in
/// the list, for the plan preview.
pub fn device_guard(path: &str, force: bool, devices: &Vec<DeviceInfo>) -> (r: Result<Option<usize>>)
    ensures
        match r {
            Ok(x) => guarded(path@, force, devices@) == Ok::<Option<int>, ErrorView>(
                match x {
                    Some(i) => Some(i as int),
                    None => None,
                },
            ),
            Err(e) => guarded(path@, force, devices@) == Err::<Option<int>, ErrorView>(e@),
        },
        r matches Ok(Some(i)) ==> i < devices@.len(),
{
    if !is_platform_device_path(path) {
        return Ok(None);
    }
    let n: usize = devices.len();
    let mut i: usize = 0;
    while i < n && !eq_ignoring_case(&devices[i].path, path)
        invariant
            n == devices@.len(),
            i <= n,
            forall|j: int| 0 <= j < i ==> !device_with_path(path@)(#[trigger] devices@[j]),
        decreases n - i,
    {
        i = i + 1;
    }
    proof {
        first_where_is(devices@, device_with_path(path@), i as int);
    }
    if i >= n {
        if force {
            return Ok(None);
        }
        return Err(
            Error::Validation(
                cat2(path, " was not found by device enumeration; pass --force if you are sure"),
            ),
        );
    }
    let d = &devices[i];
    if d.system {
        return Err(
            Error::Validation(cat2(path, " is the system/boot disk; refusing to write it")),
        );
    }
    let removable = match d.removable {
        Some(b) => b,
        None => false,
    };
    if removable || force {
        Ok(Some(i))
    } else {
        let q = quoted_text(&d.model);
        Err(
            Error::Validation(
                cat4(
                    path,
                    " is not a removable device (model ",
                    &q,
                    "); pass --force if you are sure",
                ),
            ),
        )
    }
}

/// The system disk is refused even with force.
pub proof fn system_disk_is_always_refused(
    path: Seq<char>,
    force: bool,
    devices: Seq<DeviceInfo>,
    i: int,
)
    requires
        names_platform_device(path),
        0 <= i < devices.len(),
        devices[i].system,
        device_with_path(path)(devices[i]),
        forall|j: int| 0 <= j < i ==> !device_with_path(path)(#[trigger] devices[j]),
    ensures
        guarded(path, force, devices) is Err,
{
    first_where_is(devices, device_with_path(path), i);
}

/// Without force, only a listed removable device that is not the system disk is
/// let through.
pub proof fn only_removable_devices_without_force(path: Seq<char>, devices: Seq<DeviceInfo>)
    requires
        names_platform_device(path),
        guarded(path, false, devices) is Ok,
    ensures
        guarded(path, false, devices)->Ok_0 matches Some(i) && 0 <= i < devices.len()
            && devices[i].removable == Some(true) && !devices[i].system && same_ignoring_case(
            devices[i].path@,
            path,
        ),
{
    first_where_props(devices, device_with_path(path));
}

// ---------------------------------------------------------------------------
// Plan preview
// ---------------------------------------------------------------------------

/// One slot of a plan: where, how much, and from which image.
#[derive(Debug)]
pub struct PlanRow {
    pub bank: String,
    pub unit: u32,
    pub offset: u64,
    pub bytes: u64,
    pub image: Option<String>,
}

pub struct PlanRowView {
    pub bank: Seq<char>,
    pub unit: u32,
    pub offset: u64,
    pub bytes: u64,
    pub image: Option<Seq<char>>,
}

impl View for PlanRow {
    type V = PlanRowView;

    open spec fn view(&self) -> PlanRowView {
        PlanRowView {
            bank: self.bank@,
            unit: self.unit,
            offset: self.offset,
            bytes: self.bytes,
            image: opt_text(self.image),
        }
    }
}

pub open spec fn row_views(v: Seq<PlanRow>) -> Seq<PlanRowView> {
    v.map_values(|p: PlanRow| p@)
}

pub open spec fn write_row(j: WriteJobView) -> PlanRowView {
    PlanRowView {
        bank: j.bank,
        unit: j.unit,
        offset: j.extent.offset,
        bytes: j.image_len,
        image: Some(j.image),
    }
}

/// The plan of a write.
pub fn write_plan(jobs: &Vec<WriteJob>) -> (r: Vec<PlanRow>)
    ensures
        row_views(r@) == job_views(jobs@).map_values(|j: WriteJobView| write_row(j)),
{
    let ghost want = job_views(jobs@).map_values(|j: WriteJobView| write_row(j));
    let mut out: Vec<PlanRow> = Vec::new();
    let mut i: usize = 0;
    while i < jobs.len()
        invariant
            i <= jobs@.len(),
            want == job_views(jobs@).map_values(|j: WriteJobView| write_row(j)),
            row_views(out@) =~= want.take(i as int),
        decreases jobs@.len() - i,
    {
        let j = &jobs[i];
        let ghost before = out@;
        out.push(
            PlanRow {
                bank: j.bank.clone(),
                unit: j.unit,
                offset: j.extent.offset,
                bytes: j.image_len,
                image: Some(j.image.clone()),
            },
        );
        proof {
            assert(row_views(out@) =~= row_views(before).push(write_row(j@)));
            assert(want.take(i as int + 1) =~= want.take(i as int).push(want[i as int]));
        }
        i = i + 1;
    }
    assert(want.take(i as int) =~= want);
    out
}

pub open spec fn wipe_row(layout: LayoutView, place: (int, u32)) -> PlanRowView {
    let e = layout.slot_extent(place.0, place.1 as int);
    PlanRowView {
        bank: layout.banks[place.0].name,
        unit: place.1,
        offset: e.offset,
        bytes: e.len,
        image: None,
    }
}

/// The plan of a wipe.
pub fn wipe_plan(layout: &Layout, slots: &Vec<(usize, u32)>) -> (r: Vec<PlanRow>)
    requires
        layout@.addressable(),
        forall|i: int|
            0 <= i < slots@.len() ==> (#[trigger] slots@[i]).0 < layout.banks@.len() && slots@[i].1
                < layout@.banks[slots@[i].0 as int].units,
    ensures
        row_views(r@) == place_views(slots@).map_values(|x: (int, u32)| wipe_row(layout@, x)),
{
    let ghost want = place_views(slots@).map_values(|x: (int, u32)| wipe_row(layout@, x));
    let mut out: Vec<PlanRow> = Vec::new();
    let mut i: usize = 0;
    while i < slots.len()
        invariant
            i <= slots@.len(),
            layout@.addressable(),
            forall|j: int|
                0 <= j < slots@.len() ==> (#[trigger] slots@[j]).0 < layout.banks@.len()
                    && slots@[j].1 < layout@.banks[slots@[j].0 as int].units,
            want == place_views(slots@).map_values(|x: (int, u32)| wipe_row(layout@, x)),
            row_views(out@) =~= want.take(i as int),
        decreases slots@.len() - i,
    {
        let (idx, unit) = slots[i];
        assert(layout@.banks[idx as int] == layout.banks@[idx as int]@);
        proof {
            slots_lie_in_their_bank(layout@.banks[idx as int], unit as int);
        }
        let e = layout.slot_extent(idx, unit);
        let ghost before = out@;
        out.push(
            PlanRow {
                bank: layout.banks[idx].name.clone(),
                unit,
                offset: e.offset,
                bytes: e.len,
                image: None,
            },
        );
        proof {
            assert(row_views(out@) =~= row_views(before).push(
                wipe_row(layout@, (idx as int, unit)),
            ));
            assert(want[i as int] == wipe_row(layout@, (idx as int, unit)));
            assert(want.take(i as int + 1) =~= want.take(i as int).push(want[i as int]));
        }
        i = i + 1;
    }
    assert(want.take(i as int) =~= want);
    out
}

/// One slot's line of the preview: the exact byte range, and the image.
pub open spec fn row_line(verb: Seq<char>, p: PlanRowView) -> Seq<char> {
    "  "@ + verb + " "@ + slot_name((p.bank, p.unit)) + "  bytes "@ + range_text(
        p.offset as int,
        p.offset + p.bytes,
    ) + " ("@ + dec(p.bytes as nat) + " bytes)"@ + (match p.image {
        Some(i) => "  <- "@ + i,
        None => ""@,
    })
}

/// What the preview says of the device.
pub open spec fn device_line(d: DeviceInfo) -> Seq<char> {
    "  "@ + d.model@ + " ("@ + d.bus@ + ", "@ + (match d.removable {
        Some(true) => "removable"@,
        Some(false) => "NON-REMOVABLE"@,
        None => "removability unknown"@,
    }) + "), "@ + (match d.size_bytes {
        Some(n) => bytes_text(n),
        None => "unknown size"@,
    })
}

/// The whole plan: the device, the sector size, every slot, the TOC.
pub open spec fn preview(
    verb: Seq<char>,
    device: Seq<char>,
    info: Option<DeviceInfo>,
    layout: LayoutView,
    rows: Seq<PlanRowView>,
) -> Seq<Seq<char>> {
    seq!["About to "@ + verb + " on "@ + device] + (match info {
        Some(d) => seq![device_line(d)],
        None => Seq::empty(),
    }) + seq!["  sector size "@ + dec(layout.sector_size as nat) + " bytes"@] + rows.map_values(
        |p: PlanRowView| row_line(verb, p),
    ) + (match layout.toc_offset {
        Some(t) => seq!["  TOC update at 0x"@ + zero_pad(hex_of(t as nat), 10)],
        None => Seq::empty(),
    })
}

fn row_text(verb: &str, p: &PlanRow) -> (r: String)
    requires
        p.offset + p.bytes <= u64::MAX,
    ensures
        r@ == row_line(verb@, p@),
{
    let slot = slot_label(&p.bank, p.unit);
    let range = byte_range(p.offset, p.offset + p.bytes);
    let n = dec_text(p.bytes);
    let head = cat4("  ", verb, " ", &slot);
    let mid = cat5(&head, "  bytes ", &range, " (", &n);
    let src = match &p.image {
        Some(i) => cat2("  <- ", i),
        None => "".to_owned(),
    };
    cat3(&mid, " bytes)", &src)
}

fn device_text(d: &DeviceInfo) -> (r: String)
    ensures
        r@ == device_line(*d),
{
    let size = match d.size_bytes {
        Some(n) => format_bytes(n),
        None => "unknown size".to_owned(),
    };
    let removable = match d.removable {
        Some(b) => if b {
            "removable"
        } else {
            "NON-REMOVABLE"
        },
        None => "removability unknown",
    };
    let head = cat5("  ", &d.model, " (", &d.bus, ", ");
    cat4(&head, removable, "), ", &size)
}

/// The full plan, as it is shown before a destructive command.
pub fn plan_preview(
    verb: &str,
    device: &str,
    info: Option<&DeviceInfo>,
    layout: &Layout,
    rows: &Vec<PlanRow>,
) -> (r: Vec<String>)
    requires
        forall|i: int|
            0 <= i < rows@.len() ==> (#[trigger] rows@[i]).offset + rows@[i].bytes <= u64::MAX,
    ensures
        texts(r@) == preview(
            verb@,
            device@,
            match info {
                Some(d) => Some(*d),
                None => None,
            },
            layout@,
            row_views(rows@),
        ),
{
    let mut out: Vec<String> = Vec::new();
    let first = cat4("About to ", verb, " on ", device);
    push_text(&mut out, &first);
    assert(texts(out@) =~= seq![first@]);
    let ghost t0 = texts(out@);
    if let Some(d) = info {
        let line = device_text(d);
        push_text(&mut out, &line);
        assert(texts(out@) =~= t0 + seq![line@]);
    } else {
        assert(texts(out@) =~= t0 + Seq::<Seq<char>>::empty());
    }
    let ghost t1 = texts(out@);
    let n = dec_text(layout.sector_size as u64);
    let line = cat3("  sector size ", &n, " bytes");
    push_text(&mut out, &line);
    assert(texts(out@) =~= t1 + seq![line@]);
    let ghost t2 = texts(out@);
    let ghost want = row_views(rows@).map_values(|p: PlanRowView| row_line(verb@, p));
    let mut i: usize = 0;
    assert(texts(out@) =~= t2 + want.take(0));
    while i < rows.len()
        invariant
            i <= rows@.len(),
            forall|j: int|
                0 <= j < rows@.len() ==> (#[trigger] rows@[j]).offset + rows@[j].bytes <= u64::MAX,
            want == row_views(rows@).map_values(|p: PlanRowView| row_line(verb@, p)),
            texts(out@) == t2 + want.take(i as int),
        decreases rows@.len() - i,
    {
        let line = row_text(verb, &rows[i]);
        push_text(&mut out, &line);
        proof {
            assert(want[i as int] == line@);
            assert(want.take(i as int + 1) =~= want.take(i as int).push(line@));
            assert(texts(out@) =~= t2 + want.take(i as int + 1));
        }
        i = i + 1;
    }
    assert(want.take(i as int) =~= want);
    let ghost t3 = texts(out@);
    match layout.toc_offset {
        Some(t) => {
            let h = hex_text(t);
            let h = zero_padded(&h, 10);
            let line = cat2("  TOC update at 0x", &h);
            push_text(&mut out, &line);
            assert(texts(out@) =~= t3 + seq![line@]);
        },
        None => {
            assert(texts(out@) =~= t3 + Seq::<Seq<char>>::empty());
        },
    }
    out
}

/// How a plan is confirmed.
#[derive(Debug, Clone, Copy, PartialEq, Eq, Structural)]
pub enum Consent {
    /// It was given beforehand.
    Given,
    /// The user is asked.
    Ask,
}

pub open spec fn consent_of(json: bool, yes: bool) -> std::result::Result<Consent, ErrorView> {
    if yes {
        Ok(Consent::Given)
    } else if json {
        Err(
            ErrorView::Validation(
                "--json/--json-port runs are non-interactive; pass --yes to confirm the plan"@,
            ),
        )
    } else {
        Ok(Consent::Ask)
    }
}

/// Whether to ask for confirmation; an event stream cannot.
pub fn consent(json: bool, yes: bool) -> (r: Result<Consent>)
    ensures
        match r {
            Ok(c) => consent_of(json, yes) == Ok::<Consent, ErrorView>(c),
            Err(e) => consent_of(json, yes) == Err::<Consent, ErrorView>(e@),
        },
{
    if yes {
        Ok(Consent::Given)
    } else if json {
        Err(
            Error::Validation(
                "--json/--json-port runs are non-interactive; pass --yes to confirm the plan".to_owned(),
            ),
        )
    } else {
        Ok(Consent::Ask)
    }
}

/// Check the answer to the question: only `yes`, blanks around it aside, goes on.
pub fn check_answer(line: &str) -> (r: Result<()>)
    ensures
        match r {
            Ok(_) => trim(line@) == "yes"@,
            Err(e) => trim(line@) != "yes"@ && e@ == ErrorView::Validation(
                "aborted: confirmation not given"@,
            ),
        },
{
    let t = trimmed(line);
    if same_text(&t, "yes") {
        Ok(())
    } else {
        Err(Error::Validation("aborted: confirmation not given".to_owned()))
    }
}

// ---------------------------------------------------------------------------
// Commands
// ---------------------------------------------------------------------------

/// The heading of the device table.
pub open spec fn table_head() -> Seq<char> {
    left_in("DEVICE"@, 24) + " "@ + right_in("SIZE"@, 10) + " "@ + left_in("BUS"@, 8) + " "@
        + left_in("REMOVABLE"@, 10) + " MODEL"@
}

pub open spec fn table_line(d: DeviceInfo) -> Seq<char> {
    left_in(d.path@, 24) + " "@ + right_in(
        match d.size_bytes {
            Some(n) => bytes_text(n),
            None => "?"@,
        },
        10,
    ) + " "@ + left_in(d.bus@, 8) + " "@ + left_in(
        match d.removable {
            Some(true) => "yes"@,
            Some(false) => "no"@,
            None => "?"@,
        },
        10,
    ) + " "@ + d.model@ + (if d.system {
        "  [SYSTEM DISK]"@
    } else {
        ""@
    })
}

/// What `list` prints.
pub open spec fn table(devices: Seq<DeviceInfo>) -> Seq<Seq<char>> {
    if devices.len() == 0 {
        seq!["no block devices found (try an elevated prompt / sudo)"@]
    } else {
        seq![table_head()] + devices.map_values(|d: DeviceInfo| table_line(d))
    }
}

fn columns(a: &str, b: &str, c: &str, d: &str) -> (r: String)
    ensures
        r@ == left_in(a@, 24) + " "@ + right_in(b@, 10) + " "@ + left_in(c@, 8) + " "@ + left_in(
            d@,
            10,
        ),
{
    let a = align_left(a, 24);
    let b = align_right(b, 10);
    let c = align_left(c, 8);
    let d = align_left(d, 10);
    let head = cat5(&a, " ", &b, " ", &c);
    cat3(&head, " ", &d)
}

fn device_row(d: &DeviceInfo) -> (r: String)
    ensures
        r@ == table_line(*d),
{
    let size = match d.size_bytes {
        Some(n) => format_bytes(n),
        None => "?".to_owned(),
    };
    let removable = match d.removable {
        Some(b) => if b {
            "yes"
        } else {
            "no"
        },
        None => "?",
    };
    let head = columns(&d.path, &size, &d.bus, removable);
    let tail = if d.system {
        "  [SYSTEM DISK]"
    } else {
        ""
    };
    cat4(&head, " ", &d.model, tail)
}

/// The table of devices.
pub fn device_table(devices: &Vec<DeviceInfo>) -> (r: Vec<String>)
    ensures
        texts(r@) == table(devices@),
{
    let mut out: Vec<String> = Vec::new();
    if devices.len() == 0 {
        push_text(&mut out, "no block devices found (try an elevated prompt / sudo)");
        assert(texts(out@) =~= table(devices@));
        return out;
    }
    let cols = columns("DEVICE", "SIZE", "BUS", "REMOVABLE");
    let head = cat2(&cols, " MODEL");
    push_text(&mut out, &head);
    let ghost want = devices@.map_values(|d: DeviceInfo| table_line(d));
    let mut i: usize = 0;
    assert(texts(out@) =~= seq![table_head()] + want.take(0));
    while i < devices.len()
        invariant
            i <= devices@.len(),
            want == devices@.map_values(|d: DeviceInfo| table_line(d)),
            texts(out@) == seq![table_head()] + want.take(i as int),
        decreases devices@.len() - i,
    {
        let line = device_row(&devices[i]);
        push_text(&mut out, &line);
        proof {
            assert(want[i as int] == line@);
            assert(want.take(i as int + 1) =~= want.take(i as int).push(line@));
            assert(texts(out@) =~= seq![table_head()] + want.take(i as int + 1));
        }
        i = i + 1;
    }
    assert(want.take(i as int) =~= want);
    out
}

/// The event that tells of a listed device.
pub fn device_event(d: &DeviceInfo) -> (r: Event)
    ensures
        r@ == (EventView::Device {
            path: d.path@,
            model: d.model@,
            bus: d.bus@,
            size_bytes: d.size_bytes,
            removable: d.removable,
            system: d.system,
        }),
{
    Event::Device {
        path: d.path.clone(),
        model: d.model.clone(),
        bus: d.bus.clone(),
        size_bytes: d.size_bytes,
        removable: d.removable,
        system: d.system,
    }
}

/// The error of a status command that found no TOC and has no manifest.
pub fn no_toc_error(device: &str) -> (r: Error)
    ensures
        r@ == ErrorView::Validation(
            "no TOC found on "@ + device
                @ + "; pass --manifest for a slot-by-slot hash probe"@,
        ),
{
    Error::Validation(
        cat3(
            "no TOC found on ",
            device,
            "; pass --manifest for a slot-by-slot hash probe",
        ),
    )
}

/// Where extracted slots go.
#[derive(Debug)]
pub enum ReadOutputs {
    /// The one file of a single slot.
    File(String),
    /// Files of those names in a directory.
    Dir(String, Vec<String>),
}

/// The file name of an extracted slot.
pub open spec fn read_name(layout: LayoutView, place: (int, u32)) -> Seq<char> {
    let b = layout.banks[place.0];
    extracted_name(b.name, place.1, b.name_of(place.1))
}

pub open spec fn output_error() -> ErrorView {
    ErrorView::Validation("-o names a single output file; use --out-dir with multiple slots"@)
}

pub open spec fn no_output_error() -> ErrorView {
    ErrorView::Validation("give -o <file> for one slot or --out-dir <dir>"@)
}

/// Output rules: `-o` names the one file of a single slot; `--out-dir` takes any
/// number of slots, with generated names.
pub fn read_outputs(
    layout: &Layout,
    slots: &Vec<(usize, u32)>,
    out: Option<&str>,
    out_dir: Option<&str>,
) -> (r: Result<ReadOutputs>)
    requires
        forall|i: int| 0 <= i < slots@.len() ==> (#[trigger] slots@[i]).0 < layout.banks@.len(),
    ensures
        match (out, out_dir) {
            (Some(o), _) => if slots@.len() != 1 {
                r matches Err(e) && e@ == output_error()
            } else {
                r matches Ok(ReadOutputs::File(f)) && f@ == o@
            },
            (None, Some(dir)) => r matches Ok(ReadOutputs::Dir(d, names)) && d@ == dir@ && texts(
                names@,
            ) == place_views(slots@).map_values(|x: (int, u32)| read_name(layout@, x)),
            (None, None) => r matches Err(e) && e@ == no_output_error(),
        },
{
    if let Some(o) = out {
        if slots.len() != 1 {
            return Err(
                Error::Validation(
                    "-o names a single output file; use --out-dir with multiple slots".to_owned(),
                ),
            );
        }
        return Ok(ReadOutputs::File(o.to_owned()));
    }
    match out_dir {
        None => Err(
            Error::Validation("give -o <file> for one slot or --out-dir <dir>".to_owned()),
        ),
        Some(dir) => {
            let ghost want = place_views(slots@).map_values(
                |x: (int, u32)| read_name(layout@, x),
            );
            let mut names: Vec<String> = Vec::new();
            let mut i: usize = 0;
            while i < slots.len()
                invariant
                    i <= slots@.len(),
                    forall|j: int|
                        0 <= j < slots@.len() ==> (#[trigger] slots@[j]).0 < layout.banks@.len(),
                    want == place_views(slots@).map_values(
                        |x: (int, u32)| read_name(layout@, x),
                    ),
                    texts(names@) =~= want.take(i as int),
                decreases slots@.len() - i,
            {
                let (idx, unit) = slots[i];
                let bank = &layout.banks[idx];
                assert(layout@.banks[idx as int] == bank@);
                let name = bank.slot_name(unit);
                let file = match &name {
                    Some(n) => extract_filename(&bank.name, unit, Some(n)),
                    None => extract_filename(&bank.name, unit, None),
                };
                push_text(&mut names, &file);
                proof {
                    assert(want[i as int] == file@);
                    assert(want.take(i as int + 1) =~= want.take(i as int).push(file@));
                }
                i = i + 1;
            }
            assert(want.take(i as int) =~= want);
            Ok(ReadOutputs::Dir(dir.to_owned(), names))
        },
    }
}

/// The file paths of the outputs, in order. A directory and a file name are
/// joined as the machine does it.
pub fn output_paths(outputs: &ReadOutputs) -> (r: Vec<String>)
    ensures
        match outputs {
            ReadOutputs::File(f) => texts(r@) == seq![f@],
            ReadOutputs::Dir(dir, names) => r@.len() == names@.len() && forall|i: int|
                0 <= i < names@.len() ==> joins_to(dir@, #[trigger] names@[i]@, r@[i]@),
        },
{
    let mut out: Vec<String> = Vec::new();
    match outputs {
        ReadOutputs::File(f) => {
            push_text(&mut out, f);
            assert(texts(out@) =~= seq![f@]);
        },
        ReadOutputs::Dir(dir, names) => {
            let mut i: usize = 0;
            while i < names.len()
                invariant
                    i <= names@.len(),
                    out@.len() == i,
                    forall|j: int|
                        0 <= j < i ==> joins_to(dir@, #[trigger] names@[j]@, out@[j]@),
                decreases names@.len() - i,
            {
                out.push(join_path(dir, &names[i]));
                i = i + 1;
            }
        },
    }
    out
}

/// The verdict of a verify: which slots differ.
pub fn verify_report(mismatches: &Vec<String>) -> (r: Result<()>)
    ensures
        match r {
            Ok(_) => mismatches@.len() == 0,
            Err(e) => mismatches@.len() > 0 && e@ == ErrorView::VerifyMismatch(
                dec(mismatches@.len()) + " slot(s) differ from their manifest images: "@ + joined(
                    texts(mismatches@),
                    ", "@,
                ),
            ),
        },
{
    if mismatches.len() == 0 {
        Ok(())
    } else {
        let n = dec_count(mismatches.len());
        let list = join_texts(mismatches, ", ");
        Err(
            Error::VerifyMismatch(
                cat3(&n, " slot(s) differ from their manifest images: ", &list),
            ),
        )
    }
}

pub open spec fn image_refusal(out: Seq<char>, exists_already: bool, yes: bool) -> Option<ErrorView> {
    if names_platform_device(out) {
        Some(
            ErrorView::Validation(
                "image writes a regular file; use `sdslot write` for raw devices"@,
            ),
        )
    } else if exists_already && !yes {
        Some(ErrorView::Validation(out + " already exists; pass --yes to overwrite it"@))
    } else {
        None
    }
}

/// May a flat image be assembled in that file?
pub fn check_image_output(out: &str, exists_already: bool, yes: bool) -> (r: Result<()>)
    ensures
        match r {
            Ok(_) => image_refusal(out@, exists_already, yes) is None,
            Err(e) => image_refusal(out@, exists_already, yes) == Some(e@),
        },
{
    if is_platform_device_path(out) {
        Err(
            Error::Validation(
                "image writes a regular file; use `sdslot write` for raw devices".to_owned(),
            ),
        )
    } else if exists_already && !yes {
        Err(Error::Validation(cat2(out, " already exists; pass --yes to overwrite it")))
    } else {
        Ok(())
    }
}

/// Can that target be ejected? A regular file cannot.
pub fn check_ejectable(device: &str) -> (r: Result<()>)
    ensures
        match r {
            Ok(_) => names_platform_device(device@),
            Err(e) => !names_platform_device(device@) && e@ == ErrorView::Validation(
                device@ + " is not an ejectable device"@,
            ),
        },
{
    if is_platform_device_path(device) {
        Ok(())
    } else {
        Err(Error::Validation(cat2(device, " is not an ejectable device")))
    }
}

/// What became of an eject after a write.
#[derive(Debug)]
pub enum Eject {
    Done,
    /// It failed, and why.
    Failed(String),
    /// The target is a regular file.
    Ignored,
}

/// The note on an eject after a successful write: a failure is a warning, and a
/// file target is skipped.
pub fn eject_note(device: &str, eject: &Eject) -> (r: String)
    ensures
        r@ == (match eject {
            Eject::Done => device@ + " ejected — safe to remove"@,
            Eject::Failed(why) => "warning: cannot eject "@ + device@ + ": "@ + why@,
            Eject::Ignored => "--eject ignored: "@ + device@ + " is a regular file"@,
        }),
{
    match eject {
        Eject::Done => cat2(device, " ejected — safe to remove"),
        Eject::Failed(why) => cat4("warning: cannot eject ", device, ": ", why),
        Eject::Ignored => cat3("--eject ignored: ", device, " is a regular file"),
    }
}

/// The events that end a command: its error, if any, and that it is done. A
/// command with output of its own is quiet on success but for an event stream.
pub open spec fn closing(error: Option<ErrorView>, quiet: bool, json: bool) -> Seq<EventView> {
    match error {
        None => if !quiet || json {
            seq![(EventView::Done { ok: true, detail: None })]
        } else {
            Seq::empty()
        },
        Some(e) => seq![
            (EventView::Error { message: e.text() }),
            (EventView::Done { ok: false, detail: Some(e.text()) }),
        ],
    }
}

pub open spec fn event_views(v: Seq<Event>) -> Seq<EventView> {
    v.map_values(|e: Event| e@)
}

/// The events that end a command.
pub fn closing_events(result: &Result<()>, quiet: bool, json: bool) -> (r: Vec<Event>)
    ensures
        event_views(r@) == closing(
            match result {
                Ok(_) => None,
                Err(e) => Some(e@),
            },
            quiet,
            json,
        ),
{
    let mut out: Vec<Event> = Vec::new();
    match result {
        Ok(_) => {
            if !quiet || json {
                out.push(Event::Done { ok: true, detail: None });
            }
            assert(event_views(out@) =~= closing(None, quiet, json));
        },
        Err(e) => {
            out.push(Event::Error { message: e.message() });
            out.push(Event::Done { ok: false, detail: Some(e.message()) });
            assert(event_views(out@) =~= closing(Some(e@), quiet, json));
        },
    }
    out
}

} // verus!

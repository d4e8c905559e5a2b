//! The slot map: what is shown for each slot, which slots are ticked, and which
//! slots of a layout have some property.

use vstd::prelude::*;
use vstd::string::*;

use crate::engine::plan::{ImageFact, ImageFacts};
use crate::events::{OpKind, SlotState};
use crate::gui::ops::{
    update_views, wants_write, SlotOutcome, SlotUpdate, SlotUpdateView, SlotView, SlotViewView,
    UpdateView, ViewState,
};
use crate::layout::{Bank, BankView, Layout, LayoutView};
use crate::search::{first_where, first_where_is, first_where_props};
use crate::text::{clone_opt, same_text};

verus! {

/// A slot: its bank's name and its unit.
pub type SlotKey = (String, u32);

pub type SlotKeyView = (Seq<char>, u32);

pub open spec fn key_view(k: SlotKey) -> SlotKeyView {
    (k.0@, k.1)
}

pub open spec fn key_views(v: Seq<SlotKey>) -> Seq<SlotKeyView> {
    v.map_values(|k: SlotKey| key_view(k))
}

// ---------------------------------------------------------------------------
// What is shown for each slot
// ---------------------------------------------------------------------------

/// What is known of each slot of the card.
#[derive(Debug)]
pub struct SlotStates {
    rows: Vec<(SlotKey, SlotView)>,
}

pub open spec fn row_of(k: SlotKeyView) -> spec_fn((SlotKey, SlotView)) -> bool {
    |r: (SlotKey, SlotView)| key_view(r.0) == k
}

/// What a slot shows after an update. An outcome keeps the known name, and the
/// known length where it brings none.
pub open spec fn updated(prior: Option<SlotViewView>, update: SlotUpdateView) -> SlotViewView {
    let name = match prior {
        Some(v) => v.name,
        None => None,
    };
    match update {
        SlotUpdateView::Status(view) => view,
        SlotUpdateView::Outcome(SlotOutcome::SetTo { state, length }) => SlotViewView {
            state,
            name,
            length: match (length, prior) {
                (Some(n), _) => Some(n),
                (None, Some(v)) => v.length,
                (None, None) => None,
            },
        },
        SlotUpdateView::Outcome(SlotOutcome::Cleared) => SlotViewView {
            state: ViewState::Core(SlotState::Wiped),
            name,
            length: None,
        },
    }
}

/// What slot `k` shows after a row of updates.
pub open spec fn shown_after(
    k: SlotKeyView,
    prior: Option<SlotViewView>,
    updates: Seq<UpdateView>,
) -> Option<SlotViewView>
    decreases updates.len(),
{
    if updates.len() == 0 {
        prior
    } else {
        let before = shown_after(k, prior, updates.drop_last());
        if updates.last().0 == k {
            Some(updated(before, updates.last().1))
        } else {
            before
        }
    }
}

/// The state of a row once nothing runs any more: an interrupted verify leaves
/// the data written but unconfirmed, anything else interrupted leaves the slot
/// suspect.
pub open spec fn settled(state: ViewState) -> ViewState {
    match state {
        ViewState::Busy(OpKind::Verify) => ViewState::Written,
        ViewState::Busy(_) => ViewState::Core(SlotState::Differs),
        other => other,
    }
}

pub open spec fn settled_view(shown: Option<SlotViewView>) -> Option<SlotViewView> {
    match shown {
        Some(v) => Some(SlotViewView { state: settled(v.state), ..v }),
        None => None,
    }
}

impl SlotStates {
    /// What is shown for a slot.
    pub closed spec fn shown(self, k: SlotKeyView) -> Option<SlotViewView> {
        let i = first_where(self.rows@, row_of(k)) as int;
        if i < self.rows@.len() {
            Some(self.rows@[i].1@)
        } else {
            None
        }
    }

    /// Nothing is known of any slot.
    pub fn new() -> (r: SlotStates)
        ensures
            forall|k: SlotKeyView| r.shown(k) is None,
    {
        SlotStates { rows: Vec::new() }
    }

    fn position(&self, bank: &str, unit: u32) -> (i: usize)
        ensures
            i == first_where(self.rows@, row_of((bank@, unit))),
            i <= self.rows@.len(),
    {
        let n: usize = self.rows.len();
        let mut i: usize = 0;
        while i < n && !(self.rows[i].0.1 == unit && same_text(&self.rows[i].0.0, bank))
            invariant
                n == self.rows@.len(),
                i <= n,
                forall|j: int| 0 <= j < i ==> !row_of((bank@, unit))(#[trigger] self.rows@[j]),
            decreases n - i,
        {
            i = i + 1;
        }
        proof {
            first_where_is(self.rows@, row_of((bank@, unit)), i as int);
        }
        i
    }

    /// What is shown for a slot.
    pub fn get(&self, bank: &str, unit: u32) -> (r: Option<&SlotView>)
        ensures
            (match r {
                Some(v) => Some(v@),
                None => None,
            }) == self.shown((bank@, unit)),
    {
        let i: usize = self.position(bank, unit);
        if i < self.rows.len() {
            Some(&self.rows[i].1)
        } else {
            None
        }
    }

    /// Show `view` for a slot.
    pub fn insert(&mut self, bank: &str, unit: u32, view: SlotView)
        ensures
            final(self).shown((bank@, unit)) == Some(view@),
            forall|k: SlotKeyView| k != (bank@, unit) ==> #[trigger] final(self).shown(k) == old(
                self,
            ).shown(k),
    {
        let i: usize = self.position(bank, unit);
        let ghost before = self.rows@;
        let ghost at = (bank@, unit);
        proof {
            first_where_props(before, row_of(at));
        }
        if i < self.rows.len() {
            self.rows.set(i, ((bank.to_owned(), unit), view));
        } else {
            self.rows.push(((bank.to_owned(), unit), view));
        }
        proof {
            let after = self.rows@;
            assert forall|j: int| 0 <= j < i implies !row_of(at)(#[trigger] after[j]) by {
                assert(after[j] == before[j]);
            }
            first_where_is(after, row_of(at), i as int);
            assert forall|k: SlotKeyView| k != at implies #[trigger] self.shown(k) == old(
                self,
            ).shown(k) by {
                first_where_props(before, row_of(k));
                let p = first_where(before, row_of(k)) as int;
                if p < before.len() {
                    assert(p != i);
                    assert forall|j: int| 0 <= j < p implies !row_of(k)(#[trigger] after[j]) by {
                        if j != i {
                            assert(after[j] == before[j]);
                        }
                    }
                    assert(after[p] == before[p]);
                    first_where_is(after, row_of(k), p);
                } else {
                    assert forall|j: int| 0 <= j < after.len() implies !row_of(k)(
                        #[trigger] after[j],
                    ) by {
                        if j != i {
                            assert(after[j] == before[j]);
                        }
                    }
                    first_where_is(after, row_of(k), after.len() as int);
                }
            }
        }
    }

    /// Apply one change of a slot.
    pub fn apply(&mut self, bank: &str, unit: u32, update: SlotUpdate)
        ensures
            final(self).shown((bank@, unit)) == Some(
                updated(old(self).shown((bank@, unit)), update@),
            ),
            forall|k: SlotKeyView| k != (bank@, unit) ==> #[trigger] final(self).shown(k) == old(
                self,
            ).shown(k),
    {
        let view = match update {
            SlotUpdate::Status(view) => view,
            SlotUpdate::Outcome(outcome) => {
                let (name, known) = match self.get(bank, unit) {
                    Some(v) => (clone_opt(&v.name), v.length),
                    None => (None, None),
                };
                match outcome {
                    SlotOutcome::SetTo { state, length } => {
                        let length = match length {
                            Some(n) => Some(n),
                            None => known,
                        };
                        SlotView { state, name, length }
                    },
                    SlotOutcome::Cleared => SlotView {
                        state: ViewState::Core(SlotState::Wiped),
                        name,
                        length: None,
                    },
                }
            },
        };
        self.insert(bank, unit, view);
    }

    /// Apply changes in order.
    pub fn apply_all(&mut self, updates: Vec<(SlotKey, SlotUpdate)>)
        ensures
            forall|k: SlotKeyView| #[trigger]
                final(self).shown(k) == shown_after(k, old(self).shown(k), update_views(updates@)),
    {
        let ghost all = update_views(updates@);
        let mut rest = updates;
        let n: usize = rest.len();
        let mut i: usize = 0;
        assert(rest@ =~= updates@.skip(0));
        assert(all.take(0) =~= Seq::<UpdateView>::empty());
        while i < n
            invariant
                n == updates@.len(),
                i <= n,
                all == update_views(updates@),
                rest@ == updates@.skip(i as int),
                forall|k: SlotKeyView| #[trigger]
                    self.shown(k) == shown_after(k, old(self).shown(k), all.take(i as int)),
            decreases n - i,
        {
            let (key, update) = rest.remove(0);
            let ghost before = *self;
            let ghost u = update@;
            self.apply(&key.0, key.1, update);
            proof {
                let next = all.take(i as int + 1);
                assert(next.drop_last() =~= all.take(i as int));
                assert(next.last() == (key_view(key), u));
                assert forall|k: SlotKeyView| #[trigger] self.shown(k) == shown_after(
                    k,
                    old(self).shown(k),
                    next,
                ) by {
                    assert(before.shown(k) == shown_after(k, old(self).shown(k), all.take(i as int)));
                }
                assert(rest@ =~= updates@.skip(i as int + 1));
            }
            i = i + 1;
        }
        assert(all.take(n as int) =~= all);
    }

    /// Resolve the rows that an ended operation left busy.
    pub fn settle(&mut self)
        ensures
            forall|k: SlotKeyView| #[trigger]
                final(self).shown(k) == settled_view(old(self).shown(k)),
    {
        let ghost before = self.rows@;
        let n: usize = self.rows.len();
        let mut i: usize = 0;
        while i < n
            invariant
                n == self.rows@.len(),
                n == before.len(),
                i <= n,
                forall|j: int|
                    0 <= j < n ==> (#[trigger] self.rows@[j]).0 == before[j].0 && self.rows@[j].1@
                        == if j < i {
                        SlotViewView { state: settled(before[j].1.state), ..before[j].1@ }
                    } else {
                        before[j].1@
                    },
            decreases n - i,
        {
            let state = match self.rows[i].1.state {
                ViewState::Busy(kind) => match kind {
                    OpKind::Verify => ViewState::Written,
                    _ => ViewState::Core(SlotState::Differs),
                },
                other => other,
            };
            let row = &self.rows[i];
            let key = (row.0.0.clone(), row.0.1);
            let view = SlotView { state, name: clone_opt(&row.1.name), length: row.1.length };
            self.rows.set(i, (key, view));
            i = i + 1;
        }
        proof {
            assert forall|k: SlotKeyView| #[trigger] self.shown(k) == settled_view(
                old(self).shown(k),
            ) by {
                first_where_props(before, row_of(k));
                let p = first_where(before, row_of(k)) as int;
                assert forall|j: int| 0 <= j < p implies !row_of(k)(#[trigger] self.rows@[j]) by {
                    assert(!row_of(k)(before[j]));
                }
                if p < before.len() {
                    assert(self.rows@[p].0 == before[p].0);
                }
                first_where_is(self.rows@, row_of(k), p);
            }
        }
    }
}

/// Does this state say that the slot holds content?
pub open spec fn has_content(state: ViewState) -> bool {
    match state {
        ViewState::Written => true,
        ViewState::Busy(_) => true,
        ViewState::Core(SlotState::Matches) => true,
        ViewState::Core(SlotState::Modified) => true,
        ViewState::Core(SlotState::Differs) => true,
        ViewState::Core(SlotState::Wiped) => false,
        ViewState::Core(SlotState::Unknown) => false,
    }
}

/// A slot that holds, or is about to hold, content. Wiped and unknown slots
/// count as free.
pub open spec fn occupied(states: SlotStates, bank: BankView, unit: u32) -> bool {
    ||| states.shown((bank.name, unit)) matches Some(v) && has_content(v.state)
    ||| bank.image_of(unit) is Some
}

/// An empty row: nothing known on the card, no name, no image.
pub open spec fn empty(states: SlotStates, bank: BankView, unit: u32) -> bool {
    let shown = states.shown((bank.name, unit));
    &&& !(shown matches Some(v) && v.name is Some)
    &&& bank.name_of(unit) is None
    &&& bank.image_of(unit) is None
    &&& shown matches Some(v) ==> v.state == ViewState::Core(SlotState::Unknown)
}

/// Does this slot hold (or is it about to hold) meaningful content?
pub fn slot_occupied(states: &SlotStates, bank: &Bank, unit: u32) -> (r: bool)
    ensures
        r == occupied(*states, bank@, unit),
{
    let content = match states.get(&bank.name, unit) {
        Some(v) => match v.state {
            ViewState::Written => true,
            ViewState::Busy(_) => true,
            ViewState::Core(s) => match s {
                SlotState::Matches => true,
                SlotState::Modified => true,
                SlotState::Differs => true,
                SlotState::Wiped => false,
                SlotState::Unknown => false,
            },
        },
        None => false,
    };
    content || bank.image_path(unit).is_some()
}

/// Is this row empty: nothing known on the card, no name, no image?
pub fn slot_is_empty(states: &SlotStates, bank: &Bank, unit: u32) -> (r: bool)
    ensures
        r == empty(*states, bank@, unit),
{
    let (named, idle) = match states.get(&bank.name, unit) {
        Some(v) => (v.name.is_some(), v.state == ViewState::Core(SlotState::Unknown)),
        None => (false, true),
    };
    !named && idle && bank.slot_name(unit).is_none() && bank.image_path(unit).is_none()
}

// ---------------------------------------------------------------------------
// Ticked slots
// ---------------------------------------------------------------------------

/// A set of slots, such as those ticked for a batch operation.
#[derive(Debug)]
pub struct SlotSet {
    keys: Vec<SlotKey>,
}

impl View for SlotSet {
    type V = Set<SlotKeyView>;

    closed spec fn view(&self) -> Set<SlotKeyView> {
        key_views(self.keys@).to_set()
    }
}

impl SlotSet {
    /// No slot is held twice.
    pub closed spec fn wf(self) -> bool {
        key_views(self.keys@).no_duplicates()
    }

    pub fn new() -> (r: SlotSet)
        ensures
            r.wf(),
            r@ == Set::<SlotKeyView>::empty(),
    {
        let r = SlotSet { keys: Vec::new() };
        assert(r@ =~= Set::<SlotKeyView>::empty());
        r
    }

    /// How many slots.
    pub fn len(&self) -> (r: usize)
        requires
            self.wf(),
        ensures
            r == self@.len(),
            self@.finite(),
    {
        proof {
            key_views(self.keys@).unique_seq_to_set();
            vstd::seq_lib::seq_to_set_is_finite(key_views(self.keys@));
        }
        self.keys.len()
    }

    fn position(&self, bank: &str, unit: u32) -> (r: Option<usize>)
        ensures
            match r {
                Some(i) => i < self.keys@.len() && key_view(self.keys@[i as int]) == (bank@, unit)
                    && self@.contains((bank@, unit)),
                None => !self@.contains((bank@, unit)),
            },
    {
        let ghost views = key_views(self.keys@);
        let n: usize = self.keys.len();
        let mut i: usize = 0;
        while i < n
            invariant
                n == self.keys@.len(),
                i <= n,
                views == key_views(self.keys@),
                forall|j: int| 0 <= j < i ==> #[trigger] views[j] != (bank@, unit),
            decreases n - i,
        {
            if self.keys[i].1 == unit && same_text(&self.keys[i].0, bank) {
                assert(views[i as int] == (bank@, unit));
                return Some(i);
            }
            i = i + 1;
        }
        None
    }

    pub fn contains(&self, bank: &str, unit: u32) -> (r: bool)
        ensures
            r == self@.contains((bank@, unit)),
    {
        self.position(bank, unit).is_some()
    }

    pub fn insert(&mut self, bank: &str, unit: u32)
        requires
            old(self).wf(),
        ensures
            final(self).wf(),
            final(self)@ == old(self)@.insert((bank@, unit)),
    {
        let ghost before = key_views(self.keys@);
        let ghost at = (bank@, unit);
        match self.position(bank, unit) {
            Some(_) => {
                assert(self@ =~= old(self)@.insert(at));
            },
            None => {
                self.keys.push((bank.to_owned(), unit));
                let ghost after = key_views(self.keys@);
                assert(after =~= before.push(at));
                assert(!before.contains(at));
                assert forall|k: SlotKeyView| #[trigger]
                    after.to_set().contains(k) == before.to_set().insert(at).contains(k) by {
                    if before.contains(k) {
                        let j = choose|j: int| 0 <= j < before.len() && before[j] == k;
                        assert(after[j] == k);
                    }
                    if k == at {
                        assert(after[before.len() as int] == at);
                    }
                }
                assert(self@ =~= old(self)@.insert(at));
            },
        }
    }

    pub fn remove(&mut self, bank: &str, unit: u32)
        requires
            old(self).wf(),
        ensures
            final(self).wf(),
            final(self)@ == old(self)@.remove((bank@, unit)),
    {
        let ghost before = key_views(self.keys@);
        let ghost at = (bank@, unit);
        match self.position(bank, unit) {
            None => {
                assert(self@ =~= old(self)@.remove(at));
            },
            Some(i) => {
                self.keys.remove(i);
                let ghost after = key_views(self.keys@);
                assert(after =~= before.remove(i as int));
                assert forall|k: SlotKeyView| #[trigger]
                    after.to_set().contains(k) == before.to_set().remove(at).contains(k) by {
                    if before.contains(k) && k != at {
                        let j = choose|j: int| 0 <= j < before.len() && before[j] == k;
                        assert(j != i);
                        assert(after[if j < i {
                            j
                        } else {
                            j - 1
                        }] == k);
                    }
                    if after.contains(k) {
                        let j = choose|j: int| 0 <= j < after.len() && after[j] == k;
                        let m = if j < i {
                            j
                        } else {
                            j + 1
                        };
                        assert(before[m] == k);
                        assert(before[i as int] == at);
                    }
                }
                assert(self@ =~= old(self)@.remove(at));
            },
        }
    }

    /// Tick or untick one slot.
    pub fn tick(&mut self, bank: &str, unit: u32, on: bool)
        requires
            old(self).wf(),
        ensures
            final(self).wf(),
            final(self)@ == if on {
                old(self)@.insert((bank@, unit))
            } else {
                old(self)@.remove((bank@, unit))
            },
    {
        if on {
            self.insert(bank, unit);
        } else {
            self.remove(bank, unit);
        }
    }

    /// Tick or untick a list of slots.
    pub fn tick_all(&mut self, slots: &Vec<SlotKey>, on: bool)
        requires
            old(self).wf(),
        ensures
            final(self).wf(),
            final(self)@ == if on {
                old(self)@.union(key_views(slots@).to_set())
            } else {
                old(self)@.difference(key_views(slots@).to_set())
            },
    {
        let ghost all = key_views(slots@);
        let ghost start = self@;
        let mut i: usize = 0;
        assert(all.take(0).to_set() =~= Set::<SlotKeyView>::empty());
        assert(self@ =~= start.union(all.take(0).to_set()));
        assert(self@ =~= start.difference(all.take(0).to_set()));
        while i < slots.len()
            invariant
                i <= slots@.len(),
                all == key_views(slots@),
                self.wf(),
                self@ == if on {
                    start.union(all.take(i as int).to_set())
                } else {
                    start.difference(all.take(i as int).to_set())
                },
            decreases slots@.len() - i,
        {
            let key = &slots[i];
            self.tick(&key.0, key.1, on);
            proof {
                let k = all[i as int];
                let next = all.take(i as int + 1);
                assert(next =~= all.take(i as int).push(k));
                assert forall|x: SlotKeyView| #[trigger]
                    next.to_set().contains(x) == all.take(i as int).to_set().insert(k).contains(
                        x,
                    ) by {
                    if all.take(i as int).contains(x) {
                        let j = choose|j: int|
                            0 <= j < all.take(i as int).len() && all.take(i as int)[j] == x;
                        assert(next[j] == x);
                    }
                    if x == k {
                        assert(next[i as int] == x);
                    }
                }
                assert(next.to_set() =~= all.take(i as int).to_set().insert(k));
                assert(start.union(next.to_set()) =~= start.union(
                    all.take(i as int).to_set(),
                ).insert(k));
                assert(start.difference(next.to_set()) =~= start.difference(
                    all.take(i as int).to_set(),
                ).remove(k));
            }
            i = i + 1;
        }
        assert(all.take(i as int) =~= all);
    }
}

// ---------------------------------------------------------------------------
// Slots of a layout with some property
// ---------------------------------------------------------------------------

/// A property of slots.
pub enum Pick<'a> {
    /// Ticked.
    Ticked(&'a SlotSet),
    /// Shown in the slot map; with `hide_empty`, empty rows are not.
    Visible { states: &'a SlotStates, hide_empty: bool },
    /// An empty row.
    Empty(&'a SlotStates),
    /// Holds, or is about to hold, content.
    Occupied(&'a SlotStates),
    /// Named an image that is on disk.
    ImageOnDisk(&'a ImageFacts),
    /// Named an image that is on disk, and not known to hold it already.
    NeedsWrite { states: &'a SlotStates, facts: &'a ImageFacts },
}

/// A slot of the bank is named an image that is a regular file.
pub open spec fn image_on_disk(facts: ImageFacts, bank: BankView, unit: u32) -> bool {
    bank.image_of(unit) matches Some(path) && facts.fact(path) is File
}

impl<'a> Pick<'a> {
    pub open spec fn takes(self, bank: BankView, unit: u32) -> bool {
        match self {
            Pick::Ticked(set) => set@.contains((bank.name, unit)),
            Pick::Visible { states, hide_empty } => !hide_empty || !empty(*states, bank, unit),
            Pick::Empty(states) => empty(*states, bank, unit),
            Pick::Occupied(states) => occupied(*states, bank, unit),
            Pick::ImageOnDisk(facts) => image_on_disk(*facts, bank, unit),
            Pick::NeedsWrite { states, facts } => image_on_disk(*facts, bank, unit) && wants_write(
                match states.shown((bank.name, unit)) {
                    Some(v) => Some(v.state),
                    None => None,
                },
            ),
        }
    }

    /// Has a slot the property?
    pub fn takes_slot(&self, bank: &Bank, unit: u32) -> (r: bool)
        ensures
            r == self.takes(bank@, unit),
    {
        match self {
            Pick::Ticked(set) => set.contains(&bank.name, unit),
            Pick::Visible { states, hide_empty } => !*hide_empty || !slot_is_empty(
                states,
                bank,
                unit,
            ),
            Pick::Empty(states) => slot_is_empty(states, bank, unit),
            Pick::Occupied(states) => slot_occupied(states, bank, unit),
            Pick::ImageOnDisk(facts) => has_image_on_disk(facts, bank, unit),
            Pick::NeedsWrite { states, facts } => {
                let state = match states.get(&bank.name, unit) {
                    Some(v) => Some(v.state),
                    None => None,
                };
                has_image_on_disk(facts, bank, unit) && crate::gui::ops::needs_write(state)
            },
        }
    }
}

fn has_image_on_disk(facts: &ImageFacts, bank: &Bank, unit: u32) -> (r: bool)
    ensures
        r == image_on_disk(*facts, bank@, unit),
{
    match bank.image_path(unit) {
        Some(path) => match facts.of(&path) {
            ImageFact::File(_) => true,
            _ => false,
        },
        None => false,
    }
}

/// The slots among the first `n` of a bank that have the property, in order.
pub open spec fn picked_in(pick: Pick, bank: BankView, n: int) -> Seq<SlotKeyView>
    decreases n,
{
    if n <= 0 {
        Seq::empty()
    } else if pick.takes(bank, (n - 1) as u32) {
        picked_in(pick, bank, n - 1).push((bank.name, (n - 1) as u32))
    } else {
        picked_in(pick, bank, n - 1)
    }
}

/// The slots of the first `n` banks that have the property, in order.
pub open spec fn picked(pick: Pick, layout: LayoutView, n: int) -> Seq<SlotKeyView>
    decreases n,
{
    if n <= 0 {
        Seq::empty()
    } else {
        picked(pick, layout, n - 1) + picked_in(
            pick,
            layout.banks[n - 1],
            layout.banks[n - 1].units as int,
        )
    }
}

fn pick_into(pick: &Pick, bank: &Bank, out: &mut Vec<SlotKey>)
    ensures
        key_views(final(out)@) == key_views(old(out)@) + picked_in(
            *pick,
            bank@,
            bank.units as int,
        ),
{
    let ghost start = key_views(out@);
    let mut u: u32 = 0;
    assert(key_views(out@) =~= start + picked_in(*pick, bank@, 0));
    while u < bank.units
        invariant
            u <= bank.units,
            key_views(out@) == start + picked_in(*pick, bank@, u as int),
        decreases bank.units - u,
    {
        let ghost before = out@;
        if pick.takes_slot(bank, u) {
            out.push((bank.name.clone(), u));
            assert(key_views(out@) =~= key_views(before).push((bank@.name, u)));
        }
        assert(key_views(out@) =~= start + picked_in(*pick, bank@, u + 1));
        u = u + 1;
    }
}

/// The slots of a bank that have the property, in order.
pub fn pick_in_bank(pick: &Pick, bank: &Bank) -> (r: Vec<SlotKey>)
    ensures
        key_views(r@) == picked_in(*pick, bank@, bank.units as int),
{
    let mut out: Vec<SlotKey> = Vec::new();
    pick_into(pick, bank, &mut out);
    assert(key_views(out@) =~= picked_in(*pick, bank@, bank.units as int));
    out
}

/// The slots of a layout that have the property: bank by bank, unit by unit.
pub fn pick_slots(pick: &Pick, layout: &Layout) -> (r: Vec<SlotKey>)
    ensures
        key_views(r@) == picked(*pick, layout@, layout.banks@.len() as int),
{
    let mut out: Vec<SlotKey> = Vec::new();
    let mut i: usize = 0;
    assert(key_views(out@) =~= Seq::<SlotKeyView>::empty());
    while i < layout.banks.len()
        invariant
            i <= layout.banks@.len(),
            key_views(out@) == picked(*pick, layout@, i as int),
        decreases layout.banks@.len() - i,
    {
        pick_into(pick, &layout.banks[i], &mut out);
        assert(layout@.banks[i as int] == layout.banks@[i as int]@);
        i = i + 1;
    }
    out
}

/// How many slots of a bank have the property.
pub fn count_in_bank(pick: &Pick, bank: &Bank) -> (r: u32)
    ensures
        r == picked_in(*pick, bank@, bank.units as int).len(),
        r <= bank.units,
{
    let mut count: u32 = 0;
    let mut u: u32 = 0;
    while u < bank.units
        invariant
            count <= u <= bank.units,
            count == picked_in(*pick, bank@, u as int).len(),
        decreases bank.units - u,
    {
        if pick.takes_slot(bank, u) {
            count = count + 1;
        }
        u = u + 1;
    }
    count
}

// ---------------------------------------------------------------------------
// Selection rules
// ---------------------------------------------------------------------------

/// A selection of just the slots with the property: every slot whose image is
/// on disk when a manifest is loaded, every visible slot for "All", what needs
/// writing for "Needed".
pub fn select(pick: &Pick, layout: &Layout) -> (r: SlotSet)
    ensures
        r.wf(),
        r@ == picked(*pick, layout@, layout.banks@.len() as int).to_set(),
{
    let slots = pick_slots(pick, layout);
    let mut set = SlotSet::new();
    set.tick_all(&slots, true);
    assert(set@ =~= key_views(slots@).to_set());
    set
}

/// The selection that a status scan leaves: with the option on, a scan that
/// came to its end narrows it to what needs writing; one that was canceled or
/// failed leaves it alone.
pub fn selection_after_scan(
    selection: SlotSet,
    narrow: bool,
    completed: bool,
    layout: &Layout,
    states: &SlotStates,
    facts: &ImageFacts,
) -> (r: SlotSet)
    requires
        selection.wf(),
    ensures
        r.wf(),
        r@ == if narrow && completed {
            picked(
                Pick::NeedsWrite { states, facts },
                layout@,
                layout.banks@.len() as int,
            ).to_set()
        } else {
            selection@
        },
{
    if narrow && completed {
        select(&Pick::NeedsWrite { states, facts }, layout)
    } else {
        selection
    }
}

/// Drop the ticks of slots that are hidden as empty.
pub fn prune_hidden(set: &mut SlotSet, layout: &Layout, states: &SlotStates, hide_empty: bool)
    requires
        old(set).wf(),
    ensures
        final(set).wf(),
        final(set)@ == if hide_empty {
            old(set)@.difference(
                picked(Pick::Empty(states), layout@, layout.banks@.len() as int).to_set(),
            )
        } else {
            old(set)@
        },
{
    if hide_empty {
        let hidden = pick_slots(&Pick::Empty(states), layout);
        set.tick_all(&hidden, false);
    }
}

/// The bank's master checkbox: ticked when it has visible slots and all of them
/// are ticked.
pub fn bank_ticked(bank: &Bank, set: &SlotSet, states: &SlotStates, hide_empty: bool) -> (r: bool)
    ensures
        r == ({
            let visible = picked_in(
                Pick::Visible { states, hide_empty },
                bank@,
                bank.units as int,
            );
            visible.len() > 0 && visible.to_set().subset_of(set@)
        }),
{
    let visible = pick_in_bank(&Pick::Visible { states, hide_empty }, bank);
    let ghost views = key_views(visible@);
    let mut i: usize = 0;
    while i < visible.len()
        invariant
            i <= visible@.len(),
            views == key_views(visible@),
            views == picked_in(Pick::Visible { states, hide_empty }, bank@, bank.units as int),
            forall|j: int| 0 <= j < i ==> set@.contains(#[trigger] views[j]),
        decreases visible@.len() - i,
    {
        let key = &visible[i];
        if !set.contains(&key.0, key.1) {
            assert(views[i as int] == key_view(*key));
            assert(views.to_set().contains(views[i as int]) && !set@.contains(views[i as int]));
            return false;
        }
        assert(views[i as int] == key_view(*key));
        i = i + 1;
    }
    assert(views.to_set().subset_of(set@));
    visible.len() > 0
}

/// Tick or untick a bank's visible slots.
pub fn tick_bank(
    bank: &Bank,
    set: &mut SlotSet,
    states: &SlotStates,
    hide_empty: bool,
    on: bool,
)
    requires
        old(set).wf(),
    ensures
        final(set).wf(),
        final(set)@ == ({
            let visible = picked_in(
                Pick::Visible { states, hide_empty },
                bank@,
                bank.units as int,
            ).to_set();
            if on {
                old(set)@.union(visible)
            } else {
                old(set)@.difference(visible)
            }
        }),
{
    let visible = pick_in_bank(&Pick::Visible { states, hide_empty }, bank);
    set.tick_all(&visible, on);
}

/// How many rows of the slot map are hidden.
pub fn hidden_total(layout: &Layout, states: &SlotStates, hide_empty: bool) -> (r: usize)
    ensures
        r == if hide_empty {
            picked(Pick::Empty(states), layout@, layout.banks@.len() as int).len()
        } else {
            0
        },
{
    if hide_empty {
        let hidden = pick_slots(&Pick::Empty(states), layout);
        assert(key_views(hidden@).len() == hidden@.len());
        hidden.len()
    } else {
        0
    }
}

// ---------------------------------------------------------------------------
// Laws
// ---------------------------------------------------------------------------

proof fn picked_in_is(pick: Pick, bank: BankView, n: int, k: SlotKeyView)
    requires
        0 <= n <= bank.units,
    ensures
        picked_in(pick, bank, n).contains(k) <==> k.0 == bank.name && k.1 < n && pick.takes(
            bank,
            k.1,
        ),
    decreases n,
{
    if n > 0 {
        picked_in_is(pick, bank, n - 1, k);
        let before = picked_in(pick, bank, n - 1);
        let after = picked_in(pick, bank, n);
        if before.contains(k) {
            let j = choose|j: int| 0 <= j < before.len() && before[j] == k;
            assert(after[j] == k);
        }
        if pick.takes(bank, (n - 1) as u32) {
            assert(after[before.len() as int] == (bank.name, (n - 1) as u32));
        }
    }
}

/// A layout's picked slots are the slots of its banks that have the property,
/// and no others.
pub proof fn picked_slots_are(pick: Pick, layout: LayoutView, n: int, k: SlotKeyView)
    requires
        0 <= n <= layout.banks.len(),
    ensures
        picked(pick, layout, n).contains(k) <==> exists|i: int|
            0 <= i < n && (#[trigger] layout.banks[i]).name == k.0 && k.1 < layout.banks[i].units
                && pick.takes(layout.banks[i], k.1),
    decreases n,
{
    if n > 0 {
        picked_slots_are(pick, layout, n - 1, k);
        let b = layout.banks[n - 1];
        picked_in_is(pick, b, b.units as int, k);
        let front = picked(pick, layout, n - 1);
        let back = picked_in(pick, b, b.units as int);
        let all = picked(pick, layout, n);
        if front.contains(k) {
            let j = choose|j: int| 0 <= j < front.len() && front[j] == k;
            assert(all[j] == k);
        }
        if back.contains(k) {
            let j = choose|j: int| 0 <= j < back.len() && back[j] == k;
            assert(all[front.len() + j] == k);
        }
        if all.contains(k) {
            let j = choose|j: int| 0 <= j < all.len() && all[j] == k;
            if j < front.len() {
                assert(front[j] == k);
            } else {
                assert(back[j - front.len()] == k);
            }
        }
    }
}

/// What "Needed" ticks has an image on disk, and a slot that the scan reported
/// as matching is never among it.
pub proof fn needed_slots_do_not_match(
    states: &SlotStates,
    facts: &ImageFacts,
    layout: LayoutView,
    k: SlotKeyView,
)
    requires
        picked(
            Pick::NeedsWrite { states, facts },
            layout,
            layout.banks.len() as int,
        ).contains(k),
    ensures
        states.shown(k) matches Some(v) ==> v.state != ViewState::Core(SlotState::Matches),
        exists|i: int|
            0 <= i < layout.banks.len() && (#[trigger] layout.banks[i]).name == k.0
                && image_on_disk(*facts, layout.banks[i], k.1),
{
    let pick = Pick::NeedsWrite { states, facts };
    picked_slots_are(pick, layout, layout.banks.len() as int, k);
    let i = choose|i: int|
        0 <= i < layout.banks.len() && (#[trigger] layout.banks[i]).name == k.0 && k.1
            < layout.banks[i].units && pick.takes(layout.banks[i], k.1);
    assert(image_on_disk(*facts, layout.banks[i], k.1));
}

/// Ticking all visible slots while empty rows are hidden ticks no empty row.
pub proof fn hidden_slots_are_never_ticked(
    states: &SlotStates,
    layout: LayoutView,
    i: int,
    unit: u32,
)
    requires
        layout.valid(),
        0 <= i < layout.banks.len(),
        empty(*states, layout.banks[i], unit),
    ensures
        !picked(
            Pick::Visible { states, hide_empty: true },
            layout,
            layout.banks.len() as int,
        ).contains((layout.banks[i].name, unit)),
{
    let pick = Pick::Visible { states, hide_empty: true };
    let k = (layout.banks[i].name, unit);
    picked_slots_are(pick, layout, layout.banks.len() as int, k);
    if picked(pick, layout, layout.banks.len() as int).contains(k) {
        let j = choose|j: int|
            0 <= j < layout.banks.len() && (#[trigger] layout.banks[j]).name == k.0 && k.1
                < layout.banks[j].units && pick.takes(layout.banks[j], k.1);
        if i < j {
            assert(layout.banks[i].name != layout.banks[j].name);
        } else if j < i {
            assert(layout.banks[j].name != layout.banks[i].name);
        }
    }
}

} // verus!

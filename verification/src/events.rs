//! Structured progress events. One stream feeds every frontend; its serialized
//! form is the versioned contract between them.

use vstd::prelude::*;
use vstd::string::*;

use crate::text::opt_text;

verus! {

/// Bumped when the serialized event schema changes incompatibly. Version 2:
/// `PhaseStart` announces each pass's byte total, and every slot, status
/// hashing included, gets a uniform `SlotEnd`.
pub const EVENT_SCHEMA_VERSION: u32 = 2;

#[derive(Debug, Clone, Copy, PartialEq, Eq, Structural)]
pub enum OpKind {
    Write,
    Read,
    Wipe,
    Verify,
    /// Re-hashing a slot's on-card content for `status`.
    Status,
}

impl OpKind {
    /// The verb a user reads; status hashing reads as "reading".
    pub open spec fn verb_text(self) -> Seq<char> {
        match self {
            OpKind::Write => "write"@,
            OpKind::Read => "read"@,
            OpKind::Wipe => "wipe"@,
            OpKind::Verify => "verify"@,
            OpKind::Status => "reading"@,
        }
    }

    /// The operation's name.
    pub open spec fn name_text(self) -> Seq<char> {
        match self {
            OpKind::Write => "write"@,
            OpKind::Read => "read"@,
            OpKind::Wipe => "wipe"@,
            OpKind::Verify => "verify"@,
            OpKind::Status => "status"@,
        }
    }

    /// Display verb, shared by every frontend.
    pub fn verb(self) -> (r: &'static str)
        ensures
            r@ == self.verb_text(),
    {
        match self {
            OpKind::Write => "write",
            OpKind::Read => "read",
            OpKind::Wipe => "wipe",
            OpKind::Verify => "verify",
            OpKind::Status => "reading",
        }
    }

    /// The operation's name.
    pub fn name(self) -> (r: &'static str)
        ensures
            r@ == self.name_text(),
    {
        match self {
            OpKind::Write => "write",
            OpKind::Read => "read",
            OpKind::Wipe => "wipe",
            OpKind::Verify => "verify",
            OpKind::Status => "status",
        }
    }
}

#[derive(Debug, Clone)]
pub struct PlanOp {
    pub op: OpKind,
    pub bank: String,
    pub unit: u32,
    /// Absolute device byte offset of the slot.
    pub offset: u64,
    /// Bytes that will be transferred.
    pub bytes: u64,
    pub image: Option<String>,
}

pub struct PlanOpView {
    pub op: OpKind,
    pub bank: Seq<char>,
    pub unit: u32,
    pub offset: u64,
    pub bytes: u64,
    pub image: Option<Seq<char>>,
}

impl View for PlanOp {
    type V = PlanOpView;

    open spec fn view(&self) -> PlanOpView {
        PlanOpView {
            op: self.op,
            bank: self.bank@,
            unit: self.unit,
            offset: self.offset,
            bytes: self.bytes,
            image: opt_text(self.image),
        }
    }
}

/// On-card state of a slot as reported by `status`.
#[derive(Debug, Clone, Copy, PartialEq, Eq, Structural)]
pub enum SlotState {
    /// Nothing known about this slot (no TOC record, no manifest image).
    Unknown,
    /// Content hash matches the TOC record or the manifest image.
    Matches,
    /// A TOC record exists but the on-card hash differs: the media was written
    /// since the last host write. Extract before overwriting.
    Modified,
    /// No TOC record; content differs from the manifest image.
    Differs,
    /// The slot's probed content is all zeros: a blank pack.
    Wiped,
}

#[derive(Debug, Clone)]
pub enum Event {
    /// First event of every operation.
    Plan { schema: u32, device: String, sector_size: u32, ops: Vec<PlanOp> },
    /// A pass over some set of slots is starting; `bytes` is the total the
    /// whole pass will transfer.
    PhaseStart { op: OpKind, bytes: u64 },
    SlotStart { op: OpKind, bank: String, unit: u32, bytes: u64 },
    Progress { bank: String, unit: u32, bytes_done: u64, bytes_total: u64 },
    SlotEnd { op: OpKind, bank: String, unit: u32, ok: bool, detail: Option<String> },
    SlotStatus {
        bank: String,
        unit: u32,
        state: SlotState,
        name: Option<String>,
        length: Option<u64>,
        sha256: Option<String>,
    },
    Device {
        path: String,
        model: String,
        bus: String,
        size_bytes: Option<u64>,
        removable: Option<bool>,
        system: bool,
    },
    Done { ok: bool, detail: Option<String> },
    Error { message: String },
    /// A side note that is neither a slot outcome nor an error, such as the
    /// result of an eject after a write.
    Note { message: String },
}

/// An event by its contents.
pub enum EventView {
    Plan { schema: u32, device: Seq<char>, sector_size: u32, ops: Seq<PlanOpView> },
    PhaseStart { op: OpKind, bytes: u64 },
    SlotStart { op: OpKind, bank: Seq<char>, unit: u32, bytes: u64 },
    Progress { bank: Seq<char>, unit: u32, bytes_done: u64, bytes_total: u64 },
    SlotEnd { op: OpKind, bank: Seq<char>, unit: u32, ok: bool, detail: Option<Seq<char>> },
    SlotStatus {
        bank: Seq<char>,
        unit: u32,
        state: SlotState,
        name: Option<Seq<char>>,
        length: Option<u64>,
        sha256: Option<Seq<char>>,
    },
    Device {
        path: Seq<char>,
        model: Seq<char>,
        bus: Seq<char>,
        size_bytes: Option<u64>,
        removable: Option<bool>,
        system: bool,
    },
    Done { ok: bool, detail: Option<Seq<char>> },
    Error { message: Seq<char> },
    Note { message: Seq<char> },
}

impl View for Event {
    type V = EventView;

    open spec fn view(&self) -> EventView {
        match self {
            Event::Plan { schema, device, sector_size, ops } => EventView::Plan {
                schema: *schema,
                device: device@,
                sector_size: *sector_size,
                ops: ops@.map_values(|o: PlanOp| o@),
            },
            Event::PhaseStart { op, bytes } => EventView::PhaseStart { op: *op, bytes: *bytes },
            Event::SlotStart { op, bank, unit, bytes } => EventView::SlotStart {
                op: *op,
                bank: bank@,
                unit: *unit,
                bytes: *bytes,
            },
            Event::Progress { bank, unit, bytes_done, bytes_total } => EventView::Progress {
                bank: bank@,
                unit: *unit,
                bytes_done: *bytes_done,
                bytes_total: *bytes_total,
            },
            Event::SlotEnd { op, bank, unit, ok, detail } => EventView::SlotEnd {
                op: *op,
                bank: bank@,
                unit: *unit,
                ok: *ok,
                detail: opt_text(*detail),
            },
            Event::SlotStatus { bank, unit, state, name, length, sha256 } => EventView::SlotStatus {
                bank: bank@,
                unit: *unit,
                state: *state,
                name: opt_text(*name),
                length: *length,
                sha256: opt_text(*sha256),
            },
            Event::Device { path, model, bus, size_bytes, removable, system } => EventView::Device {
                path: path@,
                model: model@,
                bus: bus@,
                size_bytes: *size_bytes,
                removable: *removable,
                system: *system,
            },
            Event::Done { ok, detail } => EventView::Done { ok: *ok, detail: opt_text(*detail) },
            Event::Error { message } => EventView::Error { message: message@ },
            Event::Note { message } => EventView::Note { message: message@ },
        }
    }
}

/// Receives events as an operation proceeds.
pub trait EventSink {
    /// What the sink has received so far, if it keeps a record.
    open spec fn record(&self) -> Option<Seq<EventView>> {
        None
    }

    fn emit(&mut self, ev: &Event)
        ensures
            old(self).record() matches Some(seen) ==> final(self).record() == Some(seen.push(ev@)),
    ;
}

/// `after` is `before` with the events `evs` received on top, for a sink that
/// keeps a record.
pub open spec fn emitted<S: EventSink>(before: &S, evs: Seq<EventView>, after: &S) -> bool {
    before.record() matches Some(seen) ==> after.record() == Some(seen + evs)
}

/// Discards everything; for callers that do not care.
pub struct NullSink;

impl EventSink for NullSink {
    open spec fn record(&self) -> Option<Seq<EventView>> {
        None
    }

    fn emit(&mut self, _ev: &Event) {
    }
}

/// Keeps every event it receives.
#[derive(Debug)]
pub struct EventLog {
    pub events: Vec<Event>,
}

impl View for EventLog {
    type V = Seq<EventView>;

    open spec fn view(&self) -> Seq<EventView> {
        self.events@.map_values(|e: Event| e@)
    }
}

impl EventLog {
    pub fn new() -> (r: EventLog)
        ensures
            r@ == Seq::<EventView>::empty(),
    {
        let r = EventLog { events: Vec::new() };
        assert(r@ =~= Seq::<EventView>::empty());
        r
    }
}

pub fn clone_event(ev: &Event) -> (r: Event)
    ensures
        r@ == ev@,
{
    match ev {
        Event::Plan { schema, device, sector_size, ops } => {
            let mut copies: Vec<PlanOp> = Vec::new();
            for i in 0..ops.len()
                invariant
                    copies@.len() == i,
                    forall|k: int| 0 <= k < i ==> (#[trigger] copies@[k])@ == ops@[k]@,
            {
                copies.push(
                    PlanOp {
                        op: ops[i].op,
                        bank: ops[i].bank.clone(),
                        unit: ops[i].unit,
                        offset: ops[i].offset,
                        bytes: ops[i].bytes,
                        image: crate::text::clone_opt(&ops[i].image),
                    },
                );
            }
            assert(copies@.map_values(|o: PlanOp| o@) =~= ops@.map_values(|o: PlanOp| o@));
            Event::Plan {
                schema: *schema,
                device: device.clone(),
                sector_size: *sector_size,
                ops: copies,
            }
        },
        Event::PhaseStart { op, bytes } => Event::PhaseStart { op: *op, bytes: *bytes },
        Event::SlotStart { op, bank, unit, bytes } => Event::SlotStart {
            op: *op,
            bank: bank.clone(),
            unit: *unit,
            bytes: *bytes,
        },
        Event::Progress { bank, unit, bytes_done, bytes_total } => Event::Progress {
            bank: bank.clone(),
            unit: *unit,
            bytes_done: *bytes_done,
            bytes_total: *bytes_total,
        },
        Event::SlotEnd { op, bank, unit, ok, detail } => Event::SlotEnd {
            op: *op,
            bank: bank.clone(),
            unit: *unit,
            ok: *ok,
            detail: crate::text::clone_opt(detail),
        },
        Event::SlotStatus { bank, unit, state, name, length, sha256 } => Event::SlotStatus {
            bank: bank.clone(),
            unit: *unit,
            state: *state,
            name: crate::text::clone_opt(name),
            length: *length,
            sha256: crate::text::clone_opt(sha256),
        },
        Event::Device { path, model, bus, size_bytes, removable, system } => Event::Device {
            path: path.clone(),
            model: model.clone(),
            bus: bus.clone(),
            size_bytes: *size_bytes,
            removable: *removable,
            system: *system,
        },
        Event::Done { ok, detail } => Event::Done {
            ok: *ok,
            detail: crate::text::clone_opt(detail),
        },
        Event::Error { message } => Event::Error { message: message.clone() },
        Event::Note { message } => Event::Note { message: message.clone() },
    }
}

impl EventSink for EventLog {
    open spec fn record(&self) -> Option<Seq<EventView>> {
        Some(self@)
    }

    fn emit(&mut self, ev: &Event) {
        let copy = clone_event(ev);
        self.events.push(copy);
        assert(self@ =~= old(self)@.push(ev@));
    }
}

/// What `emitted` says composes: two batches in a row are one batch.
pub proof fn emitted_in_a_row<S: EventSink>(
    a: &S,
    first: Seq<EventView>,
    b: &S,
    second: Seq<EventView>,
    c: &S,
)
    requires
        emitted(a, first, b),
        emitted(b, second, c),
    ensures
        emitted(a, first + second, c),
{
    if a.record() is Some {
        let seen = a.record()->0;
        assert(seen + (first + second) =~= (seen + first) + second);
    }
}

} // verus!

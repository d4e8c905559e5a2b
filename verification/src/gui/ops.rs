//! Event folding for one running operation: turns the event stream into
//! progress and aggregate state, slot-map updates, and log lines.

use vstd::prelude::*;
use vstd::string::*;

use crate::events::{Event, EventView, OpKind, SlotState};
use crate::text::{
    cat2, cat3, cat4, cat5, clone_opt, dec, dec_text, opt_text, signed_dec, signed_text, zero_pad,
    zero_padded,
};

verus! {

/// `std::time::Instant`, a point in time of the running process.
#[verifier::external_type_specification]
#[verifier::external_body]
pub struct ExInstant(std::time::Instant);

/// `Instant::now`: the current time, of which nothing is said.
#[verifier::external_body]
fn clock_now() -> (r: std::time::Instant)
{
    std::time::Instant::now()
}

/// What the slot map shows for a slot. `Written` and `Busy` are states of the
/// frontend alone. `Written`: the write succeeded but nothing has confirmed it
/// yet. `Busy`: the operation is transferring this slot right now.
#[derive(Debug, Clone, Copy, PartialEq, Eq, Structural)]
pub enum ViewState {
    Core(SlotState),
    Written,
    Busy(OpKind),
}

#[derive(Debug)]
pub struct SlotView {
    pub state: ViewState,
    pub name: Option<String>,
    pub length: Option<u64>,
}

pub struct SlotViewView {
    pub state: ViewState,
    pub name: Option<Seq<char>>,
    pub length: Option<u64>,
}

impl View for SlotView {
    type V = SlotViewView;

    open spec fn view(&self) -> SlotViewView {
        SlotViewView { state: self.state, name: opt_text(self.name), length: self.length }
    }
}

impl Clone for SlotView {
    fn clone(&self) -> (r: SlotView)
        ensures
            r == *self,
    {
        SlotView { state: self.state, name: clone_opt(&self.name), length: self.length }
    }
}

/// Live slot-map update derived from a write, verify or wipe result.
#[derive(Debug, Clone, Copy, PartialEq, Eq, Structural)]
pub enum SlotOutcome {
    SetTo { state: ViewState, length: Option<u64> },
    /// The slot was wiped; it is a blank pack again.
    Cleared,
}

/// One slot-map change folded out of the event stream.
#[derive(Debug)]
pub enum SlotUpdate {
    Status(SlotView),
    Outcome(SlotOutcome),
}

pub enum SlotUpdateView {
    Status(SlotViewView),
    Outcome(SlotOutcome),
}

impl View for SlotUpdate {
    type V = SlotUpdateView;

    open spec fn view(&self) -> SlotUpdateView {
        match self {
            SlotUpdate::Status(v) => SlotUpdateView::Status(v@),
            SlotUpdate::Outcome(o) => SlotUpdateView::Outcome(*o),
        }
    }
}

/// Only a scanned `Matches` says that the card already holds the slot's image.
pub open spec fn wants_write(state: Option<ViewState>) -> bool {
    state != Some(ViewState::Core(SlotState::Matches))
}

/// Does this slot still need a write?
pub fn needs_write(state: Option<ViewState>) -> (r: bool)
    ensures
        r == wants_write(state),
{
    match state {
        Some(s) => s != ViewState::Core(SlotState::Matches),
        None => true,
    }
}

/// `3s`, `1m 05s`, `2h 03m`.
pub open spec fn elapsed_text(total: u64) -> Seq<char> {
    if total < 60 {
        dec(total as nat) + "s"@
    } else if total < 3600 {
        dec((total / 60) as nat) + "m "@ + zero_pad(dec((total % 60) as nat), 2) + "s"@
    } else {
        dec((total / 3600) as nat) + "h "@ + zero_pad(dec((total % 3600 / 60) as nat), 2) + "m"@
    }
}

/// The elapsed-time readout of whole seconds.
pub fn format_elapsed(total: u64) -> (r: String)
    ensures
        r@ == elapsed_text(total),
{
    if total < 60 {
        let s = dec_text(total);
        cat2(&s, "s")
    } else if total < 3600 {
        let m = dec_text(total / 60);
        let s = dec_text(total % 60);
        let s2 = zero_padded(&s, 2);
        cat4(&m, "m ", &s2, "s")
    } else {
        let h = dec_text(total / 3600);
        let m = dec_text(total % 3600 / 60);
        let m2 = zero_padded(&m, 2);
        cat4(&h, "h ", &m2, "m")
    }
}

/// A message of a running operation.
#[derive(Debug)]
pub enum GuiMsg {
    Event(Event),
    /// Diagnostic for the user.
    Note(String),
    Exited(Option<i32>),
}

pub enum GuiMsgView {
    Event(EventView),
    Note(Seq<char>),
    Exited(Option<i32>),
}

impl View for GuiMsg {
    type V = GuiMsgView;

    open spec fn view(&self) -> GuiMsgView {
        match self {
            GuiMsg::Event(e) => GuiMsgView::Event(e@),
            GuiMsg::Note(n) => GuiMsgView::Note(n@),
            GuiMsg::Exited(c) => GuiMsgView::Exited(*c),
        }
    }
}

/// A pending log write. `Complete` appends its suffix to the matching line in
/// progress when that line is still the newest, and falls back to a full line
/// otherwise.
#[derive(Debug)]
pub enum LogMsg {
    New(String),
    Complete { start: String, suffix: String, fallback: String },
}

pub enum LogMsgView {
    New(Seq<char>),
    Complete { start: Seq<char>, suffix: Seq<char>, fallback: Seq<char> },
}

impl View for LogMsg {
    type V = LogMsgView;

    open spec fn view(&self) -> LogMsgView {
        match self {
            LogMsg::New(l) => LogMsgView::New(l@),
            LogMsg::Complete { start, suffix, fallback } => LogMsgView::Complete {
                start: start@,
                suffix: suffix@,
                fallback: fallback@,
            },
        }
    }
}

/// Log lines to append, and keyed slot-map updates to apply, both in arrival
/// order.
pub type FoldOutput = (Vec<LogMsg>, Vec<((String, u32), SlotUpdate)>);

pub type UpdateView = ((Seq<char>, u32), SlotUpdateView);

pub open spec fn log_views(v: Seq<LogMsg>) -> Seq<LogMsgView> {
    v.map_values(|m: LogMsg| m@)
}

pub open spec fn update_views(v: Seq<((String, u32), SlotUpdate)>) -> Seq<UpdateView> {
    v.map_values(|u: ((String, u32), SlotUpdate)| ((u.0.0@, u.0.1), u.1@))
}

/// Folds one running operation's event stream into progress and aggregate
/// state.
#[derive(Debug)]
pub struct OpFold {
    /// (bank, unit, done, total) for the slot currently transferring.
    pub progress: Option<(String, u32, u64, u64)>,
    /// Verb for the progress bar from the last `SlotStart`, since one operation
    /// can span phases.
    pub verb: String,
    /// Any event has arrived: the operation is running.
    pub saw_event: bool,
    /// Total bytes across the current pass, from its `PhaseStart`.
    pub agg_total: Option<u64>,
    /// Bytes of the completed slots in the current pass.
    pub agg_done: u64,
    /// The kind of operation that the aggregate measures.
    pub agg_kind: Option<OpKind>,
    /// When the current pass's `PhaseStart` arrived.
    pub phase_started_at: Option<std::time::Instant>,
    /// The user asked to terminate this operation.
    pub cancel_requested: bool,
    pub finished: bool,
    pub exit_code: Option<i32>,
}

pub struct OpFoldView {
    pub progress: Option<(Seq<char>, u32, u64, u64)>,
    pub verb: Seq<char>,
    pub saw_event: bool,
    pub agg_total: Option<u64>,
    pub agg_done: u64,
    pub agg_kind: Option<OpKind>,
    pub phase_started: bool,
    pub cancel_requested: bool,
    pub finished: bool,
    pub exit_code: Option<i32>,
}

impl View for OpFold {
    type V = OpFoldView;

    open spec fn view(&self) -> OpFoldView {
        OpFoldView {
            progress: match self.progress {
                Some(p) => Some((p.0@, p.1, p.2, p.3)),
                None => None,
            },
            verb: self.verb@,
            saw_event: self.saw_event,
            agg_total: self.agg_total,
            agg_done: self.agg_done,
            agg_kind: self.agg_kind,
            phase_started: self.phase_started_at is Some,
            cancel_requested: self.cancel_requested,
            finished: self.finished,
            exit_code: self.exit_code,
        }
    }
}

/// `write rl:0`.
pub open spec fn op_slot(kind: OpKind, bank: Seq<char>, unit: u32) -> Seq<char> {
    kind.name_text() + " "@ + bank + ":"@ + dec(unit as nat)
}

/// The transfer length of a slot, while its progress is on show.
pub open spec fn shown_length(
    progress: Option<(Seq<char>, u32, u64, u64)>,
    bank: Seq<char>,
    unit: u32,
) -> Option<u64> {
    match progress {
        Some(p) => if p.0 == bank && p.1 == unit {
            Some(p.3)
        } else {
            None
        },
        None => None,
    }
}

/// What the end of a slot's transfer says of it. A successful write shows as
/// written; only a successful verify upgrades it to matching; a failure of
/// either marks the slot differing.
pub open spec fn end_update(kind: OpKind, ok: bool, length: Option<u64>) -> Option<SlotOutcome> {
    match kind {
        OpKind::Write => Some(
            SlotOutcome::SetTo {
                state: if ok {
                    ViewState::Written
                } else {
                    ViewState::Core(SlotState::Differs)
                },
                length,
            },
        ),
        OpKind::Verify => Some(
            SlotOutcome::SetTo {
                state: ViewState::Core(
                    if ok {
                        SlotState::Matches
                    } else {
                        SlotState::Differs
                    },
                ),
                length,
            },
        ),
        OpKind::Wipe => if ok {
            Some(SlotOutcome::Cleared)
        } else {
            None
        },
        _ => None,
    }
}

pub open spec fn end_text(ok: bool, detail: Option<Seq<char>>) -> Seq<char> {
    if ok {
        "Ok."@
    } else {
        match detail {
            Some(d) => "FAILED: "@ + d,
            None => "FAILED"@,
        }
    }
}

/// The state after an event.
pub open spec fn folded(s: OpFoldView, ev: EventView) -> OpFoldView {
    let s = OpFoldView { saw_event: true, ..s };
    match ev {
        EventView::PhaseStart { op, bytes } => OpFoldView {
            agg_total: Some(bytes),
            agg_done: 0,
            agg_kind: Some(op),
            phase_started: true,
            ..s
        },
        EventView::Progress { bank, unit, bytes_done, bytes_total } => OpFoldView {
            progress: Some((bank, unit, bytes_done, bytes_total)),
            ..s
        },
        EventView::SlotStart { op, bank, unit, bytes } => OpFoldView {
            progress: Some((bank, unit, 0, bytes)),
            verb: op.verb_text(),
            ..s
        },
        EventView::SlotEnd { op, bank, unit, ok, detail } => OpFoldView {
            agg_done: if s.agg_kind == Some(op) && shown_length(s.progress, bank, unit) is Some {
                (s.agg_done + shown_length(s.progress, bank, unit)->0) as u64
            } else {
                s.agg_done
            },
            progress: None,
            ..s
        },
        _ => s,
    }
}

/// The log lines of an event.
pub open spec fn event_lines(ev: EventView) -> Seq<LogMsgView> {
    match ev {
        EventView::SlotStart { op, bank, unit, bytes } => if op == OpKind::Status {
            Seq::empty()
        } else {
            seq![LogMsgView::New(op_slot(op, bank, unit) + "…"@)]
        },
        EventView::SlotEnd { op, bank, unit, ok, detail } => if op == OpKind::Status {
            Seq::empty()
        } else {
            seq![
                (LogMsgView::Complete {
                    start: op_slot(op, bank, unit) + "…"@,
                    suffix: " "@ + end_text(ok, detail),
                    fallback: op_slot(op, bank, unit) + " "@ + end_text(ok, detail),
                }),
            ]
        },
        EventView::Error { message } => seq![LogMsgView::New("error: "@ + message)],
        EventView::Note { message } => seq![LogMsgView::New(message)],
        EventView::Done { ok, detail } => seq![
            LogMsgView::New(
                match detail {
                    Some(d) => (if ok {
                        "done"@
                    } else {
                        "failed"@
                    }) + ": "@ + d,
                    None => if ok {
                        "done"@
                    } else {
                        "failed"@
                    },
                },
            ),
        ],
        _ => Seq::empty(),
    }
}

/// The slot-map updates of an event, in a state.
pub open spec fn event_updates(s: OpFoldView, ev: EventView) -> Seq<UpdateView> {
    match ev {
        EventView::SlotStart { op, bank, unit, bytes } => if op == OpKind::Write || op
            == OpKind::Wipe || op == OpKind::Verify {
            seq![
                (
                    (bank, unit),
                    SlotUpdateView::Outcome(
                        SlotOutcome::SetTo { state: ViewState::Busy(op), length: None },
                    ),
                ),
            ]
        } else {
            Seq::empty()
        },
        EventView::SlotEnd { op, bank, unit, ok, detail } => match end_update(
            op,
            ok,
            shown_length(s.progress, bank, unit),
        ) {
            Some(o) => seq![((bank, unit), SlotUpdateView::Outcome(o))],
            None => Seq::empty(),
        },
        EventView::SlotStatus { bank, unit, state, name, length, sha256 } => seq![
            (
                (bank, unit),
                SlotUpdateView::Status(
                    SlotViewView { state: ViewState::Core(state), name, length },
                ),
            ),
        ],
        _ => Seq::empty(),
    }
}

pub open spec fn code_text(code: Option<i32>) -> Seq<char> {
    match code {
        Some(n) => "Some("@ + signed_dec(n as int) + ")"@,
        None => "None"@,
    }
}

/// The state after a message.
pub open spec fn applied(s: OpFoldView, msg: GuiMsgView) -> OpFoldView {
    match msg {
        GuiMsgView::Event(ev) => folded(s, ev),
        GuiMsgView::Note(_) => s,
        GuiMsgView::Exited(code) => OpFoldView {
            finished: true,
            exit_code: code,
            progress: None,
            ..s
        },
    }
}

/// The log lines of a message, in a state.
pub open spec fn message_lines(s: OpFoldView, msg: GuiMsgView) -> Seq<LogMsgView> {
    match msg {
        GuiMsgView::Event(ev) => event_lines(ev),
        GuiMsgView::Note(n) => seq![LogMsgView::New(n)],
        GuiMsgView::Exited(code) => if s.cancel_requested {
            seq![
                LogMsgView::New(
                    "operation canceled — slot contents may be partial; run Refresh status to re-check"@,
                ),
            ]
        } else if code != Some(0i32) {
            seq![LogMsgView::New("CLI exited with "@ + code_text(code))]
        } else {
            Seq::empty()
        },
    }
}

pub open spec fn message_updates(s: OpFoldView, msg: GuiMsgView) -> Seq<UpdateView> {
    match msg {
        GuiMsgView::Event(ev) => event_updates(s, ev),
        _ => Seq::empty(),
    }
}

/// The aggregate stays within 64 bits when the message is folded.
pub open spec fn aggregate_fits(s: OpFoldView, msg: GuiMsgView) -> bool {
    msg matches GuiMsgView::Event(EventView::SlotEnd { op, bank, unit, .. }) ==> s.agg_kind
        == Some(op) ==> (shown_length(s.progress, bank, unit) matches Some(n) ==> s.agg_done + n
        <= u64::MAX)
}

/// A message that begins a pass, and with it the pass's clock.
pub open spec fn starts_phase(msg: GuiMsgView) -> bool {
    msg matches GuiMsgView::Event(EventView::PhaseStart { .. })
}

fn op_slot_text(kind: OpKind, bank: &str, unit: u32) -> (r: String)
    ensures
        r@ == op_slot(kind, bank@, unit),
{
    let u = dec_text(unit as u64);
    cat5(kind.name(), " ", bank, ":", &u)
}

fn one_line(line: String) -> (r: Vec<LogMsg>)
    ensures
        log_views(r@) == seq![LogMsgView::New(line@)],
{
    let mut v: Vec<LogMsg> = Vec::new();
    let ghost t = line@;
    v.push(LogMsg::New(line));
    assert(log_views(v@) =~= seq![LogMsgView::New(t)]);
    v
}

fn no_lines() -> (r: Vec<LogMsg>)
    ensures
        log_views(r@) == Seq::<LogMsgView>::empty(),
{
    let v: Vec<LogMsg> = Vec::new();
    assert(log_views(v@) =~= Seq::<LogMsgView>::empty());
    v
}

fn no_updates() -> (r: Vec<((String, u32), SlotUpdate)>)
    ensures
        update_views(r@) == Seq::<UpdateView>::empty(),
{
    let v: Vec<((String, u32), SlotUpdate)> = Vec::new();
    assert(update_views(v@) =~= Seq::<UpdateView>::empty());
    v
}

fn one_update(bank: String, unit: u32, update: SlotUpdate) -> (r: Vec<((String, u32), SlotUpdate)>)
    ensures
        update_views(r@) == seq![((bank@, unit), update@)],
{
    let mut v: Vec<((String, u32), SlotUpdate)> = Vec::new();
    let ghost b = bank@;
    let ghost u = update@;
    v.push(((bank, unit), update));
    assert(update_views(v@) =~= seq![((b, unit), u)]);
    v
}

impl OpFold {
    pub fn new(label: &str) -> (r: OpFold)
        ensures
            r@ == (OpFoldView {
                progress: None,
                verb: label@,
                saw_event: false,
                agg_total: None,
                agg_done: 0,
                agg_kind: None,
                phase_started: false,
                cancel_requested: false,
                finished: false,
                exit_code: None,
            }),
    {
        OpFold {
            progress: None,
            verb: label.to_owned(),
            saw_event: false,
            agg_total: None,
            agg_done: 0,
            agg_kind: None,
            phase_started_at: None,
            cancel_requested: false,
            finished: false,
            exit_code: None,
        }
    }

    pub fn request_cancel(&mut self)
        ensures
            final(self)@ == (OpFoldView { cancel_requested: true, ..old(self)@ }),
            final(self).phase_started_at == old(self).phase_started_at,
    {
        self.cancel_requested = true;
    }

    /// Fold one message of the running operation. Returns log lines to append
    /// and slot-map updates to apply, in arrival order.
    pub fn apply(&mut self, msg: GuiMsg) -> (r: FoldOutput)
        requires
            aggregate_fits(old(self)@, msg@),
        ensures
            final(self)@ == applied(old(self)@, msg@),
            log_views(r.0@) == message_lines(old(self)@, msg@),
            update_views(r.1@) == message_updates(old(self)@, msg@),
            !starts_phase(msg@) ==> final(self).phase_started_at == old(self).phase_started_at,
    {
        match msg {
            GuiMsg::Event(ev) => {
                self.saw_event = true;
                self.apply_event(ev)
            },
            GuiMsg::Note(n) => (one_line(n), no_updates()),
            GuiMsg::Exited(code) => {
                self.finished = true;
                self.exit_code = code;
                self.progress = None;
                let lines = if self.cancel_requested {
                    one_line(
                        "operation canceled — slot contents may be partial; run Refresh status to re-check".to_owned(),
                    )
                } else {
                    match code {
                        Some(n) => if n != 0 {
                            let d = signed_text(n);
                            let c = cat3("Some(", &d, ")");
                            one_line(cat2("CLI exited with ", &c))
                        } else {
                            no_lines()
                        },
                        None => one_line(cat2("CLI exited with ", "None")),
                    }
                };
                (lines, no_updates())
            },
        }
    }

    fn apply_event(&mut self, ev: Event) -> (r: FoldOutput)
        requires
            old(self).saw_event,
            aggregate_fits(old(self)@, GuiMsgView::Event(ev@)),
        ensures
            final(self)@ == folded(old(self)@, ev@),
            log_views(r.0@) == event_lines(ev@),
            update_views(r.1@) == event_updates(old(self)@, ev@),
            !(ev@ is PhaseStart) ==> final(self).phase_started_at == old(self).phase_started_at,
    {
        match ev {
            // Announces the byte total of a whole pass: the bar switches to
            // aggregate progress over it.
            Event::PhaseStart { op, bytes } => {
                self.agg_total = Some(bytes);
                self.agg_done = 0;
                self.agg_kind = Some(op);
                self.phase_started_at = Some(clock_now());
                (no_lines(), no_updates())
            },
            Event::Progress { bank, unit, bytes_done, bytes_total } => {
                self.progress = Some((bank, unit, bytes_done, bytes_total));
                (no_lines(), no_updates())
            },
            Event::SlotStart { op, bank, unit, bytes } => {
                self.progress = Some((bank.clone(), unit, 0, bytes));
                self.verb = op.verb().to_owned();
                // Status announces every slot; the bar shows it.
                let lines = if op != OpKind::Status {
                    let t = op_slot_text(op, &bank, unit);
                    one_line(cat2(&t, "…"))
                } else {
                    no_lines()
                };
                // The slot row shows what is happening to it right now.
                let updates = if op == OpKind::Write || op == OpKind::Wipe || op == OpKind::Verify {
                    one_update(
                        bank,
                        unit,
                        SlotUpdate::Outcome(
                            SlotOutcome::SetTo { state: ViewState::Busy(op), length: None },
                        ),
                    )
                } else {
                    no_updates()
                };
                (lines, updates)
            },
            Event::SlotEnd { op, bank, unit, ok, detail } => {
                // The slot's transfer length, from the progress being cleared.
                let length = match &self.progress {
                    Some(p) => if p.0 == bank && p.1 == unit {
                        Some(p.3)
                    } else {
                        None
                    },
                    None => None,
                };
                let measured = match self.agg_kind {
                    Some(k) => k == op,
                    None => false,
                };
                if measured {
                    if let Some(n) = length {
                        self.agg_done = self.agg_done + n;
                    }
                }
                self.progress = None;
                let lines = if op != OpKind::Status {
                    let outcome = if ok {
                        "Ok.".to_owned()
                    } else {
                        match &detail {
                            Some(d) => cat2("FAILED: ", d),
                            None => "FAILED".to_owned(),
                        }
                    };
                    let t = op_slot_text(op, &bank, unit);
                    let start = cat2(&t, "…");
                    let suffix = cat2(" ", &outcome);
                    let fallback = cat3(&t, " ", &outcome);
                    let mut v: Vec<LogMsg> = Vec::new();
                    v.push(LogMsg::Complete { start, suffix, fallback });
                    assert(log_views(v@) =~= event_lines(ev@));
                    v
                } else {
                    no_lines()
                };
                let outcome = match op {
                    OpKind::Write => Some(
                        SlotOutcome::SetTo {
                            state: if ok {
                                ViewState::Written
                            } else {
                                ViewState::Core(SlotState::Differs)
                            },
                            length,
                        },
                    ),
                    OpKind::Verify => Some(
                        SlotOutcome::SetTo {
                            state: ViewState::Core(
                                if ok {
                                    SlotState::Matches
                                } else {
                                    SlotState::Differs
                                },
                            ),
                            length,
                        },
                    ),
                    OpKind::Wipe => if ok {
                        Some(SlotOutcome::Cleared)
                    } else {
                        None
                    },
                    _ => None,
                };
                let updates = match outcome {
                    Some(o) => one_update(bank, unit, SlotUpdate::Outcome(o)),
                    None => no_updates(),
                };
                (lines, updates)
            },
            Event::SlotStatus { bank, unit, state, name, length, .. } => (
                no_lines(),
                one_update(
                    bank,
                    unit,
                    SlotUpdate::Status(SlotView { state: ViewState::Core(state), name, length }),
                ),
            ),
            Event::Error { message } => (one_line(cat2("error: ", &message)), no_updates()),
            Event::Note { message } => (one_line(message), no_updates()),
            Event::Done { ok, detail } => {
                let word = if ok {
                    "done"
                } else {
                    "failed"
                };
                let line = match &detail {
                    Some(d) => cat3(word, ": ", d),
                    None => word.to_owned(),
                };
                (one_line(line), no_updates())
            },
            Event::Plan { .. } => (no_lines(), no_updates()),
            Event::Device { .. } => (no_lines(), no_updates()),
        }
    }
}

} // verus!

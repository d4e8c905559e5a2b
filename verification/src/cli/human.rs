//! Progress for people: one bar per pass, lines for what ends, a table row for
//! each scanned slot.

use vstd::prelude::*;
use vstd::string::*;

use crate::events::{Event, EventView, OpKind, SlotState};
use crate::layout::{slot_label, slot_name};
use crate::text::{
    align_left, align_right, cat2, cat3, cat4, cat5, dec, dec_text, left_in, right_in,
};
use crate::units::{bytes_text, format_bytes};

verus! {

/// What to do with the bar and the terminal.
#[derive(Debug)]
pub enum Show {
    /// A bar over that many bytes; it replaces the one before.
    NewBar(u64),
    /// Take the bar away.
    Close,
    /// The bar's message.
    Message(String),
    /// The bar's position.
    Position(u64),
    /// A line on standard error, the bar out of its way.
    Said(String),
    /// A line on standard output, the bar out of its way.
    Row(String),
}

pub enum ShowView {
    NewBar(u64),
    Close,
    Message(Seq<char>),
    Position(u64),
    Said(Seq<char>),
    Row(Seq<char>),
}

impl View for Show {
    type V = ShowView;

    open spec fn view(&self) -> ShowView {
        match self {
            Show::NewBar(n) => ShowView::NewBar(*n),
            Show::Close => ShowView::Close,
            Show::Message(m) => ShowView::Message(m@),
            Show::Position(n) => ShowView::Position(*n),
            Show::Said(l) => ShowView::Said(l@),
            Show::Row(l) => ShowView::Row(l@),
        }
    }
}

pub open spec fn show_views(v: Seq<Show>) -> Seq<ShowView> {
    v.map_values(|s: Show| s@)
}

/// How far the current pass has come.
#[derive(Debug, Clone, Copy, PartialEq, Eq, Structural)]
pub struct HumanFold {
    /// A bar is on show.
    pub bar: bool,
    /// Bytes of the slots that ended earlier in the current pass.
    pub phase_done: u64,
    /// Bytes of the slot in progress.
    pub slot_len: u64,
}

/// What a slot's state is called in a status table.
pub open spec fn state_name(state: SlotState) -> Seq<char> {
    match state {
        SlotState::Matches => "matches"@,
        SlotState::Modified => "MODIFIED (extract before overwriting!)"@,
        SlotState::Differs => "differs from manifest image"@,
        SlotState::Wiped => "wiped (all zeros)"@,
        SlotState::Unknown => "-"@,
    }
}

/// What a slot's state is called in a status table.
pub fn state_str(state: SlotState) -> (r: &'static str)
    ensures
        r@ == state_name(state),
{
    match state {
        SlotState::Matches => "matches",
        SlotState::Modified => "MODIFIED (extract before overwriting!)",
        SlotState::Differs => "differs from manifest image",
        SlotState::Wiped => "wiped (all zeros)",
        SlotState::Unknown => "-",
    }
}

/// The line that ends a slot.
pub open spec fn end_line(
    op: OpKind,
    bank: Seq<char>,
    unit: u32,
    ok: bool,
    detail: Option<Seq<char>>,
) -> Seq<char> {
    op.name_text() + " "@ + slot_name((bank, unit)) + (if ok {
        " ok"@
    } else {
        match detail {
            Some(d) => " FAILED: "@ + d,
            None => " FAILED"@,
        }
    })
}

/// A slot's row of a status table.
pub open spec fn status_row(
    bank: Seq<char>,
    unit: u32,
    state: SlotState,
    name: Option<Seq<char>>,
    length: Option<u64>,
) -> Seq<char> {
    let n = dec(unit as nat);
    "  ["@ + right_in(n, 2) + "] "@ + bank + ":"@ + left_in(n, 3) + " "@ + left_in(
        match name {
            Some(x) => x,
            None => "(unnamed)"@,
        },
        24,
    ) + " "@ + left_in(state_name(state), 40) + " "@ + (match length {
        Some(l) => bytes_text(l),
        None => ""@,
    })
}

/// The last line of a command.
pub open spec fn done_line(ok: bool, detail: Option<Seq<char>>) -> Seq<char> {
    let word = if ok {
        "done"@
    } else {
        "failed"@
    };
    match detail {
        Some(d) => word + ": "@ + d,
        None => word,
    }
}

pub open spec fn if_bar(bar: bool, show: ShowView) -> Seq<ShowView> {
    if bar {
        seq![show]
    } else {
        Seq::empty()
    }
}

impl HumanFold {
    /// The state after an event.
    pub open spec fn after(self, ev: EventView) -> HumanFold {
        match ev {
            EventView::PhaseStart { .. } => HumanFold { bar: true, phase_done: 0, slot_len: 0 },
            EventView::SlotStart { bytes, .. } => HumanFold { slot_len: bytes, ..self },
            EventView::SlotEnd { .. } => HumanFold {
                phase_done: (self.phase_done + self.slot_len) as u64,
                ..self
            },
            EventView::Done { .. } => HumanFold { bar: false, ..self },
            EventView::Error { .. } => HumanFold { bar: false, ..self },
            _ => self,
        }
    }

    /// What an event shows. The scan's outcome is its row, so its slots end
    /// without a line.
    pub open spec fn shows(self, ev: EventView) -> Seq<ShowView> {
        match ev {
            EventView::PhaseStart { bytes, .. } => if_bar(self.bar, ShowView::Close)
                + seq![ShowView::NewBar(bytes)],
            EventView::SlotStart { op, bank, unit, .. } => if self.bar {
                seq![
                    ShowView::Message(op.verb_text() + " "@ + slot_name((bank, unit))),
                    ShowView::Position(self.phase_done),
                ]
            } else {
                Seq::empty()
            },
            EventView::Progress { bytes_done, .. } => if_bar(
                self.bar,
                ShowView::Position((self.phase_done + bytes_done) as u64),
            ),
            EventView::SlotEnd { op, bank, unit, ok, detail } => if_bar(
                self.bar,
                ShowView::Position((self.phase_done + self.slot_len) as u64),
            ) + (if op != OpKind::Status {
                seq![ShowView::Said(end_line(op, bank, unit, ok, detail))]
            } else {
                Seq::empty()
            }),
            EventView::SlotStatus { bank, unit, state, name, length, .. } => seq![
                ShowView::Row(status_row(bank, unit, state, name, length)),
            ],
            EventView::Done { ok, detail } => if_bar(self.bar, ShowView::Close) + seq![
                ShowView::Said(done_line(ok, detail)),
            ],
            EventView::Error { message } => if_bar(self.bar, ShowView::Close) + seq![
                ShowView::Said("error: "@ + message),
            ],
            EventView::Note { message } => seq![ShowView::Said(message)],
            EventView::Plan { .. } => Seq::empty(),
            EventView::Device { .. } => Seq::empty(),
        }
    }

    /// Positions stay within 64 bits.
    pub open spec fn fits(self, ev: EventView) -> bool {
        match ev {
            EventView::SlotEnd { .. } => self.phase_done + self.slot_len <= u64::MAX,
            EventView::Progress { bytes_done, .. } => self.bar ==> self.phase_done + bytes_done
                <= u64::MAX,
            _ => true,
        }
    }

    pub fn new() -> (r: HumanFold)
        ensures
            r == (HumanFold { bar: false, phase_done: 0, slot_len: 0 }),
    {
        HumanFold { bar: false, phase_done: 0, slot_len: 0 }
    }

    /// Do positions stay within 64 bits?
    pub fn takes(&self, ev: &Event) -> (r: bool)
        ensures
            r == self.fits(ev@),
    {
        match ev {
            Event::SlotEnd { .. } => self.slot_len <= u64::MAX - self.phase_done,
            Event::Progress { bytes_done, .. } => !self.bar || *bytes_done <= u64::MAX
                - self.phase_done,
            _ => true,
        }
    }

    fn close(&mut self, out: &mut Vec<Show>)
        ensures
            *final(self) == (HumanFold { bar: false, ..*old(self) }),
            show_views(final(out)@) == show_views(old(out)@) + if_bar(
                old(self).bar,
                ShowView::Close,
            ),
    {
        if self.bar {
            out.push(Show::Close);
        }
        self.bar = false;
        assert(show_views(out@) =~= show_views(old(out)@) + if_bar(old(self).bar, ShowView::Close));
    }

    /// Take in an event. Returns what to show.
    pub fn apply(&mut self, ev: &Event) -> (r: Vec<Show>)
        requires
            old(self).fits(ev@),
        ensures
            *final(self) == old(self).after(ev@),
            show_views(r@) == old(self).shows(ev@),
    {
        let mut out: Vec<Show> = Vec::new();
        assert(show_views(out@) =~= Seq::<ShowView>::empty());
        match ev {
            Event::PhaseStart { bytes, .. } => {
                self.close(&mut out);
                out.push(Show::NewBar(*bytes));
                self.bar = true;
                self.phase_done = 0;
                self.slot_len = 0;
            },
            Event::SlotStart { op, bank, unit, bytes } => {
                self.slot_len = *bytes;
                if self.bar {
                    let slot = slot_label(bank, *unit);
                    out.push(Show::Message(cat3(op.verb(), " ", &slot)));
                    out.push(Show::Position(self.phase_done));
                }
            },
            Event::Progress { bytes_done, .. } => {
                if self.bar {
                    out.push(Show::Position(self.phase_done + *bytes_done));
                }
            },
            Event::SlotEnd { op, bank, unit, ok, detail } => {
                self.phase_done = self.phase_done + self.slot_len;
                if self.bar {
                    out.push(Show::Position(self.phase_done));
                }
                if *op != OpKind::Status {
                    let slot = slot_label(bank, *unit);
                    let tail = if *ok {
                        " ok".to_owned()
                    } else {
                        match detail {
                            Some(d) => cat2(" FAILED: ", d),
                            None => " FAILED".to_owned(),
                        }
                    };
                    out.push(Show::Said(cat4(op.name(), " ", &slot, &tail)));
                }
            },
            Event::SlotStatus { bank, unit, state, name, length, .. } => {
                let n = dec_text(*unit as u64);
                let a = align_right(&n, 2);
                let b = align_left(&n, 3);
                let name = match name {
                    Some(x) => align_left(x, 24),
                    None => align_left("(unnamed)", 24),
                };
                let state = align_left(state_str(*state), 40);
                let len = match length {
                    Some(l) => format_bytes(*l),
                    None => "".to_owned(),
                };
                let head = cat5("  [", &a, "] ", bank, ":");
                let mid = cat5(&head, &b, " ", &name, " ");
                out.push(Show::Row(cat4(&mid, &state, " ", &len)));
            },
            Event::Done { ok, detail } => {
                self.close(&mut out);
                let word = if *ok {
                    "done"
                } else {
                    "failed"
                };
                let line = match detail {
                    Some(d) => cat3(word, ": ", d),
                    None => word.to_owned(),
                };
                out.push(Show::Said(line));
            },
            Event::Error { message } => {
                self.close(&mut out);
                out.push(Show::Said(cat2("error: ", message)));
            },
            Event::Note { message } => {
                out.push(Show::Said(message.clone()));
            },
            Event::Plan { .. } => {},
            Event::Device { .. } => {},
        }
        assert(show_views(out@) =~= old(self).shows(ev@));
        out
    }
}

} // verus!

//! What the lists, rows, buttons and the progress bar say.

use vstd::prelude::*;
use vstd::string::*;

use crate::engine::plan::{ImageFact, ImageFacts};
use crate::events::{OpKind, SlotState};
use crate::gui::card::Tone;
use crate::gui::devices::{DeviceEntry, DeviceEntryView};
use crate::gui::ops::{
    elapsed_text, format_elapsed, OpFold, OpFoldView, SlotView, SlotViewView, ViewState,
};
use crate::gui::options::Options;
use crate::layout::{Bank, BankView};
use crate::text::{cat2, cat3, cat4, cat5, dec, dec_text, opt_text};
use crate::units::{bytes_text, format_bytes};

verus! {

/// The badge of a slot's state; an unknown slot has none.
pub open spec fn state_text(state: ViewState) -> Seq<char> {
    match state {
        ViewState::Busy(OpKind::Write) => "writing…"@,
        ViewState::Busy(OpKind::Verify) => "verifying…"@,
        ViewState::Busy(OpKind::Wipe) => "wiping…"@,
        ViewState::Busy(OpKind::Read) => "reading…"@,
        ViewState::Busy(OpKind::Status) => "reading…"@,
        ViewState::Written => "written"@,
        ViewState::Core(SlotState::Matches) => "✔ matches"@,
        ViewState::Core(SlotState::Modified) => "⚠ modified"@,
        ViewState::Core(SlotState::Differs) => "≠ differs"@,
        ViewState::Core(SlotState::Wiped) => "wiped"@,
        ViewState::Core(SlotState::Unknown) => ""@,
    }
}

pub open spec fn state_tone(state: ViewState) -> Tone {
    match state {
        ViewState::Busy(_) => Tone::Teal,
        ViewState::Written => Tone::Teal,
        ViewState::Core(SlotState::Matches) => Tone::Green,
        ViewState::Core(SlotState::Modified) => Tone::Orange,
        ViewState::Core(SlotState::Differs) => Tone::Orange,
        ViewState::Core(SlotState::Wiped) => Tone::Dim,
        ViewState::Core(SlotState::Unknown) => Tone::Dim,
    }
}

/// The badge of a slot's state and its color.
pub fn state_label(state: ViewState) -> (r: (&'static str, Tone))
    ensures
        r.0@ == state_text(state),
        r.1 == state_tone(state),
{
    match state {
        ViewState::Busy(kind) => match kind {
            OpKind::Write => ("writing…", Tone::Teal),
            OpKind::Verify => ("verifying…", Tone::Teal),
            OpKind::Wipe => ("wiping…", Tone::Teal),
            OpKind::Read => ("reading…", Tone::Teal),
            OpKind::Status => ("reading…", Tone::Teal),
        },
        ViewState::Written => ("written", Tone::Teal),
        ViewState::Core(s) => match s {
            SlotState::Matches => ("✔ matches", Tone::Green),
            SlotState::Modified => ("⚠ modified", Tone::Orange),
            SlotState::Differs => ("≠ differs", Tone::Orange),
            SlotState::Wiped => ("wiped", Tone::Dim),
            SlotState::Unknown => ("", Tone::Dim),
        },
    }
}

/// The status cell of a row: its badge, or a mark while a scan has not come to
/// it yet, or nothing.
pub open spec fn status_text(shown: Option<SlotViewView>, scanning: bool) -> (Seq<char>, Tone) {
    match shown {
        Some(v) => (state_text(v.state), state_tone(v.state)),
        None => (if scanning {
            "…"@
        } else {
            ""@
        }, Tone::Dim),
    }
}

/// The status cell of a row.
pub fn status_cell(shown: Option<&SlotView>, scanning: bool) -> (r: (&'static str, Tone))
    ensures
        (r.0@, r.1) == status_text(
            match shown {
                Some(v) => Some(v@),
                None => None,
            },
            scanning,
        ),
{
    match shown {
        Some(v) => state_label(v.state),
        None => if scanning {
            ("…", Tone::Dim)
        } else {
            ("", Tone::Dim)
        },
    }
}

/// The name of a row: what the card records, else what the manifest gives.
pub fn row_name(shown: Option<&SlotView>, bank: &Bank, unit: u32) -> (r: Option<String>)
    ensures
        opt_text(r) == (match shown {
            Some(v) => if v@.name is Some {
                v@.name
            } else {
                bank@.name_of(unit)
            },
            None => bank@.name_of(unit),
        }),
{
    match shown {
        Some(v) => match &v.name {
            Some(n) => Some(n.clone()),
            None => bank.slot_name(unit),
        },
        None => bank.slot_name(unit),
    }
}

/// `RL02 · 4 slots × 16 MiB`.
pub open spec fn bank_text(b: BankView) -> Seq<char> {
    (match b.drive_type {
        Some(t) => t.name + " · "@,
        None => ""@,
    }) + dec(b.units as nat) + " slots × "@ + bytes_text(b.slot_size)
}

/// What a bank's heading adds to its name.
pub fn bank_note(bank: &Bank) -> (r: String)
    ensures
        r@ == bank_text(bank@),
{
    let kind = match &bank.drive_type {
        Some(t) => cat2(&t.name, " · "),
        None => "".to_owned(),
    };
    let units = dec_text(bank.units as u64);
    let size = format_bytes(bank.slot_size);
    cat4(&kind, &units, " slots × ", &size)
}

/// The image of a slot that is named but is no file on disk: its Write button
/// is disabled.
pub fn missing_image(bank: &Bank, unit: u32, facts: &ImageFacts) -> (r: Option<String>)
    ensures
        opt_text(r) == (match bank@.image_of(unit) {
            Some(path) => if facts.fact(path) is File {
                None
            } else {
                Some(path)
            },
            None => None,
        }),
{
    match bank.image_path(unit) {
        Some(path) => match facts.of(&path) {
            ImageFact::File(_) => None,
            _ => Some(path),
        },
        None => None,
    }
}

/// May operations on the card start?
pub fn ready_for_ops(busy: bool, has_layout: bool, has_target: bool) -> (r: bool)
    ensures
        r == (!busy && has_layout && has_target),
{
    !busy && has_layout && has_target
}

/// A device's entry in the selector: its label, and why it cannot be chosen.
/// Devices without media are listed only where all are asked for.
pub open spec fn device_text(d: DeviceEntryView, options: Options) -> Option<(Seq<char>, bool)> {
    if !d.has_media() && !options.show_all {
        None
    } else if d.selectable(options.advanced) || d.block_reason() == ""@ {
        Some((d.label(), d.selectable(options.advanced)))
    } else {
        Some((d.label() + "  ("@ + d.block_reason() + ")"@, false))
    }
}

/// A device's entry in the selector, and whether it can be chosen.
pub fn device_row(d: &DeviceEntry, options: &Options) -> (r: Option<(String, bool)>)
    ensures
        (match r {
            Some(x) => Some((x.0@, x.1)),
            None => None,
        }) == device_text(d@, *options),
{
    if !d.has_media() && !options.show_all {
        return None;
    }
    let label = d.label();
    let selectable = d.selectable(options.advanced);
    let reason = d.block_reason();
    if selectable || crate::text::same_text(reason, "") {
        Some((label, selectable))
    } else {
        Some((cat4(&label, "  (", reason, ")"), false))
    }
}

// ---------------------------------------------------------------------------
// Progress bar
// ---------------------------------------------------------------------------

/// Bytes done and to do: over the whole pass where its total is known, over the
/// slot otherwise. Nothing once the operation has finished.
pub open spec fn bar_bytes(s: OpFoldView) -> Option<(int, int)> {
    match s.progress {
        Some((_, _, done, total)) => match s.agg_total {
            Some(t) => if t > 0 {
                Some((s.agg_done + done, t as int))
            } else {
                Some((done as int, total as int))
            },
            None => Some((done as int, total as int)),
        },
        None => if s.finished {
            None
        } else if s.saw_event && (s.agg_total matches Some(t) && t > 0) {
            Some((s.agg_done as int, s.agg_total->0 as int))
        } else {
            Some((0, 0))
        },
    }
}

/// Bytes done and to do, for the fraction of the bar.
pub fn bar_counts(fold: &OpFold) -> (r: Option<(u64, u64)>)
    requires
        bar_bytes(fold@) matches Some(x) ==> x.0 <= u64::MAX,
    ensures
        (match r {
            Some(x) => Some((x.0 as int, x.1 as int)),
            None => None,
        }) == bar_bytes(fold@),
{
    match &fold.progress {
        Some(p) => match fold.agg_total {
            Some(t) => if t > 0 {
                Some((fold.agg_done + p.2, t))
            } else {
                Some((p.2, p.3))
            },
            None => Some((p.2, p.3)),
        },
        None => {
            if fold.finished {
                return None;
            }
            match fold.agg_total {
                Some(t) => if fold.saw_event && t > 0 {
                    Some((fold.agg_done, t))
                } else {
                    Some((0, 0))
                },
                None => Some((0, 0)),
            }
        },
    }
}

/// ` · 12s · 4.1 MiB/s`, once there is something to time.
pub open spec fn timing_text(timing: Option<(u64, u64)>) -> Seq<char> {
    match timing {
        Some((seconds, rate)) => " · "@ + elapsed_text(seconds) + " · "@ + bytes_text(rate)
            + "/s"@,
        None => ""@,
    }
}

/// The text on the bar. Before any event the tool is still behind the elevation
/// prompt; after, without progress, it is between slots.
pub open spec fn bar_line(
    s: OpFoldView,
    label: Seq<char>,
    percent: u32,
    timing: Option<(u64, u64)>,
) -> Option<Seq<char>> {
    match bar_bytes(s) {
        None => None,
        Some((done, total)) => {
            let counts = " — "@ + dec(percent as nat) + "% · "@ + bytes_text(done as u64) + " / "@
                + bytes_text(total as u64);
            let whole = s.agg_total matches Some(t) && t > 0;
            match s.progress {
                Some((bank, unit, _, _)) => Some(
                    s.verb + " "@ + bank + ":"@ + dec(unit as nat) + counts + (if whole {
                        " total"@
                    } else {
                        ""@
                    }) + timing_text(timing),
                ),
                None => if s.saw_event && whole {
                    Some(s.verb + counts + " total"@ + timing_text(timing))
                } else if s.saw_event {
                    Some(label + " — working…"@)
                } else {
                    Some(label + " — waiting for elevation approval…"@)
                },
            }
        },
    }
}

fn timing_line(timing: Option<(u64, u64)>) -> (r: String)
    ensures
        r@ == timing_text(timing),
{
    match timing {
        Some((seconds, rate)) => {
            let e = format_elapsed(seconds);
            let b = format_bytes(rate);
            cat5(" · ", &e, " · ", &b, "/s")
        },
        None => "".to_owned(),
    }
}

/// The text on the bar, given the percentage shown and, of the current pass,
/// its whole seconds and bytes per second.
pub fn bar_text(fold: &OpFold, label: &str, percent: u32, timing: Option<(u64, u64)>) -> (r: Option<
    String,
>)
    requires
        bar_bytes(fold@) matches Some(x) ==> x.0 <= u64::MAX,
    ensures
        opt_text(r) == bar_line(fold@, label@, percent, timing),
{
    let (done, total) = match bar_counts(fold) {
        Some(x) => x,
        None => {
            return None;
        },
    };
    let pct = dec_text(percent as u64);
    let a = format_bytes(done);
    let b = format_bytes(total);
    let head = cat4(" — ", &pct, "% · ", &a);
    let counts = cat3(&head, " / ", &b);
    let whole = match fold.agg_total {
        Some(t) => t > 0,
        None => false,
    };
    let tail = timing_line(timing);
    match &fold.progress {
        Some(p) => {
            let unit = dec_text(p.1 as u64);
            let slot = cat5(&fold.verb, " ", &p.0, ":", &unit);
            let word = if whole {
                " total"
            } else {
                ""
            };
            Some(cat4(&slot, &counts, word, &tail))
        },
        None => {
            if fold.saw_event && whole {
                Some(cat4(&fold.verb, &counts, " total", &tail))
            } else if fold.saw_event {
                Some(cat2(label, " — working…"))
            } else {
                Some(cat2(label, " — waiting for elevation approval…"))
            }
        },
    }
}

/// A scanned slot that matches is the only one with that badge.
pub proof fn match_badge_means_match(state: ViewState)
    ensures
        state_text(state) == "✔ matches"@ ==> state == ViewState::Core(SlotState::Matches),
{
    reveal_strlit("writing…");
    reveal_strlit("verifying…");
    reveal_strlit("wiping…");
    reveal_strlit("reading…");
    reveal_strlit("written");
    reveal_strlit("✔ matches");
    reveal_strlit("⚠ modified");
    reveal_strlit("≠ differs");
    reveal_strlit("wiped");
    reveal_strlit("");
    let m = "✔ matches"@;
    assert(m.len() == 9);
    assert(m[0] == '✔');
    assert("≠ differs"@[0] == '≠');
    assert("verifying…"@.len() == 10);
}

} // verus!

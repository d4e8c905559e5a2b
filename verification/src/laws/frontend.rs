//! What a graphical frontend shows of running operations, slots, targets and
//! options.

use vstd::prelude::*;

use crate::engine::plan::ImageFacts;
use crate::events::{EventView, OpKind, SlotState};
use crate::gui::devices::DeviceEntryView;
use crate::gui::ops::{
    applied, elapsed_text, end_text, end_update, event_lines, event_updates, folded, message_lines,
    message_updates, op_slot, GuiMsgView, LogMsgView, OpFoldView, SlotOutcome, SlotUpdateView,
    SlotViewView, UpdateView, ViewState,
};
use crate::gui::options::{Options, Switch, Warning};
use crate::gui::slots::{
    empty, occupied, settled_view, shown_after, updated, Pick, SlotKeyView, SlotStates,
};
use crate::gui::target::{auto_selectable, device_at, TargetView};
use crate::laws::plans::{is_file, names_image};
use crate::layout::BankView;
use crate::search::{first_where_is, first_where_props};
use crate::text::{dec, zero_pad};

verus! {

// ---------------------------------------------------------------------------
// Running operations
// ---------------------------------------------------------------------------

/// The end of a slot says of it: written after a write that is well, matching
/// after a verify that is well, differing after either that is not, and blank
/// after a wipe that is well; the end of anything else says nothing.
pub proof fn slot_ends_decide_the_state(kind: OpKind, ok: bool, length: Option<u64>)
    ensures
        ({
            let u = end_update(kind, ok, length);
            &&& kind == OpKind::Write && ok ==> u == Some(
                SlotOutcome::SetTo { state: ViewState::Written, length },
            )
            &&& kind == OpKind::Verify && ok ==> u == Some(
                SlotOutcome::SetTo { state: ViewState::Core(SlotState::Matches), length },
            )
            &&& (kind == OpKind::Write || kind == OpKind::Verify) && !ok ==> u == Some(
                SlotOutcome::SetTo { state: ViewState::Core(SlotState::Differs), length },
            )
            &&& kind == OpKind::Wipe && ok ==> u == Some(SlotOutcome::Cleared)
            &&& kind == OpKind::Wipe && !ok ==> u is None
            &&& kind == OpKind::Read || kind == OpKind::Status ==> u is None
        }),
{
}

/// While a slot is transferred its progress is on show, from nothing at its
/// start to what each report gives; at its end nothing is on show, and the pass
/// that it belongs to has its bytes more. A slot of another kind of operation
/// than the pass adds nothing.
pub proof fn progress_follows_the_slot(
    s: OpFoldView,
    op: OpKind,
    bank: Seq<char>,
    unit: u32,
    bytes: u64,
    done: u64,
    ok: bool,
    detail: Option<Seq<char>>,
)
    requires
        s.agg_done + bytes <= u64::MAX,
    ensures
        ({
            let a = folded(s, EventView::SlotStart { op, bank, unit, bytes });
            let b = folded(
                a,
                EventView::Progress { bank, unit, bytes_done: done, bytes_total: bytes },
            );
            let c = folded(b, EventView::SlotEnd { op, bank, unit, ok, detail });
            &&& a.progress == Some((bank, unit, 0u64, bytes))
            &&& a.verb == op.verb_text()
            &&& b.progress == Some((bank, unit, done, bytes))
            &&& b.agg_done == s.agg_done
            &&& c.progress is None
            &&& s.agg_kind == Some(op) ==> c.agg_done == s.agg_done + bytes
            &&& s.agg_kind != Some(op) ==> c.agg_done == s.agg_done
            &&& c.agg_total == s.agg_total
            &&& c.agg_kind == s.agg_kind
            &&& c.saw_event
        }),
{
}

/// A new pass has its own total and begins at nothing; no event ends the
/// operation or takes back that it is to be cancelled.
pub proof fn passes_begin_at_nothing(s: OpFoldView, op: OpKind, bytes: u64, ev: EventView)
    ensures
        ({
            let p = folded(s, EventView::PhaseStart { op, bytes });
            &&& p.agg_total == Some(bytes)
            &&& p.agg_done == 0
            &&& p.agg_kind == Some(op)
            &&& p.phase_started
            &&& folded(s, ev).saw_event
            &&& folded(s, ev).finished == s.finished
            &&& folded(s, ev).cancel_requested == s.cancel_requested
            &&& folded(s, ev).exit_code == s.exit_code
        }),
{
}

/// An exit finishes the operation with its code, and leaves no progress on
/// show. It is told of if the user cancelled, or if the code is not zero, and
/// only so.
pub proof fn exits_finish_the_operation(s: OpFoldView, code: Option<i32>)
    ensures
        ({
            let t = applied(s, GuiMsgView::Exited(code));
            let lines = message_lines(s, GuiMsgView::Exited(code));
            &&& t.finished
            &&& t.exit_code == code
            &&& t.progress is None
            &&& t.agg_done == s.agg_done
            &&& lines.len() == 0 <==> !s.cancel_requested && code == Some(0i32)
            &&& lines.len() <= 1
            &&& message_updates(s, GuiMsgView::Exited(code)).len() == 0
        }),
{
}

/// The log tells of the start and the end of every slot that is not scanned,
/// and of every error and note; the end completes the line of the start.
pub proof fn logs_tell_starts_and_ends(
    op: OpKind,
    bank: Seq<char>,
    unit: u32,
    bytes: u64,
    ok: bool,
    detail: Option<Seq<char>>,
    message: Seq<char>,
)
    ensures
        ({
            let start = event_lines(EventView::SlotStart { op, bank, unit, bytes });
            let end = event_lines(EventView::SlotEnd { op, bank, unit, ok, detail });
            &&& op == OpKind::Status ==> start.len() == 0 && end.len() == 0
            &&& op != OpKind::Status ==> {
                &&& start.len() == 1
                &&& end.len() == 1
                &&& end[0] matches LogMsgView::Complete { start: s, suffix, fallback }
                    && start[0] == LogMsgView::New(s) && suffix == " "@ + end_text(ok, detail)
                    && fallback == op_slot(op, bank, unit) + suffix
            }
            &&& event_lines(EventView::Error { message }) == seq![
                LogMsgView::New("error: "@ + message),
            ]
            &&& event_lines(EventView::Note { message }) == seq![LogMsgView::New(message)]
        }),
{
    if op != OpKind::Status {
        let end = event_lines(EventView::SlotEnd { op, bank, unit, ok, detail });
        let a = op_slot(op, bank, unit);
        assert(a + " "@ + end_text(ok, detail) =~= a + (" "@ + end_text(ok, detail)));
    }
}

/// A slot's outcome in the log is well exactly when it is, and gives the reason
/// if it is not.
pub proof fn logged_outcomes_are_true(ok: bool, detail: Option<Seq<char>>)
    ensures
        ok <==> end_text(ok, detail) == "Ok."@,
        !ok ==> end_text(ok, detail).take(6) == "FAILED"@,
        !ok && detail is Some ==> end_text(ok, detail).skip(
            end_text(ok, detail).len() - detail->0.len(),
        ) == detail->0,
{
    reveal_strlit("Ok.");
    reveal_strlit("FAILED: ");
    reveal_strlit("FAILED");
    let t = end_text(ok, detail);
    if !ok {
        assert(t.take(6) =~= "FAILED"@);
        assert(t[0] == 'F');
        if detail is Some {
            assert(t.skip(t.len() - detail->0.len()) =~= detail->0);
        }
    }
}

/// A slot that is written, wiped or verified shows as busy with that from its
/// start; one that is scanned takes on what its report says, and all of it.
pub proof fn slot_map_follows_the_events(
    s: OpFoldView,
    op: OpKind,
    bank: Seq<char>,
    unit: u32,
    bytes: u64,
    state: SlotState,
    name: Option<Seq<char>>,
    length: Option<u64>,
    sha256: Option<Seq<char>>,
)
    ensures
        ({
            let start = event_updates(s, EventView::SlotStart { op, bank, unit, bytes });
            let busy = (
                (bank, unit),
                SlotUpdateView::Outcome(
                    SlotOutcome::SetTo { state: ViewState::Busy(op), length: None },
                ),
            );
            let report = EventView::SlotStatus { bank, unit, state, name, length, sha256 };
            &&& op == OpKind::Write || op == OpKind::Wipe || op == OpKind::Verify ==> start == seq![
                busy,
            ]
            &&& op == OpKind::Read || op == OpKind::Status ==> start.len() == 0
            &&& event_updates(s, report) == seq![
                (
                    (bank, unit),
                    SlotUpdateView::Status(
                        SlotViewView { state: ViewState::Core(state), name, length },
                    ),
                ),
            ]
        }),
{
}

/// An elapsed time below a minute is given in seconds, below an hour in minutes
/// and seconds, and else in hours and whole minutes; minutes and seconds behind
/// a larger unit have two digits.
pub proof fn elapsed_times_add_up(total: u64)
    ensures
        ({
            let t = elapsed_text(total);
            &&& total < 60 ==> t == dec(total as nat) + "s"@
            &&& 60 <= total < 3600 ==> exists|m: nat, s: nat|
                m * 60 + s == total && s < 60 && t == #[trigger] dec(m) + "m "@
                    + #[trigger] zero_pad(dec(s), 2) + "s"@
            &&& 3600 <= total ==> exists|h: nat, m: nat|
                h * 3600 + m * 60 <= total < h * 3600 + m * 60 + 60 && m < 60 && t
                    == #[trigger] dec(h) + "h "@ + #[trigger] zero_pad(dec(m), 2) + "m"@
        }),
{
    if 60 <= total < 3600 {
        let m = (total / 60) as nat;
        let s = (total % 60) as nat;
        assert(m * 60 + s == total);
        assert(elapsed_text(total) == dec(m) + "m "@ + zero_pad(dec(s), 2) + "s"@);
    } else if 3600 <= total {
        let h = (total / 3600) as nat;
        let m = (total % 3600 / 60) as nat;
        assert(h * 3600 + m * 60 <= total < h * 3600 + m * 60 + 60);
        assert(elapsed_text(total) == dec(h) + "h "@ + zero_pad(dec(m), 2) + "m"@);
    }
}

// ---------------------------------------------------------------------------
// Slots
// ---------------------------------------------------------------------------

/// A report replaces what a slot shows. An outcome changes the state, keeps the
/// name, and keeps the length where it brings none; a wiped slot shows as wiped
/// and without a length.
pub proof fn updates_keep_what_they_do_not_bring(
    prior: Option<SlotViewView>,
    report: SlotViewView,
    state: ViewState,
    length: Option<u64>,
)
    ensures
        ({
            let name = if prior is Some {
                prior->0.name
            } else {
                None
            };
            let known = if prior is Some {
                prior->0.length
            } else {
                None
            };
            let set = updated(
                prior,
                SlotUpdateView::Outcome(SlotOutcome::SetTo { state, length }),
            );
            let cleared = updated(prior, SlotUpdateView::Outcome(SlotOutcome::Cleared));
            &&& updated(prior, SlotUpdateView::Status(report)) == report
            &&& set.state == state
            &&& set.name == name
            &&& length is Some ==> set.length == length
            &&& length is None ==> set.length == known
            &&& cleared.state == ViewState::Core(SlotState::Wiped)
            &&& cleared.name == name
            &&& cleared.length is None
        }),
{
}

/// What a slot shows depends on its own updates alone, and on the last one
/// last.
pub proof fn slots_show_their_last_update(
    k: SlotKeyView,
    prior: Option<SlotViewView>,
    updates: Seq<UpdateView>,
    u: UpdateView,
)
    ensures
        shown_after(k, prior, Seq::empty()) == prior,
        u.0 == k ==> shown_after(k, prior, updates.push(u)) == Some(
            updated(shown_after(k, prior, updates), u.1),
        ),
        u.0 != k ==> shown_after(k, prior, updates.push(u)) == shown_after(k, prior, updates),
{
    assert(updates.push(u).drop_last() =~= updates);
}

/// Once nothing runs, no slot is busy: one that was being verified is written
/// but unconfirmed, one that was busy otherwise is suspect, and any other shows
/// what it showed.
pub proof fn nothing_stays_busy(shown: SlotViewView)
    ensures
        ({
            let after = settled_view(Some(shown));
            &&& after is Some
            &&& after->0.name == shown.name
            &&& after->0.length == shown.length
            &&& !(after->0.state is Busy)
            &&& shown.state == ViewState::Busy(OpKind::Verify) ==> after->0.state
                == ViewState::Written
            &&& shown.state is Busy && shown.state != ViewState::Busy(OpKind::Verify)
                ==> after->0.state == ViewState::Core(SlotState::Differs)
            &&& !(shown.state is Busy) ==> after->0.state == shown.state
            &&& settled_view(None) is None
        }),
{
}

/// A slot counts as free exactly when the manifest names no image for it and
/// nothing but a wipe is known of it, or nothing at all. A row is empty when
/// nothing is known of its slot, and it has neither a name nor an image.
pub proof fn free_and_empty_slots(states: SlotStates, b: BankView, unit: u32)
    ensures
        ({
            let shown = states.shown((b.name, unit));
            let listed = b.slots.dom().contains(unit);
            let no_image = !(listed && b.slots[unit].image is Some);
            &&& !occupied(states, b, unit) <==> no_image && (shown is None || shown->0.state
                == ViewState::Core(SlotState::Wiped) || shown->0.state == ViewState::Core(
                SlotState::Unknown,
            ))
            &&& empty(states, b, unit) <==> no_image && !(listed && b.slots[unit].name is Some) && (
            shown is None || (shown->0.state == ViewState::Core(SlotState::Unknown)
                && shown->0.name is None))
            &&& empty(states, b, unit) ==> !occupied(states, b, unit)
        }),
{
}

/// A slot is ticked as needed exactly when the manifest names an image for it
/// that is a regular file, and the card is not known to hold it already.
pub proof fn needed_slots_are_exact(
    states: &SlotStates,
    facts: &ImageFacts,
    b: BankView,
    unit: u32,
)
    requires
        unit < b.units,
    ensures
        (Pick::ImageOnDisk(facts)).takes(b, unit) <==> exists|path: Seq<char>, n: u64|
            #[trigger] names_image(b, unit, path) && #[trigger] is_file(*facts, path, n),
        (Pick::NeedsWrite { states, facts }).takes(b, unit) <==> (Pick::ImageOnDisk(facts)).takes(
            b,
            unit,
        ) && !(states.shown((b.name, unit)) is Some && states.shown((b.name, unit))->0.state
            == ViewState::Core(SlotState::Matches)),
        (Pick::Visible { states, hide_empty: false }).takes(b, unit),
        (Pick::Visible { states, hide_empty: true }).takes(b, unit) <==> !(Pick::Empty(
            states,
        )).takes(b, unit),
{
    if b.image_of(unit) is Some {
        let path = b.image_of(unit)->0;
        crate::laws::plans::facts_are_first(*facts, path);
        assert(names_image(b, unit, path));
        if facts.fact(path) is File {
            assert(is_file(*facts, path, facts.fact(path)->File_0));
        }
    }
}

// ---------------------------------------------------------------------------
// Targets
// ---------------------------------------------------------------------------

/// A device may be the target exactly when it has media, is not the system
/// disk, and is known to be removable or the mode is advanced.
pub proof fn selectable_devices_are_exact(d: DeviceEntryView, advanced: bool)
    ensures
        d.selectable(advanced) <==> {
            &&& d.size_bytes is Some
            &&& d.size_bytes->0 > 0
            &&& !d.system
            &&& d.removable == Some(true) || advanced
        },
{
}

/// The target is the file, if one is chosen, and else the selected device: its
/// path is the argument of an operation and its size the card's. A device that
/// is not known to be removable needs force; a file never does.
pub proof fn files_come_before_devices(t: TargetView)
    ensures
        t.file matches Some(f) ==> t.device_arg() == Some(f) && t.card_size() is None
            && !t.needs_force(),
        t.file is None && t.selected is None ==> t.device_arg() is None && t.card_size() is None
            && !t.needs_force(),
        t.file is None && t.selected is Some && 0 <= t.selected->0 < t.devices.len() ==> {
            let d = t.devices[t.selected->0];
            &&& t.device_arg() == Some(d.path)
            &&& t.card_size() == d.size_bytes
            &&& t.needs_force() <==> d.removable != Some(true)
        },
{
}

/// Device `i` is the first of the list with that path.
pub open spec fn first_at(devices: Seq<DeviceEntryView>, path: Seq<char>, i: int) -> bool {
    &&& 0 <= i < devices.len()
    &&& devices[i].path == path
    &&& forall|m: int| 0 <= m < i ==> (#[trigger] devices[m]).path != path
}

/// A new device list keeps the selected device wherever it stands now, if it may
/// still be selected; a device that is gone, or may not be, is let go; and the
/// file stays.
pub proof fn selections_follow_the_device(
    t: TargetView,
    devices: Seq<DeviceEntryView>,
    advanced: bool,
    i: int,
)
    requires
        t.selected is Some,
        0 <= t.selected->0 < t.devices.len(),
    ensures
        ({
            let path = t.devices[t.selected->0].path;
            let next = t.relisted(devices, advanced);
            &&& next.devices == devices
            &&& next.file == t.file
            &&& first_at(devices, path, i) && devices[i].selectable(advanced) ==> next.selected
                == Some(i)
            &&& first_at(devices, path, i) && !devices[i].selectable(advanced)
                ==> next.selected is None
            &&& (forall|m: int| 0 <= m < devices.len() ==> (#[trigger] devices[m]).path != path)
                ==> next.selected is None
        }),
{
    let path = t.devices[t.selected->0].path;
    let p = device_at(path);
    if first_at(devices, path, i) {
        assert forall|m: int| 0 <= m < i implies !p(#[trigger] devices[m]) by {
            assert(devices[m].path != path);
        }
        first_where_is(devices, p, i);
    }
    if forall|m: int| 0 <= m < devices.len() ==> (#[trigger] devices[m]).path != path {
        assert forall|m: int| 0 <= m < devices.len() implies !p(#[trigger] devices[m]) by {
            assert(devices[m].path != path);
        }
        first_where_is(devices, p, devices.len() as int);
    }
}

/// The device may be selected by itself: removable, with media, and not the
/// system disk.
pub open spec fn may_be_taken(d: DeviceEntryView) -> bool {
    d.size_bytes is Some && d.size_bytes->0 > 0 && d.removable == Some(true) && !d.system
}

/// A device is selected by itself only with the option on, in an idle frontend,
/// and without a target; then it is the first that may be taken, if there is
/// one.
pub proof fn devices_are_selected_by_themselves_with_care(
    t: TargetView,
    auto: bool,
    busy: bool,
)
    ensures
        !auto || busy || t.selected is Some || t.file is Some ==> t.auto_choice(auto, busy) is None,
        auto && !busy && t.selected is None && t.file is None ==> match t.auto_choice(auto, busy) {
            Some(i) => 0 <= i < t.devices.len() && may_be_taken(t.devices[i]) && forall|m: int|
                0 <= m < i ==> !may_be_taken(#[trigger] t.devices[m]),
            None => forall|m: int|
                0 <= m < t.devices.len() ==> !may_be_taken(#[trigger] t.devices[m]),
        },
{
    let p = auto_selectable();
    first_where_props(t.devices, p);
    assert forall|m: int| 0 <= m < t.devices.len() implies (p(t.devices[m]) <==> may_be_taken(
        #[trigger] t.devices[m],
    )) by {}
}

// ---------------------------------------------------------------------------
// Options
// ---------------------------------------------------------------------------

/// Whether a switch is on.
pub open spec fn is_on(o: Options, switch: Switch) -> bool {
    match switch {
        Switch::ShowAll => o.show_all,
        Switch::Advanced => o.advanced,
        Switch::AutoSelect => o.select_first_removable,
        Switch::Verify => o.verify,
        Switch::Eject => o.eject_after_write,
        Switch::Needed => o.select_needed,
        Switch::HideEmpty => o.hide_empty_slots,
        Switch::HideLog => o.hide_log,
        Switch::Developer => o.developer_mode,
    }
}

/// A switch that the user is warned of.
pub open spec fn is_dangerous(switch: Switch) -> bool {
    switch == Switch::Advanced || switch == Switch::AutoSelect
}

/// Flipping a switch sets that switch and no other. A dangerous one is not
/// turned on by that, but asked about, and turned on when confirmed; what is not
/// asked about is saved.
pub proof fn switches_flip_themselves_alone(
    o: Options,
    switch: Switch,
    on: bool,
    other: Switch,
    warning: Warning,
)
    ensures
        ({
            let f = o.flipped(switch, on);
            let e = Options::flip_effect(switch, on);
            let c = o.confirmed(warning);
            let warned = match warning {
                Warning::Advanced => Switch::Advanced,
                Warning::AutoSelect => Switch::AutoSelect,
            };
            &&& other != switch ==> is_on(f, other) == is_on(o, other)
            &&& !(is_dangerous(switch) && on) ==> is_on(f, switch) == on && e.ask is None && e.save
            &&& is_dangerous(switch) && on ==> f == o && e.ask is Some && !e.save
            &&& e.ask matches Some(w) ==> is_on(o.confirmed(w), switch)
            &&& is_on(c, warned)
            &&& other != warned ==> is_on(c, other) == is_on(o, other)
            &&& e.prune_device <==> switch == Switch::ShowAll || (switch == Switch::Advanced && !on)
            &&& e.prune_slots <==> switch == Switch::HideEmpty && on
        }),
{
}

} // verus!

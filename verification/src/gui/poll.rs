//! Taking in what a running operation has said: its fold, the slot map and the
//! log, in step.

use vstd::prelude::*;
use vstd::string::*;

use crate::events::{EventView, OpKind, SlotState};
use crate::gui::log::{all_logged, Log};
use crate::gui::ops::{
    aggregate_fits, applied, event_updates, log_views, message_lines, message_updates, starts_phase,
    update_views, GuiMsg, GuiMsgView, LogMsg, LogMsgView, OpFold, OpFoldView, SlotOutcome, SlotUpdate,
    SlotUpdateView, UpdateView, ViewState,
};
use crate::gui::slots::{settled_view, shown_after, SlotKey, SlotKeyView, SlotStates};

verus! {

pub open spec fn msg_views(v: Seq<GuiMsg>) -> Seq<GuiMsgView> {
    v.map_values(|m: GuiMsg| m@)
}

/// The fold after a row of messages.
pub open spec fn fold_all(s: OpFoldView, msgs: Seq<GuiMsgView>) -> OpFoldView
    decreases msgs.len(),
{
    if msgs.len() == 0 {
        s
    } else {
        applied(fold_all(s, msgs.drop_last()), msgs.last())
    }
}

/// The log lines of a row of messages.
pub open spec fn lines_all(s: OpFoldView, msgs: Seq<GuiMsgView>) -> Seq<LogMsgView>
    decreases msgs.len(),
{
    if msgs.len() == 0 {
        Seq::empty()
    } else {
        lines_all(s, msgs.drop_last()) + message_lines(fold_all(s, msgs.drop_last()), msgs.last())
    }
}

/// The slot-map updates of a row of messages.
pub open spec fn updates_all(s: OpFoldView, msgs: Seq<GuiMsgView>) -> Seq<UpdateView>
    decreases msgs.len(),
{
    if msgs.len() == 0 {
        Seq::empty()
    } else {
        updates_all(s, msgs.drop_last()) + message_updates(
            fold_all(s, msgs.drop_last()),
            msgs.last(),
        )
    }
}

/// The aggregate stays within 64 bits throughout.
pub open spec fn all_fit(s: OpFoldView, msgs: Seq<GuiMsgView>) -> bool {
    forall|i: int|
        0 <= i < msgs.len() ==> aggregate_fits(#[trigger] fold_all(s, msgs.take(i)), msgs[i])
}

/// What a slot shows once the messages are taken in: an operation that has
/// ended leaves no row busy.
pub open spec fn shown_then(
    k: SlotKeyView,
    prior: Option<crate::gui::ops::SlotViewView>,
    s: OpFoldView,
    msgs: Seq<GuiMsgView>,
) -> Option<crate::gui::ops::SlotViewView> {
    let shown = shown_after(k, prior, updates_all(s, msgs));
    if fold_all(s, msgs).finished {
        settled_view(shown)
    } else {
        shown
    }
}

/// Would the aggregate stay within 64 bits?
pub fn message_fits(fold: &OpFold, msg: &GuiMsg) -> (r: bool)
    ensures
        r == aggregate_fits(fold@, msg@),
{
    match msg {
        GuiMsg::Event(crate::events::Event::SlotEnd { op, bank, unit, .. }) => {
            let measured = match fold.agg_kind {
                Some(k) => k == *op,
                None => false,
            };
            match &fold.progress {
                Some(p) => if measured && p.0 == *bank && p.1 == *unit {
                    p.3 <= u64::MAX - fold.agg_done
                } else {
                    true
                },
                None => true,
            }
        },
        _ => true,
    }
}

/// Take in a batch of messages: fold them, update the slot map in order,
/// resolve the rows that an ended operation left busy, and log what they say.
pub fn absorb(fold: &mut OpFold, states: &mut SlotStates, log: &mut Log, msgs: Vec<GuiMsg>)
    requires
        all_fit(old(fold)@, msg_views(msgs@)),
    ensures
        final(fold)@ == fold_all(old(fold)@, msg_views(msgs@)),
        forall|k: SlotKeyView| #[trigger]
            final(states).shown(k) == shown_then(
                k,
                old(states).shown(k),
                old(fold)@,
                msg_views(msgs@),
            ),
        final(log)@ == all_logged(old(log)@, lines_all(old(fold)@, msg_views(msgs@))),
        (forall|i: int| 0 <= i < msgs@.len() ==> !starts_phase(#[trigger] msg_views(msgs@)[i]))
            ==> final(fold).phase_started_at == old(fold).phase_started_at,
{
    let ghost start = fold@;
    let ghost all = msg_views(msgs@);
    let mut lines: Vec<LogMsg> = Vec::new();
    let mut updates: Vec<(SlotKey, SlotUpdate)> = Vec::new();
    let mut rest = msgs;
    let n: usize = rest.len();
    let mut i: usize = 0;
    proof {
        assert(rest@ =~= msgs@.skip(0));
        assert(all.take(0) =~= Seq::<GuiMsgView>::empty());
        assert(log_views(lines@) =~= Seq::<LogMsgView>::empty());
        assert(update_views(updates@) =~= Seq::<UpdateView>::empty());
    }
    while i < n
        invariant
            n == msgs@.len(),
            i <= n,
            all == msg_views(msgs@),
            all_fit(start, all),
            rest@ == msgs@.skip(i as int),
            fold@ == fold_all(start, all.take(i as int)),
            (forall|j: int| 0 <= j < i ==> !starts_phase(#[trigger] all[j]))
                ==> fold.phase_started_at == old(fold).phase_started_at,
            log_views(lines@) == lines_all(start, all.take(i as int)),
            update_views(updates@) == updates_all(start, all.take(i as int)),
        decreases n - i,
    {
        let msg = rest.remove(0);
        let ghost m = msg@;
        proof {
            assert(m == all[i as int]);
            assert(aggregate_fits(fold_all(start, all.take(i as int)), all[i as int]));
        }
        let ghost l0 = lines@;
        let ghost u0 = updates@;
        let (mut more_lines, mut more_updates) = fold.apply(msg);
        let ghost l1 = more_lines@;
        let ghost u1 = more_updates@;
        lines.append(&mut more_lines);
        updates.append(&mut more_updates);
        proof {
            let next = all.take(i as int + 1);
            assert(next.drop_last() =~= all.take(i as int));
            assert(next.last() == m);
            assert(log_views(lines@) =~= log_views(l0) + log_views(l1));
            assert(update_views(updates@) =~= update_views(u0) + update_views(u1));
            assert(rest@ =~= msgs@.skip(i as int + 1));
        }
        i = i + 1;
    }
    assert(all.take(n as int) =~= all);
    states.apply_all(updates);
    if fold.finished {
        states.settle();
    }
    log.apply_all(lines);
}

/// A slot is shown as matching only by a successful verify of it, or by a scan
/// that found it so: no write by itself, and no failure, shows a match.
pub proof fn matches_come_from_verify_or_scan(s: OpFoldView, ev: EventView, i: int)
    requires
        0 <= i < event_updates(s, ev).len(),
    ensures
        ({
            let u = event_updates(s, ev)[i].1;
            let state = match u {
                SlotUpdateView::Status(v) => Some(v.state),
                SlotUpdateView::Outcome(SlotOutcome::SetTo { state, .. }) => Some(state),
                SlotUpdateView::Outcome(SlotOutcome::Cleared) => None,
            };
            state == Some(ViewState::Core(SlotState::Matches)) ==> {
                ||| (ev matches EventView::SlotEnd { op, ok, .. } && op == OpKind::Verify && ok)
                ||| (ev matches EventView::SlotStatus { state, .. } && state == SlotState::Matches)
            }
        }),
{
}

/// A whole slot's transfer adds its byte count to the aggregate of its own
/// pass, and nothing to another pass's.
pub proof fn slot_end_adds_its_bytes(
    s: OpFoldView,
    op: OpKind,
    bank: Seq<char>,
    unit: u32,
    bytes: u64,
    ok: bool,
    detail: Option<Seq<char>>,
)
    requires
        s.agg_done + bytes <= u64::MAX,
    ensures
        ({
            let started = applied(
                s,
                GuiMsgView::Event(EventView::SlotStart { op, bank, unit, bytes }),
            );
            let ended = applied(
                started,
                GuiMsgView::Event(EventView::SlotEnd { op, bank, unit, ok, detail }),
            );
            ended.agg_done == if s.agg_kind == Some(op) {
                s.agg_done + bytes
            } else {
                s.agg_done as int
            }
        }),
{
}

/// Once an operation has exited, whatever it left busy is resolved, whatever it
/// said before.
pub proof fn an_exit_leaves_no_row_busy(
    k: SlotKeyView,
    prior: Option<crate::gui::ops::SlotViewView>,
    s: OpFoldView,
    msgs: Seq<GuiMsgView>,
)
    requires
        msgs.len() > 0,
        msgs.last() is Exited,
    ensures
        shown_then(k, prior, s, msgs) matches Some(v) ==> !(v.state is Busy),
{
}

} // verus!

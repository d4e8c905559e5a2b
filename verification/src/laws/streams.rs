//! What a frontend is told while an operation runs.

use vstd::prelude::*;

use crate::device::{range, Bytes};
use crate::engine::plan::WriteJobView;
use crate::engine::status::{
    item_events, probe_events, record_events, record_events_from, record_total, StatusItemView,
    StatusProbeView,
};
use crate::engine::stream::progress_from;
use crate::engine::verify::{
    check_events, held_hash, verify_events, verify_events_from,
};
use crate::engine::wipe::{wipe_events, wipe_events_from, wipe_slot_events, wipe_total};
use crate::engine::write::image_total;
use crate::events::{EventView, OpKind, SlotState};
use crate::laws::cards::progress_ends_at_the_total;
use crate::layout::LayoutView;
use crate::toc::{sha_hex, TocEntryView};

verus! {

// ---------------------------------------------------------------------------
// One slot
// ---------------------------------------------------------------------------

/// The event is progress of a transfer of `bytes` bytes.
pub open spec fn is_progress(e: EventView, bank: Seq<char>, unit: u32, bytes: u64) -> bool {
    e matches EventView::Progress { bank: b, unit: u, bytes_done, bytes_total } && b == bank && u
        == unit && bytes_done <= bytes && bytes_total == bytes
}

/// The events tell of one slot: it starts, with as many bytes as the operation
/// has to do there; its progress comes up to that many; and it ends.
pub open spec fn tells_slot(
    s: Seq<EventView>,
    op: OpKind,
    bank: Seq<char>,
    unit: u32,
    bytes: u64,
    ok: bool,
) -> bool {
    let n = s.len() as int;
    &&& n >= 2
    &&& s[0] == (EventView::SlotStart { op, bank, unit, bytes })
    &&& forall|k: int| 0 < k < n - 1 ==> is_progress(#[trigger] s[k], bank, unit, bytes)
    &&& n == 2 <==> bytes == 0
    &&& bytes > 0 ==> s[n - 2] == (EventView::Progress {
        bank,
        unit,
        bytes_done: bytes,
        bytes_total: bytes,
    })
    &&& s[n - 1] matches EventView::SlotEnd { op: o, bank: b, unit: u, ok: w, .. } && o == op && b
        == bank && u == unit && w == ok
}

proof fn framed_slots_are_told(
    op: OpKind,
    bank: Seq<char>,
    unit: u32,
    bytes: u64,
    chunk: int,
    ok: bool,
    detail: Option<Seq<char>>,
)
    requires
        chunk > 0,
    ensures
        tells_slot(
            seq![(EventView::SlotStart { op, bank, unit, bytes })] + progress_from(
                bank,
                unit,
                0,
                bytes,
                chunk,
            ) + seq![(EventView::SlotEnd { op, bank, unit, ok, detail })],
            op,
            bank,
            unit,
            bytes,
            ok,
        ),
{
    let p = progress_from(bank, unit, 0, bytes, chunk);
    let s = seq![(EventView::SlotStart { op, bank, unit, bytes })] + p + seq![
        (EventView::SlotEnd { op, bank, unit, ok, detail }),
    ];
    progress_ends_at_the_total(bank, unit, 0, bytes, chunk, 0);
    assert(s.len() == p.len() + 2);
    assert forall|k: int| 0 < k < s.len() - 1 implies is_progress(
        #[trigger] s[k],
        bank,
        unit,
        bytes,
    ) by {
        assert(s[k] == p[k - 1]);
        progress_ends_at_the_total(bank, unit, 0, bytes, chunk, k - 1);
        if k - 1 < p.len() - 1 {
            assert((0 + (k - 1 + 1) * chunk) <= (p.len() - 1) * chunk) by (nonlinear_arith)
                requires
                    k <= p.len() - 1,
                    chunk > 0,
            ;
        } else {
            assert(p[k - 1] == p.last());
        }
    }
    if p.len() > 0 {
        assert(s[s.len() - 2] == p.last());
    }
}

/// Wiping a slot tells of its whole size, and ends well.
pub proof fn wiped_slots_are_told(layout: LayoutView, slot: (usize, u32), chunk: int)
    requires
        chunk > 0,
    ensures
        tells_slot(
            wipe_slot_events(layout, slot, chunk),
            OpKind::Wipe,
            layout.banks[slot.0 as int].name,
            slot.1,
            layout.banks[slot.0 as int].slot_size,
            true,
        ),
{
    let b = layout.banks[slot.0 as int];
    framed_slots_are_told(OpKind::Wipe, b.name, slot.1, b.slot_size, chunk, true, None);
}

/// Comparing a slot tells of its image's length, and ends well if and only if
/// the card's bytes there have the expected hash; a slot that differs is told
/// with a detail, and one that does not without.
pub proof fn compared_slots_are_told(
    c: Bytes,
    j: WriteJobView,
    expect: Seq<char>,
    chunk: int,
    word: Seq<char>,
)
    requires
        chunk > 0,
    ensures
        ({
            let s = check_events(c, j, expect, chunk, word);
            let held = Seq::new(j.image_len as nat, |i: int| c(j.extent.offset + i));
            &&& tells_slot(
                s,
                OpKind::Verify,
                j.bank,
                j.unit,
                j.image_len,
                sha_hex(held) == expect,
            )
            &&& s.last() matches EventView::SlotEnd { ok, detail, .. } && (ok <==> detail is None)
        }),
{
    let held = Seq::new(j.image_len as nat, |i: int| c(j.extent.offset + i));
    assert(range(c, j.extent.offset as int, j.image_len as nat) =~= held);
    let ok = sha_hex(held) == expect;
    let detail = if ok {
        None
    } else {
        Some("expected "@ + expect + ", "@ + word + " "@ + held_hash(c, j))
    };
    framed_slots_are_told(OpKind::Verify, j.bank, j.unit, j.image_len, chunk, ok, detail);
}

/// Scanning a slot that can be compared tells of the bytes that are hashed, and
/// then its report; of one that cannot, the report alone.
pub proof fn scanned_slots_are_told(
    layout: LayoutView,
    c: Bytes,
    item: StatusItemView,
    file_hash: Seq<char>,
    chunk: int,
)
    requires
        chunk > 0,
    ensures
        ({
            let s = item_events(layout, c, item, file_hash, chunk);
            let name = layout.banks[item.bank_idx].name;
            &&& s.len() > 0
            &&& s.last() matches EventView::SlotStatus { bank, unit, state, .. } && bank == name
                && unit == item.unit && (state == SlotState::Unknown <==> item.probe is Unknown)
            &&& match item.probe {
                StatusProbeView::Unknown => s.len() == 1,
                StatusProbeView::Toc(e) => tells_slot(
                    s.drop_last(),
                    OpKind::Status,
                    name,
                    item.unit,
                    e.length,
                    true,
                ),
                StatusProbeView::Image { hash_len, .. } => tells_slot(
                    s.drop_last(),
                    OpKind::Status,
                    name,
                    item.unit,
                    hash_len,
                    true,
                ),
            }
        }),
{
    let s = item_events(layout, c, item, file_hash, chunk);
    let name = layout.banks[item.bank_idx].name;
    let bytes = item.probe.bytes();
    framed_slots_are_told(OpKind::Status, name, item.unit, bytes, chunk, true, None);
    if item.probe !is Unknown {
        assert(s.drop_last() =~= probe_events(name, item.unit, bytes, chunk));
    }
}

// ---------------------------------------------------------------------------
// Several slots
// ---------------------------------------------------------------------------

proof fn later_wipes(
    layout: LayoutView,
    a: Seq<(usize, u32)>,
    b: Seq<(usize, u32)>,
    j: int,
    chunk: int,
)
    requires
        0 <= j <= b.len(),
    ensures
        wipe_events_from(layout, a + b, a.len() + j, chunk) == wipe_events_from(
            layout,
            b,
            j,
            chunk,
        ),
    decreases b.len() - j,
{
    if j < b.len() {
        later_wipes(layout, a, b, j + 1, chunk);
        assert((a + b)[a.len() + j] == b[j]);
    }
}

proof fn earlier_wipes(
    layout: LayoutView,
    a: Seq<(usize, u32)>,
    b: Seq<(usize, u32)>,
    i: int,
    chunk: int,
)
    requires
        0 <= i <= a.len(),
    ensures
        wipe_events_from(layout, a + b, i, chunk) == wipe_events_from(layout, a, i, chunk)
            + wipe_events_from(layout, b, 0, chunk),
    decreases a.len() - i,
{
    if i < a.len() {
        earlier_wipes(layout, a, b, i + 1, chunk);
        assert((a + b)[i] == a[i]);
        assert(wipe_events_from(layout, a + b, i, chunk) =~= wipe_events_from(layout, a, i, chunk)
            + wipe_events_from(layout, b, 0, chunk));
    } else {
        later_wipes(layout, a, b, 0, chunk);
        assert(wipe_events_from(layout, a, i, chunk) + wipe_events_from(layout, b, 0, chunk)
            =~= wipe_events_from(layout, b, 0, chunk));
    }
}

/// A wipe is announced with its total. Behind that come the events of its
/// slots: those of one slot, of two lists of slots those of the first and then
/// those of the second, and of no slot none.
pub proof fn wipes_are_told_in_order(
    layout: LayoutView,
    a: Seq<(usize, u32)>,
    b: Seq<(usize, u32)>,
    slot: (usize, u32),
    chunk: int,
)
    requires
        wipe_total(layout, a, a.len() as int) <= u64::MAX,
        chunk > 0,
    ensures
        wipe_events(layout, a, chunk)[0] matches EventView::PhaseStart { op, bytes } && op
            == OpKind::Wipe && bytes == wipe_total(layout, a, a.len() as int),
        wipe_events(layout, Seq::empty(), chunk).len() == 1,
        tells_slot(
            wipe_events(layout, seq![slot], chunk).skip(1),
            OpKind::Wipe,
            layout.banks[slot.0 as int].name,
            slot.1,
            layout.banks[slot.0 as int].slot_size,
            true,
        ),
        wipe_events(layout, a + b, chunk).skip(1) == wipe_events(layout, a, chunk).skip(1)
            + wipe_events(layout, b, chunk).skip(1),
{
    totals_are_positive(layout, a, a.len() as int);
    earlier_wipes(layout, a, b, 0, chunk);
    wiped_slots_are_told(layout, slot, chunk);
    assert(wipe_events_from(layout, seq![slot], 1, chunk).len() == 0);
    assert(wipe_events(layout, seq![slot], chunk).skip(1) =~= wipe_slot_events(
        layout,
        slot,
        chunk,
    ));
    assert(wipe_events(layout, a + b, chunk).skip(1) =~= wipe_events_from(
        layout,
        a + b,
        0,
        chunk,
    ));
    assert(wipe_events(layout, a, chunk).skip(1) =~= wipe_events_from(layout, a, 0, chunk));
    assert(wipe_events(layout, b, chunk).skip(1) =~= wipe_events_from(layout, b, 0, chunk));
}

proof fn totals_are_positive(layout: LayoutView, slots: Seq<(usize, u32)>, n: int)
    ensures
        wipe_total(layout, slots, n) >= 0,
    decreases n,
{
    if n > 0 {
        totals_are_positive(layout, slots, n - 1);
    }
}

/// The card holds for every job bytes of the job's hash.
pub open spec fn all_agree(c: Bytes, jobs: Seq<WriteJobView>, hashes: Seq<Seq<char>>) -> bool {
    forall|k: int|
        0 <= k < jobs.len() ==> sha_hex(
            range(c, (#[trigger] jobs[k]).extent.offset as int, jobs[k].image_len as nat),
        ) == hashes[k]
}

proof fn later_checks(
    c: Bytes,
    a: Seq<WriteJobView>,
    b: Seq<WriteJobView>,
    x: Seq<Seq<char>>,
    y: Seq<Seq<char>>,
    j: int,
    chunk: int,
)
    requires
        a.len() == x.len(),
        b.len() == y.len(),
        0 <= j <= b.len(),
    ensures
        verify_events_from(c, a + b, x + y, a.len() + j, chunk) == verify_events_from(
            c,
            b,
            y,
            j,
            chunk,
        ),
    decreases b.len() - j,
{
    if j < b.len() {
        later_checks(c, a, b, x, y, j + 1, chunk);
        assert((a + b)[a.len() + j] == b[j]);
        assert((x + y)[a.len() + j] == y[j]);
    }
}

spec fn agree_from(c: Bytes, jobs: Seq<WriteJobView>, hashes: Seq<Seq<char>>, i: int) -> bool {
    forall|k: int| i <= k < jobs.len() ==> held_hash(c, #[trigger] jobs[k]) == hashes[k]
}

proof fn earlier_checks(
    c: Bytes,
    a: Seq<WriteJobView>,
    b: Seq<WriteJobView>,
    x: Seq<Seq<char>>,
    y: Seq<Seq<char>>,
    i: int,
    chunk: int,
)
    requires
        a.len() == x.len(),
        b.len() == y.len(),
        0 <= i <= a.len(),
    ensures
        agree_from(c, a, x, i) ==> verify_events_from(c, a + b, x + y, i, chunk)
            == verify_events_from(c, a, x, i, chunk) + verify_events_from(c, b, y, 0, chunk),
        !agree_from(c, a, x, i) ==> verify_events_from(c, a + b, x + y, i, chunk)
            == verify_events_from(c, a, x, i, chunk),
    decreases a.len() - i,
{
    let both = verify_events_from(c, a + b, x + y, i, chunk);
    let first = verify_events_from(c, a, x, i, chunk);
    let second = verify_events_from(c, b, y, 0, chunk);
    if i < a.len() {
        earlier_checks(c, a, b, x, y, i + 1, chunk);
        assert((a + b)[i] == a[i]);
        assert((x + y)[i] == x[i]);
        if held_hash(c, a[i]) == x[i] {
            let head = check_events(c, a[i], x[i], chunk, "read back"@);
            let tail = verify_events_from(c, a, x, i + 1, chunk);
            assert(agree_from(c, a, x, i) == agree_from(c, a, x, i + 1));
            assert(head + (tail + second) =~= (head + tail) + second);
        } else {
            assert(!agree_from(c, a, x, i)) by {
                assert(a[i] == a[i]);
            }
        }
    } else {
        later_checks(c, a, b, x, y, 0, chunk);
        assert(first + second =~= second);
    }
}

/// A verify pass is announced with its total. Behind that come the events of its
/// slots in order, up to the first that differs and no further.
pub proof fn verifies_are_told_to_the_first_difference(
    c: Bytes,
    a: Seq<WriteJobView>,
    b: Seq<WriteJobView>,
    x: Seq<Seq<char>>,
    y: Seq<Seq<char>>,
    j: WriteJobView,
    expect: Seq<char>,
    chunk: int,
)
    requires
        a.len() == x.len(),
        b.len() == y.len(),
        0 <= image_total(a, a.len() as int) <= u64::MAX,
        chunk > 0,
    ensures
        verify_events(c, a, x, chunk)[0] matches EventView::PhaseStart { op, bytes } && op
            == OpKind::Verify && bytes == image_total(a, a.len() as int),
        verify_events(c, Seq::empty(), Seq::empty(), chunk).len() == 1,
        tells_slot(
            verify_events(c, seq![j], seq![expect], chunk).skip(1),
            OpKind::Verify,
            j.bank,
            j.unit,
            j.image_len,
            sha_hex(range(c, j.extent.offset as int, j.image_len as nat)) == expect,
        ),
        all_agree(c, a, x) ==> verify_events(c, a + b, x + y, chunk).skip(1) == verify_events(
            c,
            a,
            x,
            chunk,
        ).skip(1) + verify_events(c, b, y, chunk).skip(1),
        !all_agree(c, a, x) ==> verify_events(c, a + b, x + y, chunk).skip(1) == verify_events(
            c,
            a,
            x,
            chunk,
        ).skip(1),
{
    earlier_checks(c, a, b, x, y, 0, chunk);
    assert(all_agree(c, a, x) ==> agree_from(c, a, x, 0));
    assert(agree_from(c, a, x, 0) ==> all_agree(c, a, x)) by {
        if agree_from(c, a, x, 0) {
            assert forall|k: int| 0 <= k < a.len() implies sha_hex(
                range(c, (#[trigger] a[k]).extent.offset as int, a[k].image_len as nat),
            ) == x[k] by {
                assert(held_hash(c, a[k]) == x[k]);
            }
        }
    }
    compared_slots_are_told(c, j, expect, chunk, "read back"@);
    let held = Seq::new(j.image_len as nat, |i: int| c(j.extent.offset + i));
    assert(range(c, j.extent.offset as int, j.image_len as nat) =~= held);
    assert(verify_events_from(c, seq![j], seq![expect], 1, chunk).len() == 0);
    assert(verify_events(c, seq![j], seq![expect], chunk).skip(1) =~= check_events(
        c,
        j,
        expect,
        chunk,
        "read back"@,
    ));
    assert(verify_events(c, a + b, x + y, chunk).skip(1) =~= verify_events_from(
        c,
        a + b,
        x + y,
        0,
        chunk,
    ));
    assert(verify_events(c, a, x, chunk).skip(1) =~= verify_events_from(c, a, x, 0, chunk));
    assert(verify_events(c, b, y, chunk).skip(1) =~= verify_events_from(c, b, y, 0, chunk));
}

proof fn later_records(
    c: Bytes,
    a: Seq<TocEntryView>,
    b: Seq<TocEntryView>,
    j: int,
    chunk: int,
)
    requires
        0 <= j <= b.len(),
    ensures
        record_events_from(c, a + b, a.len() + j, chunk) == record_events_from(c, b, j, chunk),
    decreases b.len() - j,
{
    if j < b.len() {
        later_records(c, a, b, j + 1, chunk);
        assert((a + b)[a.len() + j] == b[j]);
    }
}

proof fn earlier_records(
    c: Bytes,
    a: Seq<TocEntryView>,
    b: Seq<TocEntryView>,
    i: int,
    chunk: int,
)
    requires
        0 <= i <= a.len(),
    ensures
        record_events_from(c, a + b, i, chunk) == record_events_from(c, a, i, chunk)
            + record_events_from(c, b, 0, chunk),
    decreases a.len() - i,
{
    let second = record_events_from(c, b, 0, chunk);
    if i < a.len() {
        earlier_records(c, a, b, i + 1, chunk);
        assert((a + b)[i] == a[i]);
        assert(record_events_from(c, a + b, i, chunk) =~= record_events_from(c, a, i, chunk)
            + second);
    } else {
        later_records(c, a, b, 0, chunk);
        assert(record_events_from(c, a, i, chunk) + second =~= second);
    }
}

/// A scan of a card by its records is announced with its total. Behind that
/// every record tells of its slot, and then its report, in the records' order.
pub proof fn record_scans_are_told_in_order(
    c: Bytes,
    a: Seq<TocEntryView>,
    b: Seq<TocEntryView>,
    e: TocEntryView,
    chunk: int,
)
    requires
        0 <= record_total(a, a.len() as int) <= u64::MAX,
        chunk > 0,
    ensures
        record_events(c, a, chunk)[0] matches EventView::PhaseStart { op, bytes } && op
            == OpKind::Status && bytes == record_total(a, a.len() as int),
        record_events(c, Seq::empty(), chunk).len() == 1,
        ({
            let s = record_events(c, seq![e], chunk).skip(1);
            &&& tells_slot(s.drop_last(), OpKind::Status, e.bank, e.unit, e.length, true)
            &&& s.last() matches EventView::SlotStatus { bank, unit, state, name, length, sha256 }
                && bank == e.bank && unit == e.unit && name == e.name && length == Some(e.length)
                && (state == SlotState::Matches <==> sha256 == Some(e.sha256))
        }),
        record_events(c, a + b, chunk).skip(1) == record_events(c, a, chunk).skip(1)
            + record_events(c, b, chunk).skip(1),
{
    earlier_records(c, a, b, 0, chunk);
    framed_slots_are_told(OpKind::Status, e.bank, e.unit, e.length, chunk, true, None);
    let p = probe_events(e.bank, e.unit, e.length, chunk);
    let s = record_events(c, seq![e], chunk).skip(1);
    assert(record_events_from(c, seq![e], 1, chunk).len() == 0);
    assert(s =~= record_events_from(c, seq![e], 0, chunk));
    assert(s.drop_last() =~= p);
    assert(record_events(c, a + b, chunk).skip(1) =~= record_events_from(c, a + b, 0, chunk));
    assert(record_events(c, a, chunk).skip(1) =~= record_events_from(c, a, 0, chunk));
    assert(record_events(c, b, chunk).skip(1) =~= record_events_from(c, b, 0, chunk));
}

} // verus!

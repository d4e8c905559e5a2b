//! What stands on a card: the table of contents, its records, and slots that
//! were written, wiped or compared.

use vstd::prelude::*;

use crate::device::{range, zeros, Bytes};
use crate::engine::plan::WriteJobView;
use crate::engine::read::{read_total, ReadRun};
use crate::engine::session::toc_to_update;
use crate::engine::status::{probe_total, record_total, StatusItemView};
use crate::engine::stream::{next_stop, progress_from};
use crate::engine::verify::{
    differing, entry_for, first_bad, held_hash, mismatch, verify_outcome, with_records,
    written_slots_are_recorded,
};
use crate::engine::wipe::{
    extent_of, in_slots, slots_exist, wipe_total, wiped, wiped_elsewhere, wiped_slots_are_blank,
    without_slots,
};
use crate::engine::write::{
    image_total, padded, slot_start_event, written_event, WriteNeed, WriteRun,
};
use crate::error::Result;
use crate::events::{EventView, OpKind};
use crate::laws::layouts::slots_lie_at_their_unit;
use crate::laws::reports::{is_record, records_are_found_first};
use crate::layout::LayoutView;
use crate::sha::digest;
use crate::text::dec;
use crate::toc::{
    framed, le32, le32_value, magic, payload_at, payload_from, removal_drops_one_slot,
    rounded_up_props, sha_hex, TocEntryView, TocView, HEADER_LEN, PROBE_STEP, TOC_VERSION,
};

verus! {

// ---------------------------------------------------------------------------
// The frame
// ---------------------------------------------------------------------------

/// What every table begins with, in bytes: `SDSLTOC` and a one.
pub open spec fn begins_table(s: Seq<u8>) -> bool {
    &&& s.len() >= 8
    &&& s[0] == 0x53
    &&& s[1] == 0x44
    &&& s[2] == 0x53
    &&& s[3] == 0x4c
    &&& s[4] == 0x54
    &&& s[5] == 0x4f
    &&& s[6] == 0x43
    &&& s[7] == 1
}

/// The number in four bytes from `at` on, the lowest first.
pub open spec fn number_in(s: Seq<u8>, at: int) -> int {
    s[at] + 256 * s[at + 1] + 65536 * s[at + 2] + 16777216 * s[at + 3]
}

proof fn le32_parts(n: nat)
    requires
        n < 0x1_0000_0000,
    ensures
        le32_value(le32(n)) == n,
{
    let a = n / 256;
    let b = n / 65536;
    let c = n / 16777216;
    assert(b == a / 256) by (nonlinear_arith)
        requires
            a == n / 256,
            b == n / 65536,
    ;
    assert(c == b / 256) by (nonlinear_arith)
        requires
            b == n / 65536,
            c == n / 16777216,
    ;
}

/// A table on the card is eight bytes that mark it, version 1, the length of
/// the payload, the payload's SHA-256, and the payload, with zeros up to the
/// next sector boundary.
#[verifier::rlimit(40)]
pub proof fn tables_are_laid_out(payload: Seq<u8>, sector: u32)
    requires
        sector > 0,
        payload.len() < 0x1_0000_0000,
    ensures
        ({
            let f = framed(payload, sector);
            &&& f.len() as int % sector as int == 0
            &&& 48 + payload.len() <= f.len() < 48 + payload.len() + sector
            &&& begins_table(f)
            &&& number_in(f, 8) == 1
            &&& number_in(f, 12) == payload.len()
            &&& f.subrange(16, 48) == digest(payload)
            &&& f.subrange(48, 48 + payload.len() as int) == payload
            &&& forall|i: int| 48 + payload.len() <= i < f.len() ==> #[trigger] f[i] == 0
        }),
{
    let f = framed(payload, sector);
    rounded_up_props(HEADER_LEN + payload.len(), sector as int);
    le32_parts(payload.len());
    le32_parts(TOC_VERSION as nat);
    let h = magic() + le32(TOC_VERSION as nat) + le32(payload.len()) + digest(payload);
    assert(h.len() == 48);
    assert(f.subrange(0, 8) =~= magic());
    assert(f.subrange(8, 12) =~= le32(TOC_VERSION as nat));
    assert(f.subrange(12, 16) =~= le32(payload.len()));
    assert(f.subrange(16, 48) =~= digest(payload));
    assert(f.subrange(48, 48 + payload.len() as int) =~= payload);
    assert forall|i: int| 0 <= i < 8 implies f[i] == magic()[i] by {
        assert(f[i] == f.subrange(0, 8)[i]);
    }
    assert forall|i: int| 0 <= i < 4 implies f[8 + i] == le32(TOC_VERSION as nat)[i] && f[12 + i]
        == le32(payload.len())[i] by {
        assert(f[8 + i] == f.subrange(8, 12)[i]);
        assert(f[12 + i] == f.subrange(12, 16)[i]);
    }
}

/// A card holds a payload at an offset exactly when the table there is marked,
/// of version 1, no longer than its region, and of the hash that it gives.
pub proof fn tables_are_read_exactly(c: Bytes, offset: int, payload: Seq<u8>)
    ensures
        payload_at(c, offset) == Some(payload) <==> {
            let h = range(c, offset, 48);
            &&& begins_table(h)
            &&& number_in(h, 8) == 1
            &&& number_in(h, 12) == payload.len() <= 131072 - 48
            &&& range(c, offset + 48, payload.len()) == payload
            &&& digest(payload) == h.subrange(16, 48)
        },
{
    let h = range(c, offset, HEADER_LEN as nat);
    assert(h.len() == 48);
    assert(h.subrange(8, 12)[0] == h[8] && h.subrange(8, 12)[1] == h[9] && h.subrange(8, 12)[2]
        == h[10] && h.subrange(8, 12)[3] == h[11]);
    assert(h.subrange(12, 16)[0] == h[12] && h.subrange(12, 16)[1] == h[13] && h.subrange(
        12,
        16,
    )[2] == h[14] && h.subrange(12, 16)[3] == h[15]);
    assert(h.skip(16) =~= h.subrange(16, 48));
    if begins_table(h) {
        assert(h.take(8) =~= magic());
    }
    if h.take(8) == magic() {
        assert forall|i: int| 0 <= i < 8 implies h[i] == magic()[i] by {
            assert(h.take(8)[i] == h[i]);
        }
    }
}

/// The place `k` mebibytes behind `at`.
pub open spec fn mebibytes_behind(at: int, k: nat) -> int {
    at + k * 1048576
}

/// A search finds the first table at the start or whole mebibytes behind it that
/// the card has room for, and finds none only where none of these places has
/// one.
pub proof fn searches_find_the_first_table(c: Bytes, capacity: u64, sector: u32, at: int)
    requires
        0 <= at,
    ensures
        payload_from(c, capacity, sector, at) matches Some(f) ==> {
            &&& payload_at(c, f.0) == Some(f.1)
            &&& f.0 + sector <= capacity
            &&& exists|k: nat|
                f.0 == #[trigger] mebibytes_behind(at, k) && forall|m: nat|
                    m < k ==> payload_at(c, #[trigger] mebibytes_behind(at, m)) is None
        },
        payload_from(c, capacity, sector, at) is None ==> forall|m: nat|
            #[trigger] mebibytes_behind(at, m) + sector <= capacity ==> payload_at(
                c,
                mebibytes_behind(at, m),
            ) is None,
    decreases capacity + PROBE_STEP - at,
{
    if at + sector > capacity {
    } else if payload_at(c, at) is Some {
        assert(at == mebibytes_behind(at, 0));
    } else {
        let next = at + PROBE_STEP;
        searches_find_the_first_table(c, capacity, sector, next);
        assert forall|m: nat| m > 0 implies #[trigger] mebibytes_behind(at, m) == mebibytes_behind(
            next,
            (m - 1) as nat,
        ) by {}
        match payload_from(c, capacity, sector, next) {
            Some(f) => {
                let j = choose|j: nat|
                    f.0 == #[trigger] mebibytes_behind(next, j) && forall|m: nat|
                        m < j ==> payload_at(c, #[trigger] mebibytes_behind(next, m)) is None;
                let k = (j + 1) as nat;
                assert(f.0 == mebibytes_behind(at, k));
                assert forall|m: nat| m < k implies payload_at(
                    c,
                    #[trigger] mebibytes_behind(at, m),
                ) is None by {
                    if m > 0 {
                        assert(payload_at(c, mebibytes_behind(next, (m - 1) as nat)) is None);
                    }
                }
            },
            None => {
                assert forall|m: nat| #[trigger] mebibytes_behind(at, m) + sector <= capacity implies payload_at(
                    c,
                    mebibytes_behind(at, m),
                ) is None by {
                    if m > 0 {
                        assert(mebibytes_behind(next, (m - 1) as nat) + sector <= capacity);
                    }
                }
            },
        }
    }
}

// ---------------------------------------------------------------------------
// Records
// ---------------------------------------------------------------------------

/// After a write the record of a slot gives the image's length, hash and time,
/// and the slot's place and name.
pub proof fn records_describe_their_image(
    t: TocView,
    jobs: Seq<WriteJobView>,
    hashes: Seq<Seq<char>>,
    times: Seq<u64>,
    k: int,
)
    requires
        0 <= k < jobs.len(),
        forall|i: int|
            k < i < jobs.len() ==> !((#[trigger] jobs[i]).bank == jobs[k].bank && jobs[i].unit
                == jobs[k].unit),
    ensures
        ({
            let after = with_records(t, jobs, hashes, times, jobs.len() as int);
            exists|e: TocEntryView|
                {
                    &&& #[trigger] is_record(after, jobs[k].bank, jobs[k].unit, e)
                    &&& e.length == jobs[k].image_len
                    &&& e.offset == jobs[k].extent.offset
                    &&& e.sha256 == hashes[k]
                    &&& e.name == jobs[k].slot_name
                    &&& e.written_unix == times[k]
                }
        }),
{
    let after = with_records(t, jobs, hashes, times, jobs.len() as int);
    written_slots_are_recorded(t, jobs, hashes, times, jobs.len() as int, k);
    records_are_found_first(after, jobs[k].bank, jobs[k].unit);
    assert(is_record(
        after,
        jobs[k].bank,
        jobs[k].unit,
        entry_for(jobs[k], hashes[k], times[k]),
    ));
}

/// Recording writes keeps the table's version and layout, and drops no record:
/// a table never gets shorter, nor longer than by one record a job.
pub proof fn recording_adds_at_most_one_each(
    t: TocView,
    jobs: Seq<WriteJobView>,
    hashes: Seq<Seq<char>>,
    times: Seq<u64>,
    n: int,
)
    requires
        0 <= n <= jobs.len(),
    ensures
        ({
            let after = with_records(t, jobs, hashes, times, n);
            &&& after.version == t.version
            &&& after.layout_hash == t.layout_hash
            &&& t.entries.len() <= after.entries.len() <= t.entries.len() + n
        }),
    decreases n,
{
    if n > 0 {
        recording_adds_at_most_one_each(t, jobs, hashes, times, n - 1);
    }
}

/// A card's table is updated only where it belongs to the layout; any other
/// card starts from a table without records that belongs to the layout.
pub proof fn foreign_tables_are_dropped(layout: LayoutView, card: Option<TocView>)
    ensures
        ({
            let t = toc_to_update(layout, card);
            &&& t.layout_hash == layout.hash()
            &&& card is Some && card->0.layout_hash == layout.hash() ==> t == card->0
            &&& !(card is Some && card->0.layout_hash == layout.hash()) ==> t.entries.len() == 0
                && t.version == 1
        }),
{
}

/// A wipe leaves the records of all slots that were not wiped.
pub proof fn unwiped_slots_keep_their_record(
    t: TocView,
    layout: LayoutView,
    slots: Seq<(usize, u32)>,
    n: int,
    bank: Seq<char>,
    unit: u32,
)
    requires
        0 <= n <= slots.len(),
        forall|k: int|
            0 <= k < n ==> layout.banks[(#[trigger] slots[k]).0 as int].name != bank || slots[k].1
                != unit,
    ensures
        without_slots(t, layout, slots, n).found(bank, unit) == t.found(bank, unit),
    decreases n,
{
    if n > 0 {
        unwiped_slots_keep_their_record(t, layout, slots, n - 1, bank, unit);
        let name = layout.banks[slots[n - 1].0 as int].name;
        let before = without_slots(t, layout, slots, n - 1);
        removal_drops_one_slot(before, name, slots[n - 1].1);
        assert(before.removed(name, slots[n - 1].1).found(bank, unit) == before.found(bank, unit));
    }
}

// ---------------------------------------------------------------------------
// Slots
// ---------------------------------------------------------------------------

/// An image is written whole, with zeros behind it up to the next sector
/// boundary and not further.
pub proof fn images_are_padded_to_the_sector(data: Seq<u8>, sector: u32)
    requires
        sector > 0,
    ensures
        ({
            let p = padded(data, sector);
            &&& p.len() as int % sector as int == 0
            &&& data.len() <= p.len() < data.len() + sector
            &&& p.take(data.len() as int) == data
            &&& forall|i: int| data.len() <= i < p.len() ==> #[trigger] p[i] == 0
        }),
{
    rounded_up_props(data.len() as int, sector as int);
    let p = padded(data, sector);
    assert(p.take(data.len() as int) =~= data);
}

/// Byte `at` of the card lies in the slot.
pub open spec fn in_slot(layout: LayoutView, slot: (usize, u32), at: int) -> bool {
    let b = layout.banks[slot.0 as int];
    b.base + slot.1 * b.slot_size <= at < b.base + (slot.1 + 1) * b.slot_size
}

/// A wipe makes every byte of the slots that it names zero, and changes no
/// other byte of the card.
pub proof fn wipes_blank_their_slots_alone(
    c: Bytes,
    layout: LayoutView,
    slots: Seq<(usize, u32)>,
    at: int,
)
    requires
        layout.addressable(),
        slots_exist(layout, slots),
    ensures
        ({
            let after = wiped(c, layout, slots, slots.len() as int);
            &&& (exists|k: int| 0 <= k < slots.len() && in_slot(layout, #[trigger] slots[k], at))
                ==> after(at) == 0
            &&& !(exists|k: int| 0 <= k < slots.len() && in_slot(layout, #[trigger] slots[k], at))
                ==> after(at) == c(at)
        }),
{
    let n = slots.len() as int;
    assert forall|k: int| 0 <= k < slots.len() implies (in_slot(layout, #[trigger] slots[k], at)
        <==> extent_of(layout, slots[k]).offset <= at < extent_of(layout, slots[k]).limit()) by {
        slots_lie_at_their_unit(layout, slots[k].0 as int, slots[k].1);
    }
    if exists|k: int| 0 <= k < slots.len() && in_slot(layout, #[trigger] slots[k], at) {
        let k = choose|k: int| 0 <= k < slots.len() && in_slot(layout, #[trigger] slots[k], at);
        assert(extent_of(layout, slots[k]).offset <= at < extent_of(layout, slots[k]).limit());
        wiped_slots_are_blank(c, layout, slots, n, at);
    } else {
        assert(!in_slots(layout, slots, n, at));
        wiped_elsewhere(c, layout, slots, n, at);
    }
}

/// The slot of a job holds, over the length of its image, bytes of that hash.
pub open spec fn holds(c: Bytes, j: WriteJobView, hash: Seq<char>) -> bool {
    sha_hex(Seq::new(j.image_len as nat, |i: int| c(j.extent.offset + i))) == hash
}

proof fn held_hashes(c: Bytes, j: WriteJobView)
    ensures
        forall|hash: Seq<char>| held_hash(c, j) == hash <==> #[trigger] holds(c, j, hash),
{
    let held = Seq::new(j.image_len as nat, |i: int| c(j.extent.offset + i));
    assert(range(c, j.extent.offset as int, j.image_len as nat) =~= held);
}

proof fn first_bad_is_first(
    c: Bytes,
    jobs: Seq<WriteJobView>,
    hashes: Seq<Seq<char>>,
    i: int,
)
    requires
        0 <= i <= jobs.len(),
    ensures
        i <= first_bad(c, jobs, hashes, i) <= jobs.len(),
        forall|k: int|
            i <= k < first_bad(c, jobs, hashes, i) ==> holds(c, #[trigger] jobs[k], hashes[k]),
        first_bad(c, jobs, hashes, i) < jobs.len() ==> !holds(
            c,
            jobs[first_bad(c, jobs, hashes, i)],
            hashes[first_bad(c, jobs, hashes, i)],
        ),
    decreases jobs.len() - i,
{
    if i < jobs.len() {
        held_hashes(c, jobs[i]);
        if held_hash(c, jobs[i]) == hashes[i] {
            assert(holds(c, jobs[i], hashes[i]));
            first_bad_is_first(c, jobs, hashes, i + 1);
        }
    }
}

/// A read-back succeeds exactly when every slot holds bytes of its image's
/// hash; a failure is of the first that does not.
pub proof fn read_backs_fail_at_the_first_difference(
    c: Bytes,
    jobs: Seq<WriteJobView>,
    hashes: Seq<Seq<char>>,
    r: Result<()>,
)
    requires
        verify_outcome(c, jobs, hashes, r),
    ensures
        r is Ok <==> forall|k: int| 0 <= k < jobs.len() ==> holds(c, #[trigger] jobs[k], hashes[k]),
        r matches Err(e) ==> exists|k: int|
            {
                &&& 0 <= k < jobs.len()
                &&& !holds(c, #[trigger] jobs[k], hashes[k])
                &&& forall|m: int| 0 <= m < k ==> holds(c, #[trigger] jobs[m], hashes[m])
                &&& e@ == mismatch(
                    jobs[k],
                    sha_hex(range(c, jobs[k].extent.offset as int, jobs[k].image_len as nat)),
                    hashes[k],
                )
            },
{
    first_bad_is_first(c, jobs, hashes, 0);
    let k = first_bad(c, jobs, hashes, 0);
    if k < jobs.len() {
        assert(!holds(c, jobs[k], hashes[k]));
    }
}

/// A verification names a slot, as its bank and unit, if and only if it does not
/// hold bytes of its image's hash.
#[verifier::rlimit(40)]
pub proof fn verifications_name_what_differs(
    c: Bytes,
    jobs: Seq<WriteJobView>,
    hashes: Seq<Seq<char>>,
    n: int,
)
    requires
        0 <= n <= jobs.len(),
    ensures
        ({
            let d = differing(c, jobs, hashes, n);
            &&& d.len() <= n
            &&& forall|k: int|
                0 <= k < n && !holds(c, #[trigger] jobs[k], hashes[k]) ==> d.contains(
                    jobs[k].bank + ":"@ + dec(jobs[k].unit as nat),
                )
            &&& forall|m: int|
                0 <= m < d.len() ==> exists|k: int|
                    0 <= k < n && !holds(c, #[trigger] jobs[k], hashes[k]) && #[trigger] d[m]
                        == jobs[k].bank + ":"@ + dec(jobs[k].unit as nat)
            &&& d.len() == 0 <==> forall|k: int|
                0 <= k < n ==> holds(c, #[trigger] jobs[k], hashes[k])
            &&& (forall|k: int| 0 <= k < n ==> !holds(c, #[trigger] jobs[k], hashes[k])) ==> d.len()
                == n
        }),
    decreases n,
{
    if n > 0 {
        let rest = differing(c, jobs, hashes, n - 1);
        let d = differing(c, jobs, hashes, n);
        let j = jobs[n - 1];
        verifications_name_what_differs(c, jobs, hashes, n - 1);
        held_hashes(c, j);
        assert(holds(c, j, hashes[n - 1]) <==> held_hash(c, j) == hashes[n - 1]);
        assert forall|k: int| 0 <= k < n && !holds(c, #[trigger] jobs[k], hashes[k]) implies d.contains(
            jobs[k].bank + ":"@ + dec(jobs[k].unit as nat),
        ) by {
            let name = jobs[k].bank + ":"@ + dec(jobs[k].unit as nat);
            if k < n - 1 {
                let m = choose|m: int| 0 <= m < rest.len() && rest[m] == name;
                assert(d[m] == name);
            } else {
                assert(d[rest.len() as int] == name);
            }
        }
        assert forall|m: int| 0 <= m < d.len() implies exists|k: int|
            0 <= k < n && !holds(c, #[trigger] jobs[k], hashes[k]) && #[trigger] d[m]
                == jobs[k].bank + ":"@ + dec(jobs[k].unit as nat) by {
            if m < rest.len() {
                assert(d[m] == rest[m]);
                let k = choose|k: int|
                    0 <= k < n - 1 && !holds(c, #[trigger] jobs[k], hashes[k]) && rest[m]
                        == jobs[k].bank + ":"@ + dec(jobs[k].unit as nat);
                assert(!holds(c, jobs[k], hashes[k]));
            } else {
                assert(!holds(c, jobs[n - 1], hashes[n - 1]));
            }
        }
    }
}

// ---------------------------------------------------------------------------
// Progress and totals
// ---------------------------------------------------------------------------

/// A transfer reports its progress after every chunk: how much is done, which
/// is whole chunks but for the last report, which says that all is.
#[verifier::rlimit(40)]
pub proof fn progress_ends_at_the_total(
    bank: Seq<char>,
    unit: u32,
    done: int,
    len: u64,
    chunk: int,
    k: int,
)
    requires
        0 <= done,
        chunk > 0,
    ensures
        ({
            let p = progress_from(bank, unit, done, len, chunk);
            &&& p.len() == 0 <==> done >= len
            &&& done < len ==> done + (p.len() - 1) * chunk < len <= done + p.len() * chunk
            &&& 0 <= k < p.len() - 1 ==> p[k] == (EventView::Progress {
                bank,
                unit,
                bytes_done: (done + (k + 1) * chunk) as u64,
                bytes_total: len,
            })
            &&& p.len() > 0 ==> p.last() == (EventView::Progress {
                bank,
                unit,
                bytes_done: len,
                bytes_total: len,
            })
        }),
    decreases len - done,
{
    if done < len {
        let stop = next_stop(done, len as int, chunk);
        let rest = progress_from(bank, unit, stop, len, chunk);
        let p = progress_from(bank, unit, done, len, chunk);
        progress_ends_at_the_total(bank, unit, stop, len, chunk, k - 1);
        assert(p.len() == rest.len() + 1);
        if rest.len() > 0 {
            assert(p.last() == rest.last());
            assert(stop == done + chunk);
            let m = rest.len() as int;
            assert(done + (m + 1 - 1) * chunk == stop + (m - 1) * chunk) by (nonlinear_arith)
                requires
                    stop == done + chunk,
            ;
            assert(done + (m + 1) * chunk == stop + m * chunk) by (nonlinear_arith)
                requires
                    stop == done + chunk,
            ;
            if k > 0 && k < p.len() - 1 {
                assert(p[k] == rest[k - 1]);
                assert(done + (k + 1) * chunk == stop + k * chunk) by (nonlinear_arith)
                    requires
                        stop == done + chunk,
                ;
            }
        } else {
            assert(stop == len);
            assert((1 - 1) * chunk == 0 && 1 * chunk == chunk) by (nonlinear_arith);
        }
    }
}

/// The total of a write is the lengths of its images, of a wipe the sizes of its
/// slots, of a read its lengths, and of a scan as many bytes as its probes hash.
pub proof fn totals_add_up(
    layout: LayoutView,
    jobs: Seq<WriteJobView>,
    slots: Seq<(usize, u32)>,
    reads: Seq<crate::engine::plan::ReadJob>,
    items: Seq<StatusItemView>,
    entries: Seq<TocEntryView>,
    n: int,
)
    requires
        0 <= n,
    ensures
        image_total(jobs, 0) == 0,
        image_total(jobs, n + 1) == image_total(jobs, n) + jobs[n].image_len,
        wipe_total(layout, slots, 0) == 0,
        wipe_total(layout, slots, n + 1) == wipe_total(layout, slots, n)
            + layout.banks[slots[n].0 as int].slot_size,
        read_total(reads, 0) == 0,
        read_total(reads, n + 1) == read_total(reads, n) + reads[n].length,
        probe_total(items, 0) == 0,
        probe_total(items, n + 1) == probe_total(items, n) + items[n].probe.bytes(),
        record_total(entries, 0) == 0,
        record_total(entries, n + 1) == record_total(entries, n) + entries[n].length,
{
}

/// A write asks for the image in order and piece by piece: never past its end,
/// never more than a chunk, and less than a chunk only to reach the end.
pub proof fn writes_ask_for_the_next_piece(run: WriteRun, sector: u32)
    requires
        run.wf(sector),
    ensures
        match run.need_view() {
            WriteNeed::Commit => run.at == run.jobs@.len(),
            WriteNeed::Open(k) => k == run.at < run.jobs@.len() && !run.opened,
            WriteNeed::Read { job, offset, want } => {
                let len = run.jobs@[run.at as int].image_len;
                &&& job == run.at < run.jobs@.len()
                &&& run.opened
                &&& offset == run.done
                &&& 0 < want <= run.opts.chunk_size
                &&& offset + want <= len
                &&& want < run.opts.chunk_size ==> offset + want == len
            },
        },
{
}

/// A read takes its slot from its first byte on: the slot's place on the card,
/// whole chunks at a time, up to the length that was asked for.
pub proof fn reads_take_the_slot_in_order(run: ReadRun, layout: LayoutView)
    requires
        run.wf(layout),
        run.created,
    ensures
        ({
            let j = run.jobs@[run.at as int];
            let b = layout.banks[j.bank_idx as int];
            &&& run.offset(layout) == b.base + j.unit * b.slot_size
            &&& run.done < j.length ==> run.done < run.stop() <= j.length
            &&& run.stop() <= run.done + run.chunk_size
            &&& run.stop() < run.done + run.chunk_size ==> run.stop() == j.length
        }),
{
}

/// The events of a written slot give its bank and unit, the image's length at
/// the start, and at the end success and the image's hash.
pub proof fn write_events_tell_the_image(j: WriteJobView, op: OpKind, sha: Seq<char>)
    ensures
        slot_start_event(j, op) matches EventView::SlotStart { op: o, bank, unit, bytes } && o == op
            && bank == j.bank && unit == j.unit && bytes == j.image_len,
        written_event(j, sha) matches EventView::SlotEnd { op: o, bank, unit, ok, detail } && o
            == OpKind::Write && bank == j.bank && unit == j.unit && ok && detail == Some(sha),
{
}

} // verus!

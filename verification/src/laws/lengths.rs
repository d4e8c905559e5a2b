//! How much of a slot is read, and which images may be written.

use vstd::prelude::*;

use crate::drive_types::DriveTypeView;
use crate::engine::plan::{LengthMode, WriteJobView};
use crate::engine::session::{
    asks_toc, bank_of, job_fault, jobs_known, length_value, off_size, size_note, validated_from,
};
use crate::error::ErrorView;
use crate::laws::reports::{has_record, is_record, records_are_found_first};
use crate::layout::{bank_named, LayoutView};
use crate::search::{first_where, first_where_is, first_where_props};
use crate::toc::TocView;

verus! {

/// The bank is of a type whose images all have one size.
pub open spec fn fixed_size(layout: LayoutView, i: int) -> bool {
    layout.banks[i].drive_type is Some && !layout.banks[i].drive_type->0.stream
}

/// Of a bank whose drive type has one image size, that size is read, whether
/// it is asked for or nothing is; and the table does not matter.
pub proof fn canonical_length_is_the_default(
    layout: LayoutView,
    i: int,
    unit: u32,
    toc: Option<TocView>,
    other: Option<TocView>,
)
    requires
        0 <= i < layout.banks.len(),
        fixed_size(layout, i),
        layout.banks[i].drive_type->0.image_bytes <= layout.banks[i].slot_size,
    ensures
        length_value(layout, i, unit, Some(LengthMode::Canonical), toc) == Ok::<u64, ErrorView>(
            layout.banks[i].drive_type->0.image_bytes,
        ),
        length_value(layout, i, unit, None, toc) == length_value(
            layout,
            i,
            unit,
            Some(LengthMode::Canonical),
            other,
        ),
{
}

/// A canonical length is refused exactly where there is none, of stream media
/// and of banks without a type, or where it passes the slot.
pub proof fn canonical_length_needs_a_fixed_size(
    layout: LayoutView,
    i: int,
    unit: u32,
    toc: Option<TocView>,
)
    requires
        0 <= i < layout.banks.len(),
    ensures
        length_value(layout, i, unit, Some(LengthMode::Canonical), toc) is Ok <==> fixed_size(
            layout,
            i,
        ) && layout.banks[i].drive_type->0.image_bytes <= layout.banks[i].slot_size,
{
}

/// The whole slot is read when it is asked for, and any number of bytes that
/// lie in the slot; more is refused.
pub proof fn asked_lengths_are_kept(
    layout: LayoutView,
    i: int,
    unit: u32,
    n: u64,
    toc: Option<TocView>,
)
    requires
        0 <= i < layout.banks.len(),
    ensures
        length_value(layout, i, unit, Some(LengthMode::Slot), toc) == Ok::<u64, ErrorView>(
            layout.banks[i].slot_size,
        ),
        n <= layout.banks[i].slot_size ==> length_value(
            layout,
            i,
            unit,
            Some(LengthMode::Bytes(n)),
            toc,
        ) == Ok::<u64, ErrorView>(n),
        n > layout.banks[i].slot_size ==> length_value(
            layout,
            i,
            unit,
            Some(LengthMode::Bytes(n)),
            toc,
        ) is Err,
{
}

/// The length that a table records of a slot is read when it is asked for, and
/// of stream media and banks without a type when nothing is; without a record
/// the first is refused and the second is the whole slot.
pub proof fn recorded_lengths_are_read(
    layout: LayoutView,
    i: int,
    unit: u32,
    toc: Option<TocView>,
)
    requires
        0 <= i < layout.banks.len(),
    ensures
        ({
            let b = layout.banks[i];
            let asked = length_value(layout, i, unit, Some(LengthMode::Toc), toc);
            let default = length_value(layout, i, unit, None, toc);
            &&& !has_record(toc, b.name, unit) ==> asked is Err && (!fixed_size(layout, i)
                ==> default == Ok::<u64, ErrorView>(b.slot_size))
            &&& has_record(toc, b.name, unit) ==> exists|e: crate::toc::TocEntryView| #[trigger]
                is_record(toc->0, b.name, unit, e) && (e.length <= b.slot_size ==> asked == Ok::<
                    u64,
                    ErrorView,
                >(e.length)) && (e.length > b.slot_size ==> asked is Err)
            &&& has_record(toc, b.name, unit) && !fixed_size(layout, i) ==> default == asked
        }),
{
    let b = layout.banks[i];
    if toc is Some {
        records_are_found_first(toc->0, b.name, unit);
        if has_record(toc, b.name, unit) {
            let e = toc->0.found(b.name, unit)->0;
            assert(is_record(toc->0, b.name, unit, e));
        }
    }
}

/// No length that is read passes the slot, and the table is asked for exactly
/// where it can change the answer.
pub proof fn lengths_stay_in_the_slot(
    layout: LayoutView,
    i: int,
    unit: u32,
    mode: Option<LengthMode>,
    toc: Option<TocView>,
)
    requires
        0 <= i < layout.banks.len(),
    ensures
        length_value(layout, i, unit, mode, toc) matches Ok(n) ==> n <= layout.banks[i].slot_size,
        !asks_toc(layout, i, mode) ==> length_value(layout, i, unit, mode, toc) == length_value(
            layout,
            i,
            unit,
            mode,
            None,
        ),
        asks_toc(layout, i, mode) <==> mode == Some(LengthMode::Toc) || (mode is None
            && !fixed_size(layout, i)),
{
}

// ---------------------------------------------------------------------------
// Validation
// ---------------------------------------------------------------------------

/// The type of the first bank with that name.
pub open spec fn types_bank(layout: LayoutView, name: Seq<char>, t: DriveTypeView) -> bool {
    exists|i: int|
        0 <= i < layout.banks.len() && (#[trigger] layout.banks[i]).name == name
            && layout.banks[i].drive_type == Some(t) && forall|m: int|
            0 <= m < i ==> (#[trigger] layout.banks[m]).name != name
}

/// The job's image is not of the size that its bank's drive type gives to all.
pub open spec fn misses_size(layout: LayoutView, j: WriteJobView) -> bool {
    exists|t: DriveTypeView| #[trigger]
        types_bank(layout, j.bank, t) && !t.stream && j.image_len != t.image_bytes
}

proof fn sizes_missed(layout: LayoutView, j: WriteJobView)
    requires
        bank_of(layout, j.bank) is Some,
    ensures
        off_size(j, bank_of(layout, j.bank)->0.drive_type) <==> misses_size(layout, j),
{
    let p = bank_named(j.bank);
    first_where_props(layout.banks, p);
    let k = first_where(layout.banks, p) as int;
    assert(p(layout.banks[k]));
    assert forall|m: int| 0 <= m < k implies (#[trigger] layout.banks[m]).name != j.bank by {
        assert(!p(layout.banks[m]));
    }
    let d = layout.banks[k].drive_type;
    if off_size(j, d) {
        assert(types_bank(layout, j.bank, d->0));
    }
    if misses_size(layout, j) {
        let t = choose|t: DriveTypeView| #[trigger]
            types_bank(layout, j.bank, t) && !t.stream && j.image_len != t.image_bytes;
        let i = choose|i: int|
            0 <= i < layout.banks.len() && (#[trigger] layout.banks[i]).name == j.bank
                && layout.banks[i].drive_type == Some(t) && forall|m: int|
                0 <= m < i ==> (#[trigger] layout.banks[m]).name != j.bank;
        assert forall|m: int| 0 <= m < i implies !p(#[trigger] layout.banks[m]) by {
            assert(layout.banks[m].name != j.bank);
        }
        first_where_is(layout.banks, p, i);
    }
}

/// The job may be written: its image fits the slot, the slot fits the device
/// unless that grows, and where sizes are strict the image has its type's.
pub open spec fn writable(
    layout: LayoutView,
    j: WriteJobView,
    capacity: u64,
    growable: bool,
    strict: bool,
) -> bool {
    &&& j.image_len <= j.extent.len
    &&& growable || j.extent.offset + j.extent.len <= capacity
    &&& strict ==> !misses_size(layout, j)
}

proof fn validation_from(
    layout: LayoutView,
    jobs: Seq<WriteJobView>,
    capacity: u64,
    growable: bool,
    strict: bool,
    i: int,
    warnings: Seq<Seq<char>>,
)
    requires
        jobs_known(layout, jobs),
        0 <= i <= jobs.len(),
    ensures
        ({
            let r = validated_from(layout, jobs, capacity, growable, strict, i, warnings);
            &&& r is Ok <==> {
                &&& forall|k: int|
                    i <= k < jobs.len() ==> writable(
                        layout,
                        #[trigger] jobs[k],
                        capacity,
                        growable,
                        strict,
                    )
                &&& layout.toc_offset matches Some(t) ==> growable || t + 131072 <= capacity
            }
            &&& r matches Ok(w) ==> {
                &&& warnings.len() <= w.len() <= warnings.len() + (jobs.len() - i)
                &&& w.take(warnings.len() as int) == warnings
                &&& (forall|k: int| i <= k < jobs.len() ==> !misses_size(layout, #[trigger] jobs[k]))
                    ==> w == warnings
                &&& (forall|k: int| i <= k < jobs.len() ==> misses_size(layout, #[trigger] jobs[k]))
                    ==> w.len() == warnings.len() + (jobs.len() - i)
                &&& forall|k: int|
                    i <= k < jobs.len() && misses_size(layout, #[trigger] jobs[k]) ==> w.contains(
                        size_note(jobs[k], bank_of(layout, jobs[k].bank)->0.drive_type->0),
                    )
            }
        }),
    decreases jobs.len() - i,
{
    if i < jobs.len() {
        sizes_missed(layout, jobs[i]);
        let t = bank_of(layout, jobs[i].bank)->0.drive_type;
        let note = size_note(jobs[i], t->0);
        let next = if off_size(jobs[i], t) {
            warnings.push(note)
        } else {
            warnings
        };
        if job_fault(layout, jobs[i], capacity, growable, strict) is None {
            validation_from(layout, jobs, capacity, growable, strict, i + 1, next);
            let r = validated_from(layout, jobs, capacity, growable, strict, i, warnings);
            if r is Ok {
                let w = r->Ok_0;
                assert(w.take(warnings.len() as int) =~= next.take(warnings.len() as int)) by {
                    assert(w.take(next.len() as int) == next);
                    assert forall|m: int| 0 <= m < warnings.len() implies w[m] == next[m] by {
                        assert(w.take(next.len() as int)[m] == next[m]);
                    }
                }
                assert(next.take(warnings.len() as int) =~= warnings);
                if off_size(jobs[i], t) {
                    assert(w.take(next.len() as int)[warnings.len() as int] == note);
                    assert(w[warnings.len() as int] == note);
                    assert(w.contains(note));
                }
            }
        }
    } else {
        assert(warnings.take(warnings.len() as int) =~= warnings);
    }
}

/// Jobs are accepted exactly when each may be written and the TOC region lies
/// on the device; an image of the wrong size is then warned of, and nothing is
/// warned of where all sizes are right.
pub proof fn validation_is_exact(
    layout: LayoutView,
    jobs: Seq<WriteJobView>,
    capacity: u64,
    growable: bool,
    strict: bool,
)
    requires
        jobs_known(layout, jobs),
    ensures
        ({
            let r = validated_from(layout, jobs, capacity, growable, strict, 0, Seq::empty());
            &&& r is Ok <==> {
                &&& forall|k: int|
                    0 <= k < jobs.len() ==> writable(
                        layout,
                        #[trigger] jobs[k],
                        capacity,
                        growable,
                        strict,
                    )
                &&& layout.toc_offset matches Some(t) ==> growable || t + 131072 <= capacity
            }
            &&& r matches Ok(w) ==> {
                &&& w.len() <= jobs.len()
                &&& (forall|k: int| 0 <= k < jobs.len() ==> !misses_size(layout, #[trigger] jobs[k]))
                    ==> w.len() == 0
                &&& (forall|k: int| 0 <= k < jobs.len() ==> misses_size(layout, #[trigger] jobs[k]))
                    ==> w.len() == jobs.len()
                &&& strict ==> w.len() == 0
                &&& forall|k: int|
                    0 <= k < jobs.len() && misses_size(layout, #[trigger] jobs[k]) ==> w.contains(
                        size_note(jobs[k], bank_of(layout, jobs[k].bank)->0.drive_type->0),
                    )
            }
        }),
{
    validation_from(layout, jobs, capacity, growable, strict, 0, Seq::empty());
    let r = validated_from(layout, jobs, capacity, growable, strict, 0, Seq::empty());
    if r is Ok && strict {
        assert forall|k: int| 0 <= k < jobs.len() implies !misses_size(
            layout,
            #[trigger] jobs[k],
        ) by {
            assert(writable(layout, jobs[k], capacity, growable, strict));
        }
    }
}

} // verus!

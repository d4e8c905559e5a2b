//! What holds across operations: a card gives back what was written to it.

use vstd::prelude::*;

use crate::device::{overwrite, range, read_back, write_leaves_others, zeros, Bytes};
use crate::engine::plan::{
    default_from, job_for, override_job, overrides_from, planned, repeated_target, same_target,
    target_repeats, ImageFactView, ImageFacts, WriteJobView,
};
use crate::engine::session::{
    bank_of, jobs_known, off_size, size_note, toc_written, usable, validated_from,
};
use crate::engine::status::{probe_for, report_of, StatusItemView};
use crate::engine::verify::{first_bad, with_records, written_slots_are_recorded};
use crate::engine::wipe::{
    extent_of, in_slots, slot_is_aligned, slots_exist, wiped, wiped_slots_are_blank,
    wiped_slots_have_no_record, without_slots,
};
use crate::engine::write::{padded, streamed};
use crate::error::ErrorView;
use crate::events::SlotState;
use crate::layout::{
    bank_named, disjoint, slots_lie_in_their_bank, LayoutView, SlotAssign, TOC_REGION_LEN,
};
use crate::search::{first_where_is, first_where_props};
use crate::toc::{
    framed, framed_payload_reads_back, payload_at, rounded_up, rounded_up_monotone,
    rounded_up_props, sha_hex, TocView, HEADER_LEN,
};

verus! {

/// The job writes an image that fits into a slot of the layout.
pub open spec fn fits_slot(layout: LayoutView, j: WriteJobView, slot: (usize, u32)) -> bool {
    &&& slot.0 < layout.banks.len()
    &&& slot.1 < layout.banks[slot.0 as int].units
    &&& j.extent == extent_of(layout, slot)
    &&& j.image_len <= j.extent.len
}

/// Jobs that write images which fit into slots of the layout, each its own.
pub open spec fn fit_own_slots(
    layout: LayoutView,
    jobs: Seq<WriteJobView>,
    slots: Seq<(usize, u32)>,
) -> bool {
    &&& slots.len() == jobs.len()
    &&& forall|i: int| 0 <= i < jobs.len() ==> fits_slot(layout, #[trigger] jobs[i], slots[i])
    &&& forall|i: int, k: int|
        0 <= i < k < jobs.len() ==> #[trigger] slots[i] != #[trigger] slots[k]
}

/// Two slots of a layout do not meet.
pub proof fn slots_are_apart(layout: LayoutView, a: (usize, u32), b: (usize, u32))
    requires
        usable(layout),
        a.0 < layout.banks.len(),
        a.1 < layout.banks[a.0 as int].units,
        b.0 < layout.banks.len(),
        b.1 < layout.banks[b.0 as int].units,
        a != b,
    ensures
        disjoint(
            extent_of(layout, a).offset as int,
            extent_of(layout, a).limit(),
            extent_of(layout, b).offset as int,
            extent_of(layout, b).limit(),
        ),
{
    slot_is_aligned(layout, a);
    slot_is_aligned(layout, b);
    let x = layout.banks[a.0 as int];
    let y = layout.banks[b.0 as int];
    slots_lie_in_their_bank(x, a.1 as int);
    slots_lie_in_their_bank(y, b.1 as int);
    if a.0 == b.0 {
        if a.1 < b.1 {
            assert(x.offset_of(a.1 as int) + x.slot_size <= x.offset_of(b.1 as int));
        } else {
            assert(x.offset_of(b.1 as int) + x.slot_size <= x.offset_of(a.1 as int));
        }
    } else if a.0 < b.0 {
        assert(disjoint(x.base as int, x.end(), y.base as int, y.end()));
    } else {
        assert(disjoint(y.base as int, y.end(), x.base as int, x.end()));
    }
}

/// A slot and the TOC region, taken in whole sectors, do not meet.
pub proof fn slot_and_toc_are_apart(layout: LayoutView, a: (usize, u32))
    requires
        usable(layout),
        a.0 < layout.banks.len(),
        a.1 < layout.banks[a.0 as int].units,
        layout.toc_offset is Some,
    ensures
        disjoint(
            extent_of(layout, a).offset as int,
            extent_of(layout, a).limit(),
            layout.toc_offset->0 as int,
            layout.toc_offset->0 + rounded_up(TOC_REGION_LEN as int, layout.sector_size as int),
        ),
{
    slot_is_aligned(layout, a);
    slots_lie_in_their_bank(layout.banks[a.0 as int], a.1 as int);
    let s = layout.sector_size as int;
    let t = layout.toc_offset->0 as int;
    let e = extent_of(layout, a).offset as int;
    if t + TOC_REGION_LEN <= e {
        // Both start on sector boundaries, so whole sectors lie between them.
        vstd::arithmetic::div_mod::lemma_sub_mod_noop(e, t, s);
        assert((e - t) % s == 0);
        rounded_up_monotone(TOC_REGION_LEN as int, e - t, s);
        rounded_up_props(e - t, s);
    }
}

proof fn padded_fits(layout: LayoutView, j: WriteJobView, slot: (usize, u32), image: Seq<u8>)
    requires
        usable(layout),
        fits_slot(layout, j, slot),
        image.len() == j.image_len,
    ensures
        padded(image, layout.sector_size).len() <= j.extent.len,
        padded(image, layout.sector_size).len() == rounded_up(
            j.image_len as int,
            layout.sector_size as int,
        ),
{
    slot_is_aligned(layout, slot);
    let s = layout.sector_size as int;
    rounded_up_props(image.len() as int, s);
    rounded_up_monotone(j.image_len as int, j.extent.len as int, s);
    rounded_up_props(j.extent.len as int, s);
}

/// Once the first `n` images are on the card, slot `k` of them holds its
/// image, and any range apart from all their slots is as it was.
pub proof fn streamed_images_are_held(
    c: Bytes,
    layout: LayoutView,
    jobs: Seq<WriteJobView>,
    images: Seq<Seq<u8>>,
    slots: Seq<(usize, u32)>,
    n: int,
    k: int,
)
    requires
        usable(layout),
        fit_own_slots(layout, jobs, slots),
        0 <= k < n <= jobs.len() <= images.len(),
        forall|i: int| 0 <= i < n ==> (#[trigger] images[i]).len() == jobs[i].image_len,
    ensures
        range(
            streamed(c, jobs, images, n, layout.sector_size),
            jobs[k].extent.offset as int,
            jobs[k].image_len as nat,
        ) == images[k],
    decreases n,
{
    let sector = layout.sector_size;
    let before = streamed(c, jobs, images, n - 1, sector);
    let j = jobs[n - 1];
    let data = padded(images[n - 1], sector);
    assert(images[n - 1].len() == jobs[n - 1].image_len);
    padded_fits(layout, j, slots[n - 1], images[n - 1]);
    if k == n - 1 {
        let after = overwrite(before, j.extent.offset as int, data);
        assert(range(after, j.extent.offset as int, j.image_len as nat) =~= images[k]);
    } else {
        streamed_images_are_held(c, layout, jobs, images, slots, n - 1, k);
        assert(fits_slot(layout, jobs[k], slots[k]));
        assert(slots[k] != slots[n - 1]);
        slots_are_apart(layout, slots[k], slots[n - 1]);
        write_leaves_others(
            before,
            j.extent.offset as int,
            data,
            jobs[k].extent.offset as int,
            jobs[k].image_len as nat,
        );
    }
}

/// Writing images touches their slots alone: every other slot of the layout
/// keeps its bytes.
pub proof fn other_slots_are_untouched(
    c: Bytes,
    layout: LayoutView,
    jobs: Seq<WriteJobView>,
    images: Seq<Seq<u8>>,
    slots: Seq<(usize, u32)>,
    n: int,
    other: (usize, u32),
)
    requires
        usable(layout),
        fit_own_slots(layout, jobs, slots),
        0 <= n <= jobs.len() <= images.len(),
        forall|i: int| 0 <= i < n ==> (#[trigger] images[i]).len() == jobs[i].image_len,
        other.0 < layout.banks.len(),
        other.1 < layout.banks[other.0 as int].units,
        !slots.contains(other),
    ensures
        range(
            streamed(c, jobs, images, n, layout.sector_size),
            extent_of(layout, other).offset as int,
            extent_of(layout, other).len as nat,
        ) == range(c, extent_of(layout, other).offset as int, extent_of(layout, other).len as nat),
    decreases n,
{
    if n > 0 {
        other_slots_are_untouched(c, layout, jobs, images, slots, n - 1, other);
        let sector = layout.sector_size;
        let before = streamed(c, jobs, images, n - 1, sector);
        let j = jobs[n - 1];
        assert(images[n - 1].len() == jobs[n - 1].image_len);
        padded_fits(layout, j, slots[n - 1], images[n - 1]);
        assert(slots[n - 1] != other);
        slots_are_apart(layout, slots[n - 1], other);
        write_leaves_others(
            before,
            j.extent.offset as int,
            padded(images[n - 1], sector),
            extent_of(layout, other).offset as int,
            extent_of(layout, other).len as nat,
        );
    }
}

/// A TOC write of a payload that fits leaves every slot.
pub proof fn toc_write_leaves_slots(
    c: Bytes,
    layout: LayoutView,
    payload: Seq<u8>,
    slot: (usize, u32),
    len: nat,
)
    requires
        usable(layout),
        layout.toc_offset is Some ==> HEADER_LEN + payload.len() <= TOC_REGION_LEN,
        slot.0 < layout.banks.len(),
        slot.1 < layout.banks[slot.0 as int].units,
        len <= extent_of(layout, slot).len,
    ensures
        range(
            toc_written(layout.toc_offset, layout.sector_size, payload, c),
            extent_of(layout, slot).offset as int,
            len,
        ) == range(c, extent_of(layout, slot).offset as int, len),
{
    if layout.toc_offset is Some {
        slot_and_toc_are_apart(layout, slot);
        let s = layout.sector_size as int;
        crate::powers::power_positive(s);
        rounded_up_props(HEADER_LEN + payload.len(), s);
        rounded_up_monotone(HEADER_LEN + payload.len(), TOC_REGION_LEN as int, s);
        write_leaves_others(
            c,
            layout.toc_offset->0 as int,
            framed(payload, layout.sector_size),
            extent_of(layout, slot).offset as int,
            len,
        );
    }
}

/// What the library is for: after a write run and its TOC, reading a written
/// slot at its image's length gives back the image, byte for byte, and a
/// verify pass over the run finds nothing.
pub proof fn written_images_read_back(
    c: Bytes,
    layout: LayoutView,
    jobs: Seq<WriteJobView>,
    images: Seq<Seq<u8>>,
    hashes: Seq<Seq<char>>,
    slots: Seq<(usize, u32)>,
    payload: Seq<u8>,
)
    requires
        usable(layout),
        fit_own_slots(layout, jobs, slots),
        images.len() == jobs.len(),
        hashes.len() == jobs.len(),
        forall|i: int|
            0 <= i < jobs.len() ==> (#[trigger] images[i]).len() == jobs[i].image_len && hashes[i]
                == sha_hex(images[i]),
        layout.toc_offset is Some ==> HEADER_LEN + payload.len() <= TOC_REGION_LEN,
    ensures
        ({
            let after = toc_written(
                layout.toc_offset,
                layout.sector_size,
                payload,
                streamed(c, jobs, images, jobs.len() as int, layout.sector_size),
            );
            &&& forall|k: int|
                0 <= k < jobs.len() ==> range(
                    after,
                    (#[trigger] jobs[k]).extent.offset as int,
                    jobs[k].image_len as nat,
                ) == images[k]
            &&& first_bad(after, jobs, hashes, 0) == jobs.len()
            &&& layout.toc_offset matches Some(t) ==> payload_at(after, t as int) == Some(payload)
        }),
{
    let n = jobs.len() as int;
    let mid = streamed(c, jobs, images, n, layout.sector_size);
    let after = toc_written(layout.toc_offset, layout.sector_size, payload, mid);
    assert forall|k: int| 0 <= k < jobs.len() implies range(
        after,
        (#[trigger] jobs[k]).extent.offset as int,
        jobs[k].image_len as nat,
    ) == images[k] by {
        streamed_images_are_held(c, layout, jobs, images, slots, n, k);
        assert(fits_slot(layout, jobs[k], slots[k]));
        toc_write_leaves_slots(mid, layout, payload, slots[k], jobs[k].image_len as nat);
    }
    nothing_bad(after, jobs, images, hashes, 0);
    if layout.toc_offset is Some {
        crate::powers::power_positive(layout.sector_size as int);
        framed_payload_reads_back(
            mid,
            layout.toc_offset->0 as int,
            payload,
            layout.sector_size,
        );
    }
}

proof fn nothing_bad(
    c: Bytes,
    jobs: Seq<WriteJobView>,
    images: Seq<Seq<u8>>,
    hashes: Seq<Seq<char>>,
    i: int,
)
    requires
        0 <= i <= jobs.len(),
        images.len() == jobs.len(),
        forall|k: int|
            0 <= k < jobs.len() ==> range(
                c,
                (#[trigger] jobs[k]).extent.offset as int,
                jobs[k].image_len as nat,
            ) == images[k],
        forall|k: int| 0 <= k < jobs.len() ==> hashes[k] == sha_hex(#[trigger] images[k]),
    ensures
        first_bad(c, jobs, hashes, i) == jobs.len(),
    decreases jobs.len() - i,
{
    if i < jobs.len() {
        assert(hashes[i] == sha_hex(images[i]));
        assert(range(c, jobs[i].extent.offset as int, jobs[i].image_len as nat) == images[i]);
        nothing_bad(c, jobs, images, hashes, i + 1);
    }
}

/// A slot that is wiped and one that is not: zeros in the first, and the
/// second as it was.
pub proof fn wiping_one_slot_leaves_others(
    c: Bytes,
    layout: LayoutView,
    slot: (usize, u32),
    other: (usize, u32),
)
    requires
        usable(layout),
        slot.0 < layout.banks.len(),
        slot.1 < layout.banks[slot.0 as int].units,
        other.0 < layout.banks.len(),
        other.1 < layout.banks[other.0 as int].units,
        slot != other,
    ensures
        ({
            let after = wiped(c, layout, seq![slot], 1);
            let e = extent_of(layout, slot);
            let o = extent_of(layout, other);
            &&& range(after, e.offset as int, e.len as nat) == zeros(e.len as nat)
            &&& range(after, o.offset as int, o.len as nat) == range(
                c,
                o.offset as int,
                o.len as nat,
            )
        }),
{
    let e = extent_of(layout, slot);
    let o = extent_of(layout, other);
    reveal_with_fuel(wiped, 2);
    slots_are_apart(layout, slot, other);
    read_back(c, e.offset as int, zeros(e.len as nat));
    write_leaves_others(c, e.offset as int, zeros(e.len as nat), o.offset as int, o.len as nat);
}

// ---------------------------------------------------------------------------
// Planned jobs
// ---------------------------------------------------------------------------

/// The slot that a job of a layout writes.
pub open spec fn slot_of(layout: LayoutView, j: WriteJobView) -> (usize, u32) {
    (layout.bank_index(j.bank) as usize, j.unit)
}

pub open spec fn slots_of(layout: LayoutView, jobs: Seq<WriteJobView>) -> Seq<(usize, u32)> {
    jobs.map_values(|j: WriteJobView| slot_of(layout, j))
}

/// The job names a slot of the layout, and has its extent.
pub open spec fn from_layout(layout: LayoutView, j: WriteJobView) -> bool {
    let i = layout.bank_index(j.bank) as int;
    &&& i < layout.banks.len()
    &&& j.unit < layout.banks[i].units
    &&& j.extent == layout.slot_extent(i, j.unit as int)
}

pub open spec fn all_from_layout(layout: LayoutView, jobs: Seq<WriteJobView>) -> bool {
    forall|i: int| 0 <= i < jobs.len() ==> from_layout(layout, #[trigger] jobs[i])
}

proof fn bank_finds_itself(layout: LayoutView, i: int)
    requires
        layout.valid(),
        0 <= i < layout.banks.len(),
    ensures
        layout.bank_index(layout.banks[i].name) == i,
{
    first_where_is(layout.banks, bank_named(layout.banks[i].name), i);
}

proof fn made_job_is_from_layout(
    layout: LayoutView,
    idx: int,
    unit: u32,
    image: Seq<char>,
    fact: ImageFactView,
)
    requires
        layout.valid(),
        0 <= idx < layout.banks.len(),
        unit < layout.banks[idx].units,
    ensures
        job_for(layout, idx, unit, image, fact) matches Ok(j) ==> from_layout(layout, j),
{
    bank_finds_itself(layout, idx);
}

proof fn default_jobs_are_from_layout(
    layout: LayoutView,
    facts: ImageFacts,
    i: int,
    u: int,
    acc: Seq<WriteJobView>,
)
    requires
        layout.valid(),
        all_from_layout(layout, acc),
    ensures
        default_from(layout, facts, i, u, acc) matches Ok(js) ==> all_from_layout(layout, js),
    decreases layout.banks.len() - i, layout.banks[i].units - u,
{
    if i < 0 || i >= layout.banks.len() || u < 0 {
    } else if u >= layout.banks[i].units {
        default_jobs_are_from_layout(layout, facts, i + 1, 0, acc);
    } else {
        match layout.banks[i].image_of(u as u32) {
            None => {
                default_jobs_are_from_layout(layout, facts, i, u + 1, acc);
            },
            Some(image) => {
                made_job_is_from_layout(layout, i, u as u32, image, facts.fact(image));
                match job_for(layout, i, u as u32, image, facts.fact(image)) {
                    Ok(job) => {
                        default_jobs_are_from_layout(layout, facts, i, u + 1, acc.push(job));
                    },
                    Err(_) => {},
                }
            },
        }
    }
}

proof fn override_jobs_are_from_layout(
    layout: LayoutView,
    facts: ImageFacts,
    overrides: Seq<SlotAssign>,
    i: int,
    acc: Seq<WriteJobView>,
)
    requires
        layout.valid(),
        all_from_layout(layout, acc),
    ensures
        overrides_from(layout, facts, overrides, i, acc) matches Ok(js) ==> all_from_layout(
            layout,
            js,
        ),
    decreases overrides.len() - i,
{
    if 0 <= i < overrides.len() {
        match override_job(layout, facts, overrides[i]@) {
            Ok(job) => {
                let place = layout.resolved(overrides[i]@.slot)->Ok_0;
                first_where_props(
                    layout.banks,
                    bank_named(
                        match overrides[i]@.slot.bank {
                            Some(b) => b,
                            None => Seq::empty(),
                        },
                    ),
                );
                let image = if overrides[i]@.image is Some {
                    overrides[i]@.image->0
                } else {
                    layout.banks[place.0].image_of(place.1)->0
                };
                made_job_is_from_layout(layout, place.0, place.1, image, facts.fact(image));
                override_jobs_are_from_layout(layout, facts, overrides, i + 1, acc.push(job));
            },
            Err(_) => {},
        }
    }
}

proof fn no_target_repeats(jobs: Seq<WriteJobView>, start: int, i: int, k: int)
    requires
        0 <= start <= i < k < jobs.len(),
        repeated_target(jobs, start) is None,
    ensures
        !same_target(jobs[k], jobs[i]),
    decreases i - start,
{
    if start < i {
        no_target_repeats(jobs, start + 1, i, k);
    } else {
        assert(!target_repeats(jobs, i));
    }
}

proof fn validated_images_fit(
    layout: LayoutView,
    jobs: Seq<WriteJobView>,
    capacity: u64,
    growable: bool,
    strict: bool,
    i: int,
    acc: Seq<Seq<char>>,
    k: int,
)
    requires
        0 <= i <= k < jobs.len(),
        validated_from(layout, jobs, capacity, growable, strict, i, acc) is Ok,
    ensures
        jobs[k].image_len <= jobs[k].extent.len,
    decreases k - i,
{
    if i < k {
        let t = bank_of(layout, jobs[i].bank)->0.drive_type;
        let next = if off_size(jobs[i], t) {
            acc.push(size_note(jobs[i], t->0))
        } else {
            acc
        };
        validated_images_fit(layout, jobs, capacity, growable, strict, i + 1, next, k);
    }
}

/// A plan's jobs, once validated, write images that fit into slots of the
/// layout, each its own.
pub proof fn planned_jobs_have_their_own_slots(
    layout: LayoutView,
    overrides: Seq<SlotAssign>,
    facts: ImageFacts,
    jobs: Seq<WriteJobView>,
    capacity: u64,
    growable: bool,
    strict: bool,
)
    requires
        layout.valid(),
        layout.banks.len() <= usize::MAX,
        planned(layout, overrides, facts) == Ok::<Seq<WriteJobView>, ErrorView>(jobs),
        validated_from(layout, jobs, capacity, growable, strict, 0, Seq::empty()) is Ok,
    ensures
        fit_own_slots(layout, jobs, slots_of(layout, jobs)),
{
    if overrides.len() == 0 {
        default_jobs_are_from_layout(layout, facts, 0, 0, Seq::empty());
    } else {
        override_jobs_are_from_layout(layout, facts, overrides, 0, Seq::empty());
    }
    let slots = slots_of(layout, jobs);
    assert forall|i: int| 0 <= i < jobs.len() implies fits_slot(
        layout,
        #[trigger] jobs[i],
        slots[i],
    ) by {
        assert(from_layout(layout, jobs[i]));
        validated_images_fit(layout, jobs, capacity, growable, strict, 0, Seq::empty(), i);
    }
    assert forall|i: int, k: int| 0 <= i < k < jobs.len() implies #[trigger] slots[i]
        != #[trigger] slots[k] by {
        no_target_repeats(jobs, 0, i, k);
        assert(from_layout(layout, jobs[i]) && from_layout(layout, jobs[k]));
        first_where_props(layout.banks, bank_named(jobs[i].bank));
        first_where_props(layout.banks, bank_named(jobs[k].bank));
    }
}

/// What a plan hands on can be validated: its jobs name banks of the layout, and
/// their extents end within 64 bits.
pub proof fn planned_jobs_are_known(
    layout: LayoutView,
    overrides: Seq<SlotAssign>,
    facts: ImageFacts,
    jobs: Seq<WriteJobView>,
)
    requires
        layout.valid(),
        layout.addressable(),
        planned(layout, overrides, facts) == Ok::<Seq<WriteJobView>, ErrorView>(jobs),
    ensures
        jobs_known(layout, jobs),
{
    if overrides.len() == 0 {
        default_jobs_are_from_layout(layout, facts, 0, 0, Seq::empty());
    } else {
        override_jobs_are_from_layout(layout, facts, overrides, 0, Seq::empty());
    }
    assert forall|i: int| 0 <= i < jobs.len() implies bank_of(
        layout,
        (#[trigger] jobs[i]).bank,
    ) is Some && jobs[i].extent.limit() <= u64::MAX by {
        assert(from_layout(layout, jobs[i]));
        let b = layout.bank_index(jobs[i].bank) as int;
        slots_lie_in_their_bank(layout.banks[b], jobs[i].unit as int);
    }
}

/// The same from the manifest on: what a plan that was validated writes reads
/// back, byte for byte, slot by slot.
pub proof fn planned_writes_read_back(
    c: Bytes,
    layout: LayoutView,
    overrides: Seq<SlotAssign>,
    facts: ImageFacts,
    jobs: Seq<WriteJobView>,
    capacity: u64,
    growable: bool,
    strict: bool,
    images: Seq<Seq<u8>>,
    hashes: Seq<Seq<char>>,
    payload: Seq<u8>,
)
    requires
        usable(layout),
        layout.banks.len() <= usize::MAX,
        planned(layout, overrides, facts) == Ok::<Seq<WriteJobView>, ErrorView>(jobs),
        validated_from(layout, jobs, capacity, growable, strict, 0, Seq::empty()) is Ok,
        images.len() == jobs.len(),
        hashes.len() == jobs.len(),
        forall|i: int|
            0 <= i < jobs.len() ==> (#[trigger] images[i]).len() == jobs[i].image_len && hashes[i]
                == sha_hex(images[i]),
        layout.toc_offset is Some ==> HEADER_LEN + payload.len() <= TOC_REGION_LEN,
    ensures
        ({
            let after = toc_written(
                layout.toc_offset,
                layout.sector_size,
                payload,
                streamed(c, jobs, images, jobs.len() as int, layout.sector_size),
            );
            &&& forall|k: int|
                0 <= k < jobs.len() ==> range(
                    after,
                    (#[trigger] jobs[k]).extent.offset as int,
                    jobs[k].image_len as nat,
                ) == images[k]
            &&& first_bad(after, jobs, hashes, 0) == jobs.len()
            &&& layout.toc_offset matches Some(t) ==> payload_at(after, t as int) == Some(payload)
        }),
{
    planned_jobs_have_their_own_slots(layout, overrides, facts, jobs, capacity, growable, strict);
    written_images_read_back(
        c,
        layout,
        jobs,
        images,
        hashes,
        slots_of(layout, jobs),
        payload,
    );
}

// ---------------------------------------------------------------------------
// Bytes elsewhere, and what a scan says
// ---------------------------------------------------------------------------

/// A byte that lies in none of the first `n` jobs' slots.
pub open spec fn in_no_slot(jobs: Seq<WriteJobView>, n: int, at: int) -> bool {
    forall|i: int|
        0 <= i < n ==> at < (#[trigger] jobs[i]).extent.offset || jobs[i].extent.limit() <= at
}

/// Only the named slots and the TOC region, taken in whole sectors, are touched:
/// every other byte of the card is as it was.
pub proof fn bytes_elsewhere_are_untouched(
    c: Bytes,
    layout: LayoutView,
    jobs: Seq<WriteJobView>,
    images: Seq<Seq<u8>>,
    slots: Seq<(usize, u32)>,
    n: int,
    payload: Seq<u8>,
    at: int,
)
    requires
        usable(layout),
        fit_own_slots(layout, jobs, slots),
        0 <= n <= jobs.len() <= images.len(),
        forall|i: int| 0 <= i < n ==> (#[trigger] images[i]).len() == jobs[i].image_len,
        layout.toc_offset is Some ==> HEADER_LEN + payload.len() <= TOC_REGION_LEN,
        in_no_slot(jobs, n, at),
        layout.toc_offset matches Some(t) ==> at < t || t + rounded_up(
            TOC_REGION_LEN as int,
            layout.sector_size as int,
        ) <= at,
    ensures
        toc_written(
            layout.toc_offset,
            layout.sector_size,
            payload,
            streamed(c, jobs, images, n, layout.sector_size),
        )(at) == c(at),
{
    streams_leave_other_bytes(c, layout, jobs, images, slots, n, at);
    if layout.toc_offset is Some {
        let s = layout.sector_size as int;
        crate::powers::power_positive(s);
        rounded_up_props(HEADER_LEN + payload.len(), s);
        rounded_up_monotone(HEADER_LEN + payload.len(), TOC_REGION_LEN as int, s);
    }
}

proof fn streams_leave_other_bytes(
    c: Bytes,
    layout: LayoutView,
    jobs: Seq<WriteJobView>,
    images: Seq<Seq<u8>>,
    slots: Seq<(usize, u32)>,
    n: int,
    at: int,
)
    requires
        usable(layout),
        fit_own_slots(layout, jobs, slots),
        0 <= n <= jobs.len() <= images.len(),
        forall|i: int| 0 <= i < n ==> (#[trigger] images[i]).len() == jobs[i].image_len,
        in_no_slot(jobs, n, at),
    ensures
        streamed(c, jobs, images, n, layout.sector_size)(at) == c(at),
    decreases n,
{
    if n > 0 {
        streams_leave_other_bytes(c, layout, jobs, images, slots, n - 1, at);
        assert(images[n - 1].len() == jobs[n - 1].image_len);
        assert(fits_slot(layout, jobs[n - 1], slots[n - 1]));
        padded_fits(layout, jobs[n - 1], slots[n - 1], images[n - 1]);
    }
}

/// A slot that a plan wrote scans as matching by its TOC record, until something
/// else writes to the card.
pub proof fn written_slots_scan_as_matching(
    c: Bytes,
    layout: LayoutView,
    overrides: Seq<SlotAssign>,
    facts: ImageFacts,
    jobs: Seq<WriteJobView>,
    capacity: u64,
    growable: bool,
    strict: bool,
    images: Seq<Seq<u8>>,
    hashes: Seq<Seq<char>>,
    times: Seq<u64>,
    before: TocView,
    payload: Seq<u8>,
    k: int,
    facts_then: ImageFacts,
    file_hash: Seq<char>,
)
    requires
        usable(layout),
        layout.banks.len() <= usize::MAX,
        planned(layout, overrides, facts) == Ok::<Seq<WriteJobView>, ErrorView>(jobs),
        validated_from(layout, jobs, capacity, growable, strict, 0, Seq::empty()) is Ok,
        images.len() == jobs.len(),
        hashes.len() == jobs.len(),
        forall|i: int|
            0 <= i < jobs.len() ==> (#[trigger] images[i]).len() == jobs[i].image_len && hashes[i]
                == sha_hex(images[i]),
        layout.toc_offset is Some ==> HEADER_LEN + payload.len() <= TOC_REGION_LEN,
        0 <= k < jobs.len(),
    ensures
        ({
            let after = toc_written(
                layout.toc_offset,
                layout.sector_size,
                payload,
                streamed(c, jobs, images, jobs.len() as int, layout.sector_size),
            );
            let toc = with_records(before, jobs, hashes, times, jobs.len() as int);
            let idx = layout.bank_index(jobs[k].bank) as int;
            let item = StatusItemView {
                bank_idx: idx,
                unit: jobs[k].unit,
                probe: probe_for(layout, idx, jobs[k].unit, Some(toc), facts_then),
            };
            let report = report_of(layout, after, item, file_hash);
            &&& report.state == SlotState::Matches
            &&& report.name == jobs[k].slot_name
            &&& report.length == Some(jobs[k].image_len)
        }),
{
    planned_writes_read_back(
        c,
        layout,
        overrides,
        facts,
        jobs,
        capacity,
        growable,
        strict,
        images,
        hashes,
        payload,
    );
    if overrides.len() == 0 {
        default_jobs_are_from_layout(layout, facts, 0, 0, Seq::empty());
    } else {
        override_jobs_are_from_layout(layout, facts, overrides, 0, Seq::empty());
    }
    assert(from_layout(layout, jobs[k]));
    let idx = layout.bank_index(jobs[k].bank) as int;
    first_where_props(layout.banks, bank_named(jobs[k].bank));
    assert(layout.banks[idx].name == jobs[k].bank);
    assert forall|i: int| k < i < jobs.len() implies !((#[trigger] jobs[i]).bank == jobs[k].bank
        && jobs[i].unit == jobs[k].unit) by {
        no_target_repeats(jobs, 0, k, i);
    }
    written_slots_are_recorded(before, jobs, hashes, times, jobs.len() as int, k);
    assert(hashes[k] == sha_hex(images[k]));
    slots_lie_in_their_bank(layout.banks[idx], jobs[k].unit as int);
    assert(jobs[k].extent.offset == layout.banks[idx].offset_of(jobs[k].unit as int));
}

/// After a wipe and its TOC a wiped slot has no record; where its image is still
/// on disk and is not itself blank, it scans as wiped.
pub proof fn wiped_slots_scan_as_wiped(
    c: Bytes,
    layout: LayoutView,
    slots: Seq<(usize, u32)>,
    k: int,
    before: TocView,
    payload: Seq<u8>,
    facts: ImageFacts,
    file_hash: Seq<char>,
)
    requires
        usable(layout),
        slots_exist(layout, slots),
        0 <= k < slots.len(),
        layout.toc_offset is Some ==> HEADER_LEN + payload.len() <= TOC_REGION_LEN,
    ensures
        ({
            let after = toc_written(
                layout.toc_offset,
                layout.sector_size,
                payload,
                wiped(c, layout, slots, slots.len() as int),
            );
            let toc = without_slots(before, layout, slots, slots.len() as int);
            let item = StatusItemView {
                bank_idx: slots[k].0 as int,
                unit: slots[k].1,
                probe: probe_for(layout, slots[k].0 as int, slots[k].1, Some(toc), facts),
            };
            let held = zeros(item.probe.bytes() as nat);
            &&& !(item.probe is Toc)
            &&& item.probe is Image && sha_hex(held) != file_hash ==> report_of(
                layout,
                after,
                item,
                file_hash,
            ).state == SlotState::Wiped
        }),
{
    let n = slots.len() as int;
    let blank = wiped(c, layout, slots, n);
    let after = toc_written(layout.toc_offset, layout.sector_size, payload, blank);
    let toc = without_slots(before, layout, slots, n);
    wiped_slots_have_no_record(before, layout, slots, n, k);
    let idx = slots[k].0 as int;
    let b = layout.banks[idx];
    let probe = probe_for(layout, idx, slots[k].1, Some(toc), facts);
    slot_is_aligned(layout, slots[k]);
    slots_lie_in_their_bank(b, slots[k].1 as int);
    let content = range(after, b.offset_of(slots[k].1 as int), probe.bytes() as nat);
    toc_write_leaves_slots(blank, layout, payload, slots[k], probe.bytes() as nat);
    assert(content == range(blank, b.offset_of(slots[k].1 as int), probe.bytes() as nat));
    assert forall|i: int| 0 <= i < content.len() implies #[trigger] content[i] == 0 by {
        let at = b.offset_of(slots[k].1 as int) + i;
        assert(extent_of(layout, slots[k]).offset <= at < extent_of(layout, slots[k]).limit());
        assert(in_slots(layout, slots, n, at));
        wiped_slots_are_blank(c, layout, slots, n, at);
    }
    assert(content =~= zeros(probe.bytes() as nat));
}

} // verus!

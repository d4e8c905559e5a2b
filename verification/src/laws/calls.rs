//! How calls of the library's functions relate to each other and to what they are
//! given.

use vstd::prelude::*;

use crate::cli::rules::{engine_opts, output_paths, ReadOutputs};
use crate::device::RawDevice;
use crate::engine::plan::{job_views, EngineOpts, WriteJob};
use crate::engine::session::{jobs_known, validate_jobs};
use crate::error::Result;
use crate::laws::lengths::{validation_is_exact, writable};
use crate::laws::manifests::{banks_keep_their_entry, layouts_keep_their_manifest};
use crate::laws::plans::points_at;
use crate::layout::{Extent, Layout, SlotRef};
use crate::manifest::{try_resolve, RawManifest};
use crate::platform::{descriptor_text, is_arrival_or_removal};
use crate::text::trim;
use crate::toc::{next_probe, probe_toc, read_toc, time_stamp, write_toc, payload_at, Toc, TocEntry};
use crate::transfer::check_whole;
use crate::units::{format_bytes, parse_size};

verus! {

// ---------------------------------------------------------------------------
// Sizes and references
// ---------------------------------------------------------------------------

/// A byte count that is shown exactly is read back as it was.
pub proof fn shown_sizes_read_back(bytes: u64, shown: String, s: &str, sector: u32, r: Result<u64>)
    requires
        call_ensures(format_bytes, (bytes,), shown),
        s@ == shown@,
        call_ensures(parse_size, (s, sector), r),
    ensures
        shown@.len() > 0,
        shown@[0] != '~' ==> r is Ok && r->Ok_0 == bytes,
        bytes < 1024 ==> shown@[0] != '~',
{
    crate::laws::sizes::exact_counts_read_back(bytes, sector);
}

/// A reference that is shown is read back as it was.
pub proof fn shown_references_read_back(a: &SlotRef, shown: String, s: &str, r: Result<SlotRef>)
    requires
        a@.bank matches Some(b) ==> b.len() > 0,
        call_ensures(SlotRef::display, (a,), shown),
        s@ == shown@,
        call_ensures(SlotRef::parse, (s,), r),
    ensures
        r is Ok && r->Ok_0@ == a@,
{
    crate::layout::slot_ref_reads_back(a@);
}

/// A reference that is resolved names the bank that it leads to, or there is one
/// bank alone; its unit is one of the bank's.
pub proof fn resolved_references_are_slots(
    layout: &Layout,
    slot: &SlotRef,
    r: Result<(usize, u32)>,
)
    requires
        call_ensures(Layout::resolve_slot, (layout, slot), r),
    ensures
        r is Ok <==> exists|i: int| points_at(layout@, slot@, i),
        r matches Ok(p) ==> points_at(layout@, slot@, p.0 as int) && p.1 == slot.unit,
{
    crate::laws::plans::references_resolve_to_their_slot(layout@, slot@);
    if r is Ok {
        let i = choose|i: int| points_at(layout@, slot@, i);
        assert(points_at(layout@, slot@, i));
    }
}

/// A slot's extent is as large as the bank's slots, at its unit's place behind the
/// bank's base.
pub proof fn extents_are_the_slots(layout: &Layout, i: usize, unit: u32, r: Extent)
    requires
        layout@.addressable(),
        i < layout@.banks.len(),
        unit < layout@.banks[i as int].units,
        call_ensures(Layout::slot_extent, (layout, i, unit), r),
    ensures
        r.len == layout@.banks[i as int].slot_size,
        r.offset == layout@.banks[i as int].base + unit * layout@.banks[i as int].slot_size,
{
    crate::laws::layouts::slots_lie_at_their_unit(layout@, i as int, unit);
}

// ---------------------------------------------------------------------------
// Manifests
// ---------------------------------------------------------------------------

/// A manifest that is resolved has its sectors and its banks in the layout, each
/// with the name, the base, the slot size and the units that its entry gives.
pub proof fn resolved_manifests_are_kept(
    raw: &RawManifest,
    base_dir: &str,
    r: Option<Result<Layout>>,
    i: int,
)
    requires
        call_ensures(try_resolve, (raw, base_dir), r),
        r is Some,
        r->0 is Ok,
        0 <= i < raw.bank@.len(),
    ensures
        ({
            let l = r->0->Ok_0@;
            let b = l.banks[i];
            let rb = raw.bank@[i];
            &&& l.valid()
            &&& raw.sector_size matches Some(n) ==> l.sector_size == n
            &&& raw.sector_size is None ==> l.sector_size == 512
            &&& l.banks.len() == raw.bank@.len()
            &&& b.name == rb.name@
            &&& crate::units::size_value(rb.base@, l.sector_size) == Ok::<
                u64,
                crate::error::ErrorView,
            >(b.base)
            &&& crate::units::size_value(rb.slot_size@, l.sector_size) == Ok::<
                u64,
                crate::error::ErrorView,
            >(b.slot_size)
            &&& b.units == rb.units
            &&& b.drive_type is Some <==> rb.drive_type is Some
        }),
{
    layouts_keep_their_manifest(*raw, base_dir@);
    let v = crate::manifest::manifest_ruling(*raw, base_dir@)->Done_0;
    banks_keep_their_entry(raw.bank@[i], v.sector_size, v.allow_unaligned, v.registry);
    assert(crate::manifest::bank_joined(v.base_dir, v.banks[i], r->0->Ok_0@.banks[i]));
}

// ---------------------------------------------------------------------------
// Tables of contents
// ---------------------------------------------------------------------------

/// A record that was put into a table is found by its slot; after its removal it is
/// not; and the records of other slots are found as before.
pub proof fn records_are_found_until_removed(
    e: TocEntry,
    bank: &str,
    unit: u32,
    before: &Toc,
    after: &Toc,
    r: Option<&TocEntry>,
    earlier: Option<&TocEntry>,
)
    requires
        call_ensures(Toc::find, (after, bank, unit), r),
        call_ensures(Toc::find, (before, bank, unit), earlier),
    ensures
        forall|t: &mut Toc| #[trigger]
            call_ensures(Toc::upsert, (t, e), ()) && *t == *before && *final(t) == *after ==> {
            &&& bank@ == e@.bank && unit == e@.unit ==> r is Some && r->0@ == e@
            &&& bank@ != e@.bank || unit != e@.unit ==> (r is Some <==> earlier is Some) && (r is Some
                ==> r->0@ == earlier->0@)
        },
        forall|t: &mut Toc, b: &str, u: u32| #[trigger]
            call_ensures(Toc::remove, (t, b, u), ()) && *t == *before && *final(t) == *after ==> {
            &&& bank@ == b@ && unit == u ==> r is None
            &&& bank@ != b@ || unit != u ==> (r is Some <==> earlier is Some) && (r is Some ==> r->0@
                == earlier->0@)
        },
{
    crate::toc::upserted_record_is_found(before@, e@);
    if bank@ != e@.bank || unit != e@.unit {
        crate::toc::upserting_keeps_other_slots(before@, e@, bank@, unit);
    }
    assert forall|t: &mut Toc, b: &str, u: u32| #[trigger]
        call_ensures(Toc::remove, (t, b, u), ()) && *t == *before && *final(t) == *after implies {
        &&& bank@ == b@ && unit == u ==> r is None
        &&& bank@ != b@ || unit != u ==> (r is Some <==> earlier is Some) && (r is Some ==> r->0@
            == earlier->0@)
    } by {
        crate::toc::removal_drops_one_slot(before@, b@, u);
    }
}

/// A payload that was written as a table is read back from the same place.
pub proof fn written_tables_read_back<D: RawDevice>(
    offset: u64,
    payload: &Vec<u8>,
    w: Result<()>,
    r: Result<Option<Vec<u8>>>,
)
    requires
        w is Ok,
        r is Ok,
    ensures
        forall|a: &mut D, b: &mut D|
            #![trigger call_ensures(write_toc::<D>, (a, offset, payload), w), call_ensures(read_toc::<D>, (b, offset), r)]
            call_ensures(write_toc::<D>, (a, offset, payload), w) && a.sector() > 0 && *final(a)
                == *b && call_ensures(read_toc::<D>, (b, offset), r) ==> r->Ok_0 is Some
                && r->Ok_0->0@ == payload@,
{
    assert forall|a: &mut D, b: &mut D|
        #![trigger call_ensures(write_toc::<D>, (a, offset, payload), w), call_ensures(read_toc::<D>, (b, offset), r)]
        call_ensures(write_toc::<D>, (a, offset, payload), w) && a.sector() > 0 && *final(a) == *b
            && call_ensures(read_toc::<D>, (b, offset), r) implies r->Ok_0 is Some
        && r->Ok_0->0@ == payload@ by {
        crate::toc::framed_payload_reads_back(a.contents(), offset as int, payload@, a.sector());
    }
}

/// What a search finds is a table that stands on the card, a whole number of steps
/// behind the search's start; the card stays as it is.
pub proof fn searches_find_tables_on_the_card<D: RawDevice>(
    from: u64,
    r: Result<Option<(u64, Vec<u8>)>>,
)
    requires
        r is Ok,
    ensures
        forall|dev: &mut D| #[trigger]
            call_ensures(probe_toc::<D>, (dev, from), r) ==> {
            &&& final(dev).contents() == dev.contents()
            &&& r->Ok_0 matches Some(f) ==> f.0 >= from && (f.0 - from) % 1048576 == 0 && payload_at(
                dev.contents(),
                f.0 as int,
            ) == Some(f.1@)
            &&& r->Ok_0 is None && from + dev.sector() <= dev.capacity() ==> payload_at(
                dev.contents(),
                from as int,
            ) is None
        },
{
    assert forall|dev: &mut D| #[trigger]
        call_ensures(probe_toc::<D>, (dev, from), r) implies {
        &&& final(dev).contents() == dev.contents()
        &&& r->Ok_0 matches Some(f) ==> f.0 >= from && (f.0 - from) % 1048576 == 0 && payload_at(
            dev.contents(),
            f.0 as int,
        ) == Some(f.1@)
        &&& r->Ok_0 is None && from + dev.sector() <= dev.capacity() ==> payload_at(
            dev.contents(),
            from as int,
        ) is None
    } by {
        found_in_steps(dev.contents(), dev.capacity(), dev.sector(), from as int);
    }
}

proof fn found_in_steps(c: crate::device::Bytes, capacity: u64, sector: u32, at: int)
    ensures
        crate::toc::payload_from(c, capacity, sector, at) matches Some(f) ==> f.0 >= at && (f.0 - at)
            % 1048576 == 0 && payload_at(c, f.0) == Some(f.1),
    decreases capacity + crate::toc::PROBE_STEP - at,
{
    if !(at < 0 || at + sector > capacity) && payload_at(c, at) is None {
        found_in_steps(c, capacity, sector, at + crate::toc::PROBE_STEP);
    }
}

/// The next search starts one step behind the last table, as long as the card goes
/// on there.
pub proof fn searches_go_on_behind_the_table<D: RawDevice>(dev: &D, found: u64, r: Option<u64>)
    requires
        call_ensures(next_probe::<D>, (dev, found), r),
        dev.capacity() <= u64::MAX - 1048576,
    ensures
        r matches Some(n) ==> n == found + 1048576 && n + dev.sector() <= dev.capacity(),
        r is None ==> found + 1048576 + dev.sector() > dev.capacity(),
{
}

/// A time is kept, and one that is not known is zero.
pub proof fn times_are_kept(since: Option<u64>, r: u64)
    requires
        call_ensures(time_stamp, (since,), r),
    ensures
        since matches Some(t) ==> r == t,
        since is None ==> r == 0,
{
}

// ---------------------------------------------------------------------------
// Options and checks
// ---------------------------------------------------------------------------

/// Jobs are valid exactly when every image fits its slot, every slot fits the
/// device or the device grows, every size is exact where that is asked for, and the
/// table fits.
pub proof fn validated_jobs_can_be_written(
    layout: &Layout,
    jobs: &Vec<WriteJob>,
    capacity: u64,
    growable: bool,
    strict: bool,
    r: Result<Vec<String>>,
)
    requires
        jobs_known(layout@, job_views(jobs@)),
        call_ensures(validate_jobs, (layout, jobs, capacity, growable, strict), r),
    ensures
        r is Ok <==> {
            &&& forall|k: int|
                0 <= k < jobs@.len() ==> writable(
                    layout@,
                    #[trigger] job_views(jobs@)[k],
                    capacity,
                    growable,
                    strict,
                )
            &&& layout@.toc_offset matches Some(t) ==> growable || t + 131072 <= capacity
        },
{
    validation_is_exact(layout@, job_views(jobs@), capacity, growable, strict);
}

/// The options of a run are those that were given, and its chunks are whole
/// sectors.
pub proof fn options_are_kept(
    chunk: Option<&str>,
    strict: bool,
    verify: bool,
    sector: u32,
    r: Result<EngineOpts>,
)
    requires
        sector > 0,
        call_ensures(engine_opts, (chunk, strict, verify, sector), r),
    ensures
        r matches Ok(o) ==> {
            &&& o.strict_size == strict
            &&& o.verify == verify
            &&& chunk is None ==> o.chunk_size == 8388608
            &&& chunk is Some ==> 0 < o.chunk_size <= 536870912 && o.chunk_size as int
                % sector as int == 0
        },
        chunk is None ==> r is Ok,
{
    let text = match chunk {
        Some(s) => Some(s@),
        None => None,
    };
    if r is Ok {
        crate::laws::commands::chunks_are_whole_sectors(text, sector, r->Ok_0.chunk_size as int);
    } else {
        crate::laws::commands::chunks_are_whole_sectors(text, sector, 0);
    }
}

/// A file output is one path, and a directory has one for each name.
pub proof fn outputs_have_their_paths(outputs: &ReadOutputs, r: Vec<String>)
    requires
        call_ensures(output_paths, (outputs,), r),
    ensures
        outputs matches ReadOutputs::File(f) ==> r@.len() == 1 && r@[0]@ == f@,
        outputs matches ReadOutputs::Dir(d, names) ==> r@.len() == names@.len(),
{
    if let ReadOutputs::File(f) = outputs {
        let t = crate::text::texts(r@);
        assert(t.len() == r@.len());
        assert(t[0] == r@[0]@);
    }
}

/// A transfer that moved another number of bytes than it should is an error of the
/// device.
pub proof fn short_transfers_fail(reading: bool, offset: u64, got: u32, len: usize, r: Result<()>)
    requires
        call_ensures(check_whole, (reading, offset, got, len), r),
    ensures
        r is Ok <==> got == len,
        r matches Err(e) ==> e@ is Device,
{
}

/// A descriptor's text is taken without the white space around it, and one that
/// is blank is none.
pub proof fn blank_descriptors_are_none(decoded: &str, r: Option<String>)
    requires
        call_ensures(descriptor_text, (decoded,), r),
    ensures
        r is None <==> trim(decoded@).len() == 0,
        r matches Some(t) ==> t@ == trim(decoded@) && t@.len() > 0,
{
}

/// Only arrivals and removals of devices change the device list.
pub proof fn other_events_are_ignored(event: u32, r: bool)
    requires
        call_ensures(is_arrival_or_removal, (event,), r),
    ensures
        r <==> event == 0x8000 || event == 0x8004,
{
}

} // verus!

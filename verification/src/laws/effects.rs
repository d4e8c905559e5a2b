//! What the operations themselves return and leave behind, whatever they are
//! called with.

use vstd::prelude::*;

use crate::device::RawDevice;
use crate::engine::plan::{
    job_views, plan_writes, EngineOpts, ImageFacts, LengthMode, WriteJob,
};
use crate::engine::read::ReadRun;
use crate::engine::session::Session;
use crate::engine::status::{
    report_views, status_from_card, SlotStatusReport, StatusProbeView, StatusRun,
};
use crate::engine::verify::{HashFailure, VerifyRun};
use crate::engine::write::{streamed_prefix, WriteRun};
use crate::drive_types::{DriveType, Registry};
use crate::error::Result;
use crate::events::{EventSink, SlotState};
use crate::gui::log::Log;
use crate::gui::ops::SlotView;
use crate::gui::slots::{
    empty, prune_hidden, tick_bank, Pick, SlotKeyView, SlotSet, SlotStates,
};
use crate::gui::target::Target;
use crate::laws::cards::{holds, read_backs_fail_at_the_first_difference};
use crate::laws::exports::{exported_bank, exports_read_back};
use crate::laws::plans::{from_manifest, names_image, obeys, plans_cover_the_manifest, writes};
use crate::laws::reports::{judges, records_judge_what_they_name, reports_judge_what_slots_hold};
use crate::layout::{Bank, Layout, SlotAssign};
use crate::rtl::{export, RtlFormat};
use crate::text::texts;
use crate::toc::{payload_at, rounded_up, rounded_up_props, sha_hex, Toc};

verus! {

// ---------------------------------------------------------------------------
// Plans, lengths and exports
// ---------------------------------------------------------------------------

/// A plan without overrides has a job for every image that the manifest names,
/// and no other job; with overrides it has one job for each, in their order.
pub proof fn planning_covers_what_was_asked(
    layout: &Layout,
    overrides: &Vec<SlotAssign>,
    facts: &ImageFacts,
    r: Result<Vec<WriteJob>>,
)
    requires
        layout@.addressable(),
        call_ensures(plan_writes, (layout, overrides, facts), r),
        r is Ok,
    ensures
        ({
            let jobs = job_views(r->Ok_0@);
            &&& overrides@.len() == 0 ==> {
                &&& forall|i: int, unit: u32, path: Seq<char>|
                    0 <= i < layout@.banks.len() && #[trigger] names_image(
                        layout@.banks[i],
                        unit,
                        path,
                    ) ==> exists|k: int|
                        0 <= k < jobs.len() && writes(
                            layout@,
                            *facts,
                            #[trigger] jobs[k],
                            i,
                            unit,
                            path,
                        )
                &&& forall|k: int|
                    0 <= k < jobs.len() ==> from_manifest(layout@, *facts, #[trigger] jobs[k])
            }
            &&& overrides@.len() > 0 ==> jobs.len() == overrides@.len() && forall|k: int|
                0 <= k < jobs.len() ==> obeys(
                    layout@,
                    *facts,
                    (#[trigger] overrides@[k])@,
                    jobs[k],
                )
        }),
{
    let jobs = job_views(r->Ok_0@);
    if overrides@.len() == 0 {
        plans_cover_the_manifest(layout@, *facts, overrides@, jobs);
    } else {
        crate::laws::plans::plans_follow_the_overrides(layout@, *facts, overrides@);
    }
}

/// Of a bank with a fixed-size drive type that fits its slots, a canonical length
/// and a length without a mode are both the type's image size; a length that was
/// asked for in bytes is kept, up to the slot.
pub proof fn resolved_lengths_are_exact<'a, D: RawDevice>(
    s: &Session<'a, D>,
    i: usize,
    unit: u32,
    n: u64,
    canonical: Result<u64>,
    plain: Result<u64>,
    bytes: Result<u64>,
    slot: Result<u64>,
)
    requires
        i < s.layout@.banks.len(),
        call_ensures(
            Session::<'a, D>::resolve_length,
            (s, i, unit, Some(LengthMode::Canonical)),
            canonical,
        ),
        call_ensures(Session::<'a, D>::resolve_length, (s, i, unit, None), plain),
        call_ensures(
            Session::<'a, D>::resolve_length,
            (s, i, unit, Some(LengthMode::Bytes(n))),
            bytes,
        ),
        call_ensures(
            Session::<'a, D>::resolve_length,
            (s, i, unit, Some(LengthMode::Slot)),
            slot,
        ),
    ensures
        ({
            let b = s.layout@.banks[i as int];
            let fixed = b.drive_type is Some && !b.drive_type->0.stream;
            &&& fixed && b.drive_type->0.image_bytes <= b.slot_size ==> {
                &&& canonical is Ok && canonical->Ok_0 == b.drive_type->0.image_bytes
                &&& plain is Ok && plain->Ok_0 == b.drive_type->0.image_bytes
            }
            &&& canonical is Ok ==> fixed
            &&& bytes is Ok <==> n <= b.slot_size
            &&& bytes is Ok ==> bytes->Ok_0 == n
            &&& slot is Ok && slot->Ok_0 == b.slot_size
            &&& plain is Ok ==> plain->Ok_0 <= b.slot_size
        }),
{
}

/// In the exported text every bank's constants can be read back.
pub proof fn exported_texts_read_back(
    layout: &Layout,
    format: RtlFormat,
    stem: &str,
    r: Result<String>,
)
    requires
        call_ensures(export, (layout, format, stem), r),
        r is Ok,
        layout@.sector_size > 0,
        forall|i: int|
            0 <= i < layout@.banks.len() ==> (#[trigger] layout@.banks[i]).base as int
                % layout@.sector_size as int == 0,
    ensures
        forall|i: int|
            0 <= i < layout@.banks.len() ==> exported_bank(
                format,
                r->Ok_0@,
                #[trigger] layout@.banks[i],
                layout@.sector_size,
            ),
{
    exports_read_back(format, layout@, stem@);
}

// ---------------------------------------------------------------------------
// Writing
// ---------------------------------------------------------------------------

/// A write run as it stands when it asks for bytes of an image, with the card as
/// the run has left it.
pub open spec fn is_streaming<'a, D: RawDevice>(s: &Session<'a, D>, run: &WriteRun) -> bool {
    &&& s.wf()
    &&& run.wf(s.layout.sector_size)
    &&& run.need_view() is Read
    &&& s.dev.contents() == run.expected(s.layout.sector_size)
}

/// A piece of an image that was taken stands on the card at its place in the slot,
/// with zeros behind it up to the sector; every other byte is as it was. When the
/// image is complete, its hash is recorded as the hash of all its pieces.
#[verifier::rlimit(40)]
pub proof fn written_pieces_are_on_the_card<'a, D: RawDevice, S: EventSink>(
    data: Vec<u8>,
    r: Result<()>,
    at: int,
)
    requires
        r is Ok,
    ensures
        forall|s: &mut Session<'a, D>, run: &mut WriteRun, sink: &mut S| #[trigger]
            call_ensures(
                Session::<'a, D>::image_bytes::<S>,
                (s, run, Ok::<Vec<u8>, String>(data), sink),
                r,
            ) && is_streaming(s, run) && data@.len() == run.need_view()->want ==> {
                let start = run.jobs@[run.at as int].extent.offset + run.done;
                let now = final(s).dev.contents()(at);
                &&& start <= at < start + data@.len() ==> now == data@[at - start]
                &&& start + data@.len() <= at < start + rounded_up(
                    data@.len() as int,
                    s.layout.sector_size as int,
                ) ==> now == 0
                &&& !(start <= at < start + rounded_up(
                    data@.len() as int,
                    s.layout.sector_size as int,
                )) ==> now == s.dev.contents()(at)
                &&& run.done + data@.len() == run.jobs@[run.at as int].image_len ==> final(run).at
                    == run.at + 1 && final(run).hashes@.last()@ == sha_hex(run.hasher@ + data@)
                &&& run.done + data@.len() < run.jobs@[run.at as int].image_len ==> final(run).at
                    == run.at && final(run).hasher@ == run.hasher@ + data@
            },
{
    assert forall|s: &mut Session<'a, D>, run: &mut WriteRun, sink: &mut S| #[trigger]
        call_ensures(
            Session::<'a, D>::image_bytes::<S>,
            (s, run, Ok::<Vec<u8>, String>(data), sink),
            r,
        ) && is_streaming(s, run) && data@.len() == run.need_view()->want implies {
        let start = run.jobs@[run.at as int].extent.offset + run.done;
        let now = final(s).dev.contents()(at);
        &&& start <= at < start + data@.len() ==> now == data@[at - start]
        &&& start + data@.len() <= at < start + rounded_up(
            data@.len() as int,
            s.layout.sector_size as int,
        ) ==> now == 0
        &&& !(start <= at < start + rounded_up(data@.len() as int, s.layout.sector_size as int))
            ==> now == s.dev.contents()(at)
        &&& run.done + data@.len() == run.jobs@[run.at as int].image_len ==> final(run).at == run.at
            + 1 && final(run).hashes@.last()@ == sha_hex(run.hasher@ + data@)
        &&& run.done + data@.len() < run.jobs@[run.at as int].image_len ==> final(run).at == run.at
            && final(run).hasher@ == run.hasher@ + data@
    } by {
        let sector = s.layout.sector_size;
        let j = run.jobs@[run.at as int];
        let a = run.at as int;
        let image = run.hasher@ + data@;
        let next = *final(run);
        rounded_up_props(data@.len() as int, sector as int);
        rounded_up_props(image.len() as int, sector as int);
        assert(run.plan()[a] == j@);
        assert(next.plan() == run.plan());
        if run.done + data@.len() == j.image_len {
            assert(next.images@ == run.images@.push(image));
            streamed_prefix(run.origin@, run.plan(), run.images@, next.images@, a, sector);
            assert(next.images@[a] == image);
            assert(next.hashes@.len() == a + 1);
            assert(next.hashes@[a]@ == sha_hex(next.images@[a]));
            same_remainder(run.done as int, data@.len() as int, sector as int);
        } else {
            assert(data@.len() == run.opts.chunk_size);
        }
    }
}

proof fn same_remainder(a: int, b: int, m: int)
    requires
        m > 0,
        a % m == 0,
    ensures
        rounded_up(a + b, m) == a + rounded_up(b, m),
{
    vstd::arithmetic::div_mod::lemma_mod_multiples_vanish(a / m, b, m);
    vstd::arithmetic::div_mod::lemma_fundamental_div_mod(a, m);
    assert((a + b) % m == b % m);
    rounded_up_props(a + b, m);
    rounded_up_props(b, m);
}

/// A table that was committed is read back from its place on the card, is what
/// the session knows from then on, and no byte outside of the table's region
/// changed.
pub proof fn committed_tables_are_on_the_card<'a, D: RawDevice>(
    toc: Toc,
    payload: &Vec<u8>,
    r: Result<()>,
    at: int,
)
    ensures
        forall|s: &mut Session<'a, D>| #[trigger]
            call_ensures(Session::<'a, D>::commit_toc, (s, toc, payload), r) && s.dev.sector() > 0
                ==> {
                &&& s.layout.toc_offset is None ==> final(s).dev.contents() == s.dev.contents()
                &&& s.layout.toc_offset matches Some(off) ==> {
                    &&& r is Ok ==> payload_at(final(s).dev.contents(), off as int) == Some(payload@)
                        && final(s).toc_state() == Some(Some(toc@))
                    &&& !(off <= at < off + rounded_up(
                        crate::layout::TOC_REGION_LEN as int,
                        s.dev.sector() as int,
                    )) ==> final(s).dev.contents()(at) == s.dev.contents()(at)
                }
            },
{
    assert forall|s: &mut Session<'a, D>| #[trigger]
        call_ensures(Session::<'a, D>::commit_toc, (s, toc, payload), r) && s.dev.sector()
            > 0 implies {
        &&& s.layout.toc_offset is None ==> final(s).dev.contents() == s.dev.contents()
        &&& s.layout.toc_offset matches Some(off) ==> {
            &&& r is Ok ==> payload_at(final(s).dev.contents(), off as int) == Some(payload@)
                && final(s).toc_state() == Some(Some(toc@))
            &&& !(off <= at < off + rounded_up(
                crate::layout::TOC_REGION_LEN as int,
                s.dev.sector() as int,
            )) ==> final(s).dev.contents()(at) == s.dev.contents()(at)
        }
    } by {
        if s.layout.toc_offset is Some && r is Ok {
            crate::toc::framed_payload_reads_back(
                s.dev.contents(),
                s.layout.toc_offset->0 as int,
                payload@,
                s.dev.sector(),
            );
        }
    }
}

/// Loading the table gives the payload that stands on the card at the table's
/// place, once; the card stays as it is.
pub proof fn loaded_tables_are_the_cards<'a, D: RawDevice>(r: Result<Option<Vec<u8>>>)
    requires
        r is Ok,
    ensures
        forall|s: &mut Session<'a, D>| #[trigger]
            call_ensures(Session::<'a, D>::load_toc, (s,), r) ==> {
                let p = r->Ok_0;
                &&& final(s).dev.contents() == s.dev.contents()
                &&& s.toc_cache is Some ==> p is None
                &&& s.toc_cache is None && s.layout.toc_offset is Some ==> match p {
                    Some(v) => payload_at(s.dev.contents(), s.layout.toc_offset->0 as int) == Some(
                        v@,
                    ),
                    None => payload_at(s.dev.contents(), s.layout.toc_offset->0 as int) is None,
                }
            },
{
}

// ---------------------------------------------------------------------------
// Wiping and comparing
// ---------------------------------------------------------------------------

/// The byte lies in one of the slots.
pub open spec fn in_one_of(layout: &Layout, slots: Seq<(usize, u32)>, at: int) -> bool {
    exists|k: int|
        {
            &&& 0 <= k < slots.len()
            &&& lies_in_slot(layout, #[trigger] slots[k], at)
        }
}

pub open spec fn lies_in_slot(layout: &Layout, slot: (usize, u32), at: int) -> bool {
    let b = layout@.banks[slot.0 as int];
    b.base + slot.1 * b.slot_size <= at < b.base + slot.1 * b.slot_size + b.slot_size
}

/// A wipe that succeeds leaves zeros in every byte of its slots; whether it does
/// or not, every other byte is as it was.
pub proof fn wipes_leave_zeros_in_their_slots_alone<'a, D: RawDevice, S: EventSink>(
    slots: &Vec<(usize, u32)>,
    opts: &EngineOpts,
    r: Result<()>,
    at: int,
)
    ensures
        forall|s: &mut Session<'a, D>, sink: &mut S| #[trigger]
            call_ensures(Session::<'a, D>::wipe_slots::<S>, (s, slots, opts, sink), r) && s.wf()
                && crate::engine::wipe::slots_exist(s.layout@, slots@) ==> {
                &&& r is Ok && in_one_of(s.layout, slots@, at) ==> final(s).dev.contents()(at) == 0
                &&& !in_one_of(s.layout, slots@, at) ==> final(s).dev.contents()(at)
                    == s.dev.contents()(at)
                &&& final(s).layout == s.layout
            },
{
    assert forall|s: &mut Session<'a, D>, sink: &mut S| #[trigger]
        call_ensures(Session::<'a, D>::wipe_slots::<S>, (s, slots, opts, sink), r) && s.wf()
            && crate::engine::wipe::slots_exist(s.layout@, slots@) implies {
        &&& r is Ok && in_one_of(s.layout, slots@, at) ==> final(s).dev.contents()(at) == 0
        &&& !in_one_of(s.layout, slots@, at) ==> final(s).dev.contents()(at) == s.dev.contents()(at)
        &&& final(s).layout == s.layout
    } by {
        let l = s.layout@;
        let n = slots@.len() as int;
        assert forall|k: int| 0 <= k < n implies (lies_in_slot(s.layout, #[trigger] slots@[k], at)
            <==> crate::engine::wipe::extent_of(l, slots@[k]).offset <= at
            < crate::engine::wipe::extent_of(l, slots@[k]).limit()) by {
            crate::laws::layouts::slots_lie_at_their_unit(l, slots@[k].0 as int, slots@[k].1);
        }
        if in_one_of(s.layout, slots@, at) {
            let k = choose|k: int|
                0 <= k < n && lies_in_slot(s.layout, #[trigger] slots@[k], at);
            assert(crate::engine::wipe::in_slots(l, slots@, n, at));
            if r is Ok {
                crate::engine::wipe::wiped_slots_are_blank(s.dev.contents(), l, slots@, n, at);
            }
        } else {
            assert(!crate::engine::wipe::in_slots(l, slots@, n, at));
        }
    }
}

/// A verify pass does not change the card. It succeeds only where every slot
/// holds bytes of its hash.
pub proof fn verify_passes_find_every_difference<'a, D: RawDevice, S: EventSink>(
    jobs: &Vec<WriteJob>,
    hashes: &Vec<String>,
    chunk: usize,
    r: Result<()>,
)
    ensures
        forall|s: &mut Session<'a, D>, sink: &mut S| #[trigger]
            call_ensures(Session::<'a, D>::verify_pass::<S>, (s, jobs, hashes, chunk, sink), r) ==> {
                &&& final(s).dev.contents() == s.dev.contents()
                &&& r is Ok ==> forall|k: int|
                    0 <= k < jobs@.len() ==> holds(
                        s.dev.contents(),
                        #[trigger] job_views(jobs@)[k],
                        texts(hashes@)[k],
                    )
            },
{
    assert forall|s: &mut Session<'a, D>, sink: &mut S| #[trigger]
        call_ensures(
            Session::<'a, D>::verify_pass::<S>,
            (s, jobs, hashes, chunk, sink),
            r,
        ) implies {
        &&& final(s).dev.contents() == s.dev.contents()
        &&& r is Ok ==> forall|k: int|
            0 <= k < jobs@.len() ==> holds(
                s.dev.contents(),
                #[trigger] job_views(jobs@)[k],
                texts(hashes@)[k],
            )
    } by {
        if r is Ok {
            read_backs_fail_at_the_first_difference(
                s.dev.contents(),
                job_views(jobs@),
                texts(hashes@),
                r,
            );
        }
    }
}

/// Comparing an image's file with its slot adds the slot to the mismatches
/// exactly where the card's bytes have another hash than the file.
pub proof fn compared_files_are_mismatches_or_not<'a, D: RawDevice, S: EventSink>(
    expect: String,
    r: Result<()>,
)
    requires
        r is Ok,
    ensures
        forall|s: &mut Session<'a, D>, run: &mut VerifyRun, sink: &mut S| #[trigger]
            call_ensures(
                Session::<'a, D>::image_hashed::<S>,
                (s, run, Ok::<String, HashFailure>(expect), sink),
                r,
            ) ==> {
                let j = run.jobs@[run.at as int]@;
                let same = holds(s.dev.contents(), j, expect@);
                &&& final(s).dev.contents() == s.dev.contents()
                &&& final(run).at == run.at + 1
                &&& texts(final(run).mismatches@).len() == texts(run.mismatches@).len() + if same {
                    0int
                } else {
                    1int
                }
                &&& !same ==> texts(final(run).mismatches@).last() == j.bank + ":"@
                    + crate::text::dec(j.unit as nat)
            },
{
}

// ---------------------------------------------------------------------------
// Scanning
// ---------------------------------------------------------------------------

/// The report of the next slot of a scan says what the card's bytes there are: of
/// a recorded slot against its record, of a slot with an image against the file's
/// hash, and of any other nothing. The card stays as it is.
pub proof fn scan_steps_judge_the_slot<'a, D: RawDevice, S: EventSink>(
    hash: String,
    r: Result<()>,
)
    requires
        r is Ok,
    ensures
        forall|s: &mut Session<'a, D>, run: &mut StatusRun, sink: &mut S| #[trigger]
            call_ensures(
                Session::<'a, D>::status_step::<S>,
                (s, run, Ok::<String, HashFailure>(hash), sink),
                r,
            ) && 0 <= run.items@[run.at as int]@.bank_idx < s.layout@.banks.len() ==> {
                let item = run.items@[run.at as int]@;
                let b = s.layout@.banks[item.bank_idx];
                let offset = b.base + item.unit * b.slot_size;
                let c = s.dev.contents();
                let reports = report_views(final(run).reports@);
                let last = reports.last();
                &&& final(s).dev.contents() == c
                &&& final(run).at == run.at + 1
                &&& reports.len() == report_views(run.reports@).len() + 1
                &&& last.bank == b.name
                &&& last.unit == item.unit
                &&& match item.probe {
                    StatusProbeView::Image { hash_len, .. } => judges(
                        last,
                        c,
                        offset,
                        hash_len,
                        hash@,
                        SlotState::Differs,
                    ),
                    StatusProbeView::Toc(e) => judges(
                        last,
                        c,
                        offset,
                        e.length,
                        e.sha256,
                        SlotState::Modified,
                    ),
                    StatusProbeView::Unknown => last.state == SlotState::Unknown,
                }
            },
{
    assert forall|s: &mut Session<'a, D>, run: &mut StatusRun, sink: &mut S| #[trigger]
        call_ensures(
            Session::<'a, D>::status_step::<S>,
            (s, run, Ok::<String, HashFailure>(hash), sink),
            r,
        ) && 0 <= run.items@[run.at as int]@.bank_idx < s.layout@.banks.len() implies {
        let item = run.items@[run.at as int]@;
        let b = s.layout@.banks[item.bank_idx];
        let offset = b.base + item.unit * b.slot_size;
        let c = s.dev.contents();
        let reports = report_views(final(run).reports@);
        let last = reports.last();
        &&& final(s).dev.contents() == c
        &&& final(run).at == run.at + 1
        &&& reports.len() == report_views(run.reports@).len() + 1
        &&& last.bank == b.name
        &&& last.unit == item.unit
        &&& match item.probe {
            StatusProbeView::Image { hash_len, .. } => judges(
                last,
                c,
                offset,
                hash_len,
                hash@,
                SlotState::Differs,
            ),
            StatusProbeView::Toc(e) => judges(
                last,
                c,
                offset,
                e.length,
                e.sha256,
                SlotState::Modified,
            ),
            StatusProbeView::Unknown => last.state == SlotState::Unknown,
        }
    } by {
        let item = run.items@[run.at as int]@;
        reports_judge_what_slots_hold(s.layout@, s.dev.contents(), item, hash@);
    }
}

/// A scan by the card's records has one report for each record, in their order,
/// which judges the bytes that the record names; the card stays as it is.
pub proof fn record_scans_judge_every_record<D: RawDevice, S: EventSink>(
    toc: &Toc,
    opts: &EngineOpts,
    r: Result<Vec<SlotStatusReport>>,
    k: int,
)
    requires
        r is Ok,
        0 <= k < toc@.entries.len(),
    ensures
        forall|dev: &mut D, sink: &mut S| #[trigger]
            call_ensures(status_from_card::<D, S>, (dev, toc, opts, sink), r) ==> {
                let reports = report_views(r->Ok_0@);
                let e = toc@.entries[k];
                &&& final(dev).contents() == dev.contents()
                &&& reports.len() == toc@.entries.len()
                &&& reports[k].bank == e.bank
                &&& reports[k].unit == e.unit
                &&& judges(
                    reports[k],
                    dev.contents(),
                    e.offset as int,
                    e.length,
                    e.sha256,
                    SlotState::Modified,
                )
            },
{
    assert forall|dev: &mut D, sink: &mut S| #[trigger]
        call_ensures(status_from_card::<D, S>, (dev, toc, opts, sink), r) implies {
        let reports = report_views(r->Ok_0@);
        let e = toc@.entries[k];
        &&& final(dev).contents() == dev.contents()
        &&& reports.len() == toc@.entries.len()
        &&& reports[k].bank == e.bank
        &&& reports[k].unit == e.unit
        &&& judges(
            reports[k],
            dev.contents(),
            e.offset as int,
            e.length,
            e.sha256,
            SlotState::Modified,
        )
    } by {
        records_judge_what_they_name(dev.contents(), toc@.entries[k]);
    }
}

// ---------------------------------------------------------------------------
// Extracting
// ---------------------------------------------------------------------------

/// A piece of an extracted slot is what the card holds there, behind what was
/// already extracted: never past the length, never more than a chunk, and less
/// only at the end. The card stays as it is.
pub proof fn extracted_pieces_are_the_cards_bytes<'a, D: RawDevice>(
    run: &ReadRun,
    r: Result<Vec<u8>>,
    i: int,
)
    requires
        r is Ok,
        run.done < run.jobs@[run.at as int].length,
        run.chunk_size > 0,
    ensures
        forall|s: &mut Session<'a, D>| #[trigger]
            call_ensures(Session::<'a, D>::read_chunk, (s, run), r) ==> {
                let j = run.jobs@[run.at as int];
                let b = s.layout@.banks[j.bank_idx as int];
                let offset = b.base + j.unit * b.slot_size + run.done;
                let data = r->Ok_0@;
                &&& final(s).dev.contents() == s.dev.contents()
                &&& 0 < data.len() <= run.chunk_size
                &&& run.done + data.len() <= j.length
                &&& data.len() < run.chunk_size ==> run.done + data.len() == j.length
                &&& 0 <= i < data.len() ==> data[i] == s.dev.contents()(offset + i)
            },
{
}

// ---------------------------------------------------------------------------
// Selections
// ---------------------------------------------------------------------------

/// Where empty rows are hidden their slots are not selected; every other selected
/// slot stays, and no slot is added.
pub proof fn hidden_slots_are_not_selected(
    layout: &Layout,
    states: &SlotStates,
    hide_empty: bool,
    k: SlotKeyView,
    i: int,
)
    requires
        0 <= i < layout@.banks.len(),
        layout@.banks[i].name == k.0,
        k.1 < layout@.banks[i].units,
    ensures
        forall|set: &mut SlotSet| #[trigger]
            call_ensures(prune_hidden, (set, layout, states, hide_empty), ()) ==> {
            &&& final(set)@.contains(k) ==> set@.contains(k)
            &&& !hide_empty ==> final(set)@ == set@
            &&& hide_empty && empty(*states, layout@.banks[i], k.1) ==> !final(set)@.contains(k)
        },
{
    let pick = Pick::Empty(states);
    crate::gui::slots::picked_slots_are(pick, layout@, layout@.banks.len() as int, k);
    if empty(*states, layout@.banks[i], k.1) {
        assert(pick.takes(layout@.banks[i], k.1));
    }
}

/// Ticking a bank ticks the slots of it that are shown, unticking it unticks them,
/// and no other slot changes.
pub proof fn ticking_a_bank_ticks_its_shown_slots(
    bank: &Bank,
    states: &SlotStates,
    hide_empty: bool,
    on: bool,
    k: SlotKeyView,
)
    ensures
        forall|set: &mut SlotSet| #[trigger]
            call_ensures(tick_bank, (bank, set, states, hide_empty, on), ()) ==> {
            let shown = k.0 == bank@.name && crate::laws::views::is_shown(
                *states,
                bank@,
                k.1,
                hide_empty,
            );
            &&& shown ==> (final(set)@.contains(k) <==> on)
            &&& !shown ==> (final(set)@.contains(k) <==> set@.contains(k))
        },
{
    let pick = Pick::Visible { states, hide_empty };
    crate::laws::views::picked_slots_are_in_order(pick, bank@, bank@.units as int, k.1);
    let s = crate::gui::slots::picked_in(pick, bank@, bank@.units as int);
    if s.contains(k) {
        let j = choose|j: int| 0 <= j < s.len() && s[j] == k;
        assert(s[j].0 == bank@.name);
        assert(k == (bank@.name, k.1));
    }
    if k.0 == bank@.name {
        assert(k == (bank@.name, k.1));
    }
    assert(s.to_set().contains(k) <==> s.contains(k));
}

/// A slot that is ticked is selected and one that is unticked is not; every other
/// slot stays as it was.
pub proof fn ticks_select_their_slot_alone(bank: &str, unit: u32, on: bool, k: SlotKeyView)
    ensures
        forall|set: &mut SlotSet| #[trigger]
            call_ensures(SlotSet::tick, (set, bank, unit, on), ()) ==> {
            &&& final(set)@.contains((bank@, unit)) <==> on
            &&& k != (bank@, unit) ==> (final(set)@.contains(k) <==> set@.contains(k))
        },
{
}

/// A slot shows what was put into the map for it, and no other slot changes.
pub proof fn slots_show_what_was_put_in(bank: &str, unit: u32, view: SlotView, k: SlotKeyView)
    ensures
        forall|states: &mut SlotStates| #[trigger]
            call_ensures(SlotStates::insert, (states, bank, unit, view), ()) ==> {
            &&& final(states).shown((bank@, unit)) == Some(view@)
            &&& k != (bank@, unit) ==> final(states).shown(k) == states.shown(k)
        },
{
}

/// A device that was chosen takes the place of a file, and a file that of a device;
/// the list of devices stays.
pub proof fn targets_replace_each_other(index: usize, path: String)
    ensures
        forall|t: &mut Target| #[trigger]
            call_ensures(Target::choose_device, (t, index), ()) ==> {
            &&& final(t)@.selected == Some(index as int)
            &&& final(t)@.file is None
            &&& final(t)@.devices == t@.devices
        },
        forall|t: &mut Target| #[trigger]
            call_ensures(Target::choose_file, (t, path), ()) ==> {
            &&& final(t)@.selected is None
            &&& final(t)@.file == Some(path@)
            &&& final(t)@.devices == t@.devices
        },
{
}

/// A selection that may not stand is dropped, and one that may stays.
pub proof fn unfit_selections_are_dropped(advanced: bool)
    ensures
        forall|t: &mut Target| #[trigger]
            call_ensures(Target::prune, (t, advanced), ()) ==> {
            &&& final(t)@.devices == t@.devices
            &&& final(t)@.file == t@.file
            &&& final(t)@.selected is Some ==> final(t)@.selected == t@.selected
            &&& t@.selected matches Some(i) ==> 0 <= i < t@.devices.len() ==> {
                let d = t@.devices[i];
                let fit = d.size_bytes is Some && d.size_bytes->0 > 0 && !d.system && (d.removable
                    == Some(true) || advanced);
                final(t)@.selected is Some <==> fit
            }
        },
{
}

/// The log's newest line is the one that was pushed, and older lines leave from the
/// front alone.
pub proof fn pushed_lines_are_the_newest(line: String)
    ensures
        forall|log: &mut Log| #[trigger]
            call_ensures(Log::push, (log, line), ()) ==> {
            let n = final(log)@.len() as int;
            &&& n > 0
            &&& final(log)@.last() == line@
            &&& n <= log@.len() + 1
            &&& forall|i: int|
                0 <= i < n - 1 ==> #[trigger] final(log)@[i] == log@[log@.len() - (n - 1) + i]
        },
{
}

/// A drive type that was added is found under its name in any case, and what other
/// names find stays.
pub proof fn added_types_are_found(
    t: DriveType,
    name: &str,
    before: &Registry,
    after: &Registry,
    r: Option<&DriveType>,
    earlier: Option<&DriveType>,
)
    requires
        call_ensures(Registry::get, (after, name), r),
        call_ensures(Registry::get, (before, name), earlier),
    ensures
        forall|reg: &mut Registry| #[trigger]
            call_ensures(Registry::add, (reg, t), ()) && *reg == *before && *final(reg) == *after
                ==> {
                let named = crate::text::same_ignoring_case(name@, t@.name);
                &&& named ==> r is Some && r->0@ == t@
                &&& !named ==> (r is Some <==> earlier is Some) && (r is Some ==> r->0@
                    == earlier->0@)
            },
{
    if crate::text::same_ignoring_case(name@, t@.name) {
        crate::drive_types::added_type_is_found(before@, t@, name@);
    } else {
        crate::drive_types::adding_keeps_other_names(before@, t@, name@);
    }
}

} // verus!

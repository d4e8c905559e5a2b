//! Ending a write run, and comparing slots with what they ought to hold.

use vstd::prelude::*;
use vstd::string::*;

use crate::buffer::AlignedBuf;
use crate::device::{in_reach, range, same_make, untouched, Bytes, RawDevice};
use crate::engine::plan::{job_views, EngineOpts, WriteJob, WriteJobView};
use crate::engine::session::{slot_text, toc_to_update, toc_write_effect, toc_written, Session};
use crate::engine::stream::{
    all_is_part, chunk_ok, emit_phase, emit_slot_end, emit_slot_start, ensure_buf,
    hash_device_range_detect_zero_with_buf, no_events, partly_emitted, partly_in_a_row, progress_from,
};
use crate::engine::write::{image_total, job_ok, jobs_ok, slot_start_event, total_len, WriteRun};
use crate::error::{val_err_text, Error, ErrorView, Result};
use crate::events::{emitted, emitted_in_a_row, EventSink, EventView, OpKind};
use crate::layout::{hex, TOC_REGION_LEN};
use crate::sha::Hasher;
use crate::text::{cat2, cat3, cat4, clone_opt, dec_text, opt_text, texts};
use crate::toc::{
    now_unix, oversize, rounded_up, sha_hex, Toc, TocEntry, TocEntryView, TocView, HEADER_LEN,
};

verus! {

// ---------------------------------------------------------------------------
// TOC records of written images
// ---------------------------------------------------------------------------

pub open spec fn entry_for(j: WriteJobView, sha: Seq<char>, time: u64) -> TocEntryView {
    TocEntryView {
        bank: j.bank,
        unit: j.unit,
        offset: j.extent.offset,
        name: j.slot_name,
        length: j.image_len,
        sha256: sha,
        written_unix: time,
    }
}

/// The table with a record for each of the first `n` jobs.
pub open spec fn with_records(
    t: TocView,
    jobs: Seq<WriteJobView>,
    hashes: Seq<Seq<char>>,
    times: Seq<u64>,
    n: int,
) -> TocView
    decreases n,
{
    if n <= 0 {
        t
    } else {
        with_records(t, jobs, hashes, times, n - 1).upserted(
            entry_for(jobs[n - 1], hashes[n - 1], times[n - 1]),
        )
    }
}

/// Record written images in a table: length, hash and time of each.
pub fn record_writes(
    toc: Toc,
    jobs: &Vec<WriteJob>,
    hashes: &Vec<String>,
    times: &Vec<u64>,
) -> (r: Toc)
    requires
        hashes@.len() == jobs@.len(),
        times@.len() == jobs@.len(),
    ensures
        r@ == with_records(
            toc@,
            job_views(jobs@),
            texts(hashes@),
            times@,
            jobs@.len() as int,
        ),
{
    let mut t = toc;
    let ghost start = t@;
    for i in 0..jobs.len()
        invariant
            hashes@.len() == jobs@.len(),
            times@.len() == jobs@.len(),
            t@ == with_records(start, job_views(jobs@), texts(hashes@), times@, i as int),
    {
        let j = &jobs[i];
        let e = TocEntry {
            bank: j.bank.clone(),
            unit: j.unit,
            offset: j.extent.offset,
            name: clone_opt(&j.slot_name),
            length: j.image_len,
            sha256: hashes[i].clone(),
            written_unix: times[i],
        };
        assert(job_views(jobs@)[i as int] == j@);
        assert(texts(hashes@)[i as int] == hashes@[i as int]@);
        assert(e@ == entry_for(j@, hashes@[i as int]@, times@[i as int]));
        t.upsert(e);
    }
    t
}

/// The first record found after writes is that of the last job of the slot.
pub proof fn written_slots_are_recorded(
    t: TocView,
    jobs: Seq<WriteJobView>,
    hashes: Seq<Seq<char>>,
    times: Seq<u64>,
    n: int,
    k: int,
)
    requires
        0 <= k < n <= jobs.len(),
        forall|i: int|
            k < i < n ==> !((#[trigger] jobs[i]).bank == jobs[k].bank && jobs[i].unit
                == jobs[k].unit),
    ensures
        with_records(t, jobs, hashes, times, n).found(jobs[k].bank, jobs[k].unit) == Some(
            entry_for(jobs[k], hashes[k], times[k]),
        ),
    decreases n,
{
    let before = with_records(t, jobs, hashes, times, n - 1);
    let e = entry_for(jobs[n - 1], hashes[n - 1], times[n - 1]);
    if k == n - 1 {
        crate::toc::upserted_record_is_found(before, e);
    } else {
        written_slots_are_recorded(t, jobs, hashes, times, n - 1, k);
        assert(!(jobs[n - 1].bank == jobs[k].bank && jobs[n - 1].unit == jobs[k].unit));
        crate::toc::upserting_keeps_other_slots(before, e, jobs[k].bank, jobs[k].unit);
    }
}

/// Writes leave the records of slots that no job names.
pub proof fn other_slots_keep_their_records(
    t: TocView,
    jobs: Seq<WriteJobView>,
    hashes: Seq<Seq<char>>,
    times: Seq<u64>,
    n: int,
    bank: Seq<char>,
    unit: u32,
)
    requires
        0 <= n <= jobs.len(),
        forall|i: int|
            0 <= i < n ==> !((#[trigger] jobs[i]).bank == bank && jobs[i].unit == unit),
    ensures
        with_records(t, jobs, hashes, times, n).found(bank, unit) == t.found(bank, unit),
    decreases n,
{
    if n > 0 {
        let before = with_records(t, jobs, hashes, times, n - 1);
        let e = entry_for(jobs[n - 1], hashes[n - 1], times[n - 1]);
        assert(!(jobs[n - 1].bank == bank && jobs[n - 1].unit == unit));
        other_slots_keep_their_records(t, jobs, hashes, times, n - 1, bank, unit);
        crate::toc::upserting_keeps_other_slots(before, e, bank, unit);
    }
}

// ---------------------------------------------------------------------------
// Comparing a slot with a hash
// ---------------------------------------------------------------------------

/// The hash of what a device holds for a job.
pub open spec fn held_hash(c: Bytes, j: WriteJobView) -> Seq<char> {
    sha_hex(range(c, j.extent.offset as int, j.image_len as nat))
}

/// The events of comparing a slot with a hash; `word` says what was done.
pub open spec fn check_events(
    c: Bytes,
    j: WriteJobView,
    expect: Seq<char>,
    chunk: int,
    word: Seq<char>,
) -> Seq<EventView> {
    let actual = held_hash(c, j);
    seq![slot_start_event(j, OpKind::Verify)] + progress_from(
        j.bank,
        j.unit,
        0,
        j.image_len,
        chunk,
    ) + seq![
        (EventView::SlotEnd {
            op: OpKind::Verify,
            bank: j.bank,
            unit: j.unit,
            ok: actual == expect,
            detail: if actual == expect {
                None
            } else {
                Some("expected "@ + expect + ", "@ + word + " "@ + actual)
            },
        }),
    ]
}

/// Hash a slot and compare; returns the hash that was read.
fn check_slot<D: RawDevice, S: EventSink>(
    dev: &mut D,
    buf: &mut AlignedBuf,
    j: &WriteJob,
    expect: &String,
    chunk: usize,
    word: &str,
    sink: &mut S,
) -> (r: Result<String>)
    requires
        chunk_ok(chunk, old(dev).sector()),
        old(buf).wf(),
        job_ok(j@, old(dev).sector()),
    ensures
        untouched(old(dev), final(dev)),
        final(buf).wf(),
        r matches Ok(actual) ==> actual@ == held_hash(old(dev).contents(), j@) && emitted(
            old(sink),
            check_events(old(dev).contents(), j@, expect@, chunk as int, word@),
            final(sink),
        ),
        r is Err ==> partly_emitted(
            old(sink),
            check_events(old(dev).contents(), j@, expect@, chunk as int, word@),
            final(sink),
        ),
        old(dev).reliable() && in_reach(
            old(dev),
            j.extent.offset + rounded_up(j.image_len as int, old(dev).sector() as int),
        ) ==> r is Ok,
{
    let ghost c = dev.contents();
    let ghost start = seq![slot_start_event(j@, OpKind::Verify)];
    let ghost moves = progress_from(j@.bank, j.unit, 0, j.image_len, chunk as int);
    let ghost full = check_events(c, j@, expect@, chunk as int, word@);
    emit_slot_start(sink, OpKind::Verify, &j.bank, j.unit, j.image_len);
    let ghost s1 = *sink;
    let got = hash_device_range_detect_zero_with_buf(
        dev,
        j.extent.offset,
        j.image_len,
        chunk,
        buf,
        sink,
        &j.bank,
        j.unit,
    );
    match got {
        Err(e) => {
            proof {
                let last = seq![full.last()];
                partly_in_a_row(old(sink), start, &s1, moves, sink, last);
                assert(start + moves + last =~= full);
            }
            Err(e)
        },
        Ok(h) => {
            let actual = h.0;
            let ok = actual == *expect;
            let detail = if ok {
                None
            } else {
                let mut m = cat4("expected ", expect, ", ", word);
                m.append(" ");
                m.append(&actual);
                Some(m)
            };
            let ghost s2 = *sink;
            proof {
                emitted_in_a_row(old(sink), start, &s1, moves, &s2);
            }
            let ghost d = opt_text(detail);
            emit_slot_end(sink, OpKind::Verify, &j.bank, j.unit, ok, detail);
            proof {
                let end = seq![
                    (EventView::SlotEnd {
                        op: OpKind::Verify,
                        bank: j@.bank,
                        unit: j.unit,
                        ok,
                        detail: d,
                    }),
                ];
                emitted_in_a_row(old(sink), start + moves, &s2, end, sink);
                assert(start + moves + end =~= full);
            }
            Ok(actual)
        },
    }
}

// ---------------------------------------------------------------------------
// The verify pass of a write
// ---------------------------------------------------------------------------

/// The first job from `i` on whose slot does not hold what was written.
pub open spec fn first_bad(
    c: Bytes,
    jobs: Seq<WriteJobView>,
    hashes: Seq<Seq<char>>,
    i: int,
) -> int
    decreases jobs.len() - i,
{
    if i < 0 || i >= jobs.len() {
        jobs.len() as int
    } else if held_hash(c, jobs[i]) != hashes[i] {
        i
    } else {
        first_bad(c, jobs, hashes, i + 1)
    }
}

/// The events of comparing jobs from `i` on, up to the first that differs.
pub open spec fn verify_events_from(
    c: Bytes,
    jobs: Seq<WriteJobView>,
    hashes: Seq<Seq<char>>,
    i: int,
    chunk: int,
) -> Seq<EventView>
    decreases jobs.len() - i,
{
    if i < 0 || i >= jobs.len() {
        Seq::empty()
    } else {
        check_events(c, jobs[i], hashes[i], chunk, "read back"@) + if held_hash(c, jobs[i])
            != hashes[i] {
            Seq::empty()
        } else {
            verify_events_from(c, jobs, hashes, i + 1, chunk)
        }
    }
}

pub open spec fn verify_events(
    c: Bytes,
    jobs: Seq<WriteJobView>,
    hashes: Seq<Seq<char>>,
    chunk: int,
) -> Seq<EventView> {
    seq![
        (EventView::PhaseStart {
            op: OpKind::Verify,
            bytes: image_total(jobs, jobs.len() as int) as u64,
        }),
    ] + verify_events_from(c, jobs, hashes, 0, chunk)
}

pub open spec fn mismatch(j: WriteJobView, actual: Seq<char>, expect: Seq<char>) -> ErrorView {
    ErrorView::VerifyMismatch(
        "slot "@ + slot_text(j.bank, j.unit) + " read back with SHA-256 "@ + actual
            + ", expected "@ + expect,
    )
}

/// The jobs' images, rounded to whole sectors, can be read back.
pub open spec fn jobs_in_reach<D: RawDevice>(dev: &D, jobs: Seq<WriteJobView>, sector: u32) -> bool {
    forall|i: int|
        0 <= i < jobs.len() ==> in_reach(
            dev,
            (#[trigger] jobs[i]).extent.offset + rounded_up(
                jobs[i].image_len as int,
                sector as int,
            ),
        )
}

/// `r` is what a verify pass returns: success where every slot holds what was
/// written, else the mismatch of the first that does not.
pub open spec fn verify_outcome(
    c: Bytes,
    jobs: Seq<WriteJobView>,
    hashes: Seq<Seq<char>>,
    r: Result<()>,
) -> bool {
    let k = first_bad(c, jobs, hashes, 0);
    match r {
        Ok(_) => k == jobs.len(),
        Err(e) => k < jobs.len() && e@ == mismatch(jobs[k], held_hash(c, jobs[k]), hashes[k]),
    }
}

impl<'a, D: RawDevice> Session<'a, D> {
    /// Re-read written slots and compare them with the hashes of their images.
    pub fn verify_pass<S: EventSink>(
        &mut self,
        jobs: &Vec<WriteJob>,
        hashes: &Vec<String>,
        chunk: usize,
        sink: &mut S,
    ) -> (r: Result<()>)
        requires
            old(self).wf(),
            chunk_ok(chunk, old(self).layout.sector_size),
            jobs_ok(job_views(jobs@), old(self).layout.sector_size),
            image_total(job_views(jobs@), jobs@.len() as int) <= u64::MAX,
            hashes@.len() == jobs@.len(),
        ensures
            final(self).wf(),
            final(self).continues(&*old(self)),
            final(self).toc_state() == old(self).toc_state(),
            untouched(&*old(self).dev, &*final(self).dev),
            r is Ok ==> verify_outcome(
                old(self).dev.contents(),
                job_views(jobs@),
                texts(hashes@),
                r,
            ) && emitted(
                old(sink),
                verify_events(
                    old(self).dev.contents(),
                    job_views(jobs@),
                    texts(hashes@),
                    chunk as int,
                ),
                final(sink),
            ),
            r is Err ==> partly_emitted(
                old(sink),
                verify_events(
                    old(self).dev.contents(),
                    job_views(jobs@),
                    texts(hashes@),
                    chunk as int,
                ),
                final(sink),
            ),
            old(self).dev.reliable() && jobs_in_reach(
                &*old(self).dev,
                job_views(jobs@),
                old(self).layout.sector_size,
            ) ==> verify_outcome(
                old(self).dev.contents(),
                job_views(jobs@),
                texts(hashes@),
                r,
            ),
    {
        let ghost v = job_views(jobs@);
        let ghost hs = texts(hashes@);
        let ghost c = self.dev.contents();
        let ghost ch = chunk as int;
        let ghost n = jobs@.len() as int;
        let ghost sector = self.layout.sector_size;
        let total: u64 = total_len(jobs);
        emit_phase(sink, OpKind::Verify, total);
        ensure_buf(&mut self.buf, chunk);
        let ghost full = verify_events(c, v, hs, ch);
        let ghost mut sent = seq![(EventView::PhaseStart { op: OpKind::Verify, bytes: total })];
        for i in 0..jobs.len()
            invariant
                self.wf(),
                self.layout == old(self).layout,
                self.toc_state() == old(self).toc_state(),
                untouched(&*old(self).dev, &*self.dev),
                same_make(&*old(self).dev, &*self.dev),
                v == job_views(jobs@),
                hs == texts(hashes@),
                n == jobs@.len() == hashes@.len(),
                c == old(self).dev.contents(),
                ch == chunk,
                sector == old(self).layout.sector_size,
                sector == self.dev.sector(),
                chunk_ok(chunk, sector),
                jobs_ok(v, sector),
                full == verify_events(c, v, hs, ch),
                full == sent + verify_events_from(c, v, hs, i as int, ch),
                first_bad(c, v, hs, 0) == first_bad(c, v, hs, i as int),
                emitted(old(sink), sent, sink),
        {
            let j = &jobs[i];
            assert(v[i as int] == j@);
            assert(hs[i as int] == hashes@[i as int]@);
            assert(job_ok(v[i as int], sector));
            let ghost s0 = *sink;
            let ghost here = check_events(c, j@, hs[i as int], ch, "read back"@);
            let ghost rest = if held_hash(c, v[i as int]) != hs[i as int] {
                Seq::empty()
            } else {
                verify_events_from(c, v, hs, i + 1, ch)
            };
            assert(full == sent + (here + rest));
            let got = check_slot(
                self.dev,
                &mut self.buf,
                j,
                &hashes[i],
                chunk,
                "read back",
                sink,
            );
            match got {
                Err(e) => {
                    proof {
                        partly_in_a_row(old(sink), sent, &s0, here, sink, rest);
                        assert(sent + here + rest =~= full);
                    }
                    return Err(e);
                },
                Ok(actual) => {
                    proof {
                        emitted_in_a_row(old(sink), sent, &s0, here, sink);
                    }
                    if actual != hashes[i] {
                        let u = dec_text(j.unit as u64);
                        let slot = cat3(&j.bank, ":", &u);
                        let mut m = cat4(
                            "slot ",
                            &slot,
                            " read back with SHA-256 ",
                            &actual,
                        );
                        m.append(", expected ");
                        m.append(&hashes[i]);
                        proof {
                            assert(sent + here =~= full);
                            all_is_part(old(sink), full, sink);
                        }
                        return Err(Error::VerifyMismatch(m));
                    }
                    proof {
                        assert(sent + (here + rest) =~= (sent + here) + rest);
                        sent = sent + here;
                    }
                },
            }
        }
        assert(sent =~= full);
        Ok(())
    }

    /// The TOC with a record for each written image, stamped with the time.
    pub fn toc_after_writes(&self, run: &WriteRun) -> (r: Toc)
        requires
            self.toc_cache is Some,
            run.hashes@.len() == run.jobs@.len(),
        ensures
            exists|times: Seq<u64>|
                times.len() == run.jobs@.len() && r@ == #[trigger] with_records(
                    toc_to_update(self.layout@, self.toc_state()->0),
                    run.plan(),
                    texts(run.hashes@),
                    times,
                    run.jobs@.len() as int,
                ),
    {
        let toc = self.toc_for_update();
        let mut times: Vec<u64> = Vec::new();
        for i in 0..run.jobs.len()
            invariant
                times@.len() == i,
        {
            times.push(now_unix());
        }
        let r = record_writes(toc, &run.jobs, &run.hashes, &times);
        assert(r@ == with_records(
            toc_to_update(self.layout@, self.toc_state()->0),
            run.plan(),
            texts(run.hashes@),
            times@,
            run.jobs@.len() as int,
        ));
        r
    }

    /// End a write run: put the updated TOC, serialized as `payload`, on the
    /// card, flush, and verify if the run was asked to.
    pub fn finish_writes<S: EventSink>(
        &mut self,
        run: &WriteRun,
        toc: Toc,
        payload: &Vec<u8>,
        sink: &mut S,
    ) -> (r: Result<()>)
        requires
            old(self).wf(),
            run.wf(old(self).layout.sector_size),
            run.need_view() is Commit,
            image_total(run.plan(), run.jobs@.len() as int) <= u64::MAX,
        ensures
            final(self).wf(),
            final(self).continues(&*old(self)),
            toc_write_effect(
                old(self).layout.toc_offset,
                old(self).dev.sector(),
                payload@,
                old(self).dev.contents(),
                final(self).dev.contents(),
            ),
            r is Ok ==> {
                let c = toc_written(
                    old(self).layout.toc_offset,
                    old(self).dev.sector(),
                    payload@,
                    old(self).dev.contents(),
                );
                &&& final(self).dev.contents() == c
                &&& final(self).toc_state() == if old(self).layout.toc_offset is Some {
                    Some(Some(toc@))
                } else {
                    old(self).toc_state()
                }
                &&& run.opts.verify ==> first_bad(c, run.plan(), texts(run.hashes@), 0)
                    == run.jobs@.len() && emitted(
                    old(sink),
                    verify_events(
                        c,
                        run.plan(),
                        texts(run.hashes@),
                        run.opts.chunk_size as int,
                    ),
                    final(sink),
                )
                &&& !run.opts.verify ==> *final(sink) == *old(sink)
                // The card was flushed after its last write, and only read since.
                &&& exists|dev: &mut D, flushed: Result<()>|
                    {
                        &&& dev.contents() == c
                        &&& flushed is Ok
                        &&& #[trigger] call_ensures(D::flush, (dev,), flushed)
                        &&& untouched(&*final(dev), &*final(self).dev)
                        &&& !run.opts.verify ==> *final(self).dev == *final(dev)
                    }
            },
            r is Err ==> if run.opts.verify {
                partly_emitted(
                    old(sink),
                    verify_events(
                        toc_written(
                            old(self).layout.toc_offset,
                            old(self).dev.sector(),
                            payload@,
                            old(self).dev.contents(),
                        ),
                        run.plan(),
                        texts(run.hashes@),
                        run.opts.chunk_size as int,
                    ),
                    final(sink),
                )
            } else {
                *final(sink) == *old(sink)
            },
            old(self).layout.toc_offset is Some && HEADER_LEN + payload@.len() > TOC_REGION_LEN
                ==> (r matches Err(e) && e@ == oversize(payload@.len())),
            old(self).dev.reliable() && (old(self).layout.toc_offset matches Some(t) ==> t
                + rounded_up(TOC_REGION_LEN as int, old(self).dev.sector() as int) <= old(
                self).dev.capacity() && HEADER_LEN + payload@.len() <= TOC_REGION_LEN)
                && jobs_in_reach(
                &*old(self).dev,
                run.plan(),
                old(self).layout.sector_size,
            ) ==> if run.opts.verify {
                verify_outcome(
                    toc_written(
                        old(self).layout.toc_offset,
                        old(self).dev.sector(),
                        payload@,
                        old(self).dev.contents(),
                    ),
                    run.plan(),
                    texts(run.hashes@),
                    r,
                )
            } else {
                r is Ok
            },
    {
        match self.commit_toc(toc, payload) {
            Ok(_) => {},
            Err(e) => {
                proof {
                    no_events(sink);
                    let full = verify_events(
                        toc_written(
                            old(self).layout.toc_offset,
                            old(self).dev.sector(),
                            payload@,
                            old(self).dev.contents(),
                        ),
                        run.plan(),
                        texts(run.hashes@),
                        run.opts.chunk_size as int,
                    );
                    assert(full.take(0) =~= Seq::<EventView>::empty());
                    assert(emitted(old(sink), full.take(0), sink));
                }
                return Err(e);
            },
        }
        if run.opts.verify {
            assert(jobs_in_reach(&*old(self).dev, run.plan(), old(self).layout.sector_size)
                ==> jobs_in_reach(&*self.dev, run.plan(), self.layout.sector_size));
            return self.verify_pass(&run.jobs, &run.hashes, run.opts.chunk_size, sink);
        }
        Ok(())
    }
}

// ---------------------------------------------------------------------------
// Verifying against image files
// ---------------------------------------------------------------------------

/// Why the host could not hash an image file.
#[derive(Debug)]
pub enum HashFailure {
    /// It could not be opened.
    Open(String),
    /// It could not be read.
    Read(String),
}

/// The error for an image file that could not be hashed.
pub open spec fn hash_failure(path: Seq<char>, f: HashFailure) -> ErrorView {
    match f {
        HashFailure::Open(said) => ErrorView::Validation("cannot open "@ + path + ": "@ + said@),
        HashFailure::Read(said) => ErrorView::Validation("read error in "@ + path + ": "@ + said@),
    }
}

pub fn hash_failure_err(path: &str, f: &HashFailure) -> (r: Error)
    ensures
        r@ == hash_failure(path@, *f),
{
    match f {
        HashFailure::Open(said) => {
            let ctx = cat2("cannot open ", path);
            val_err_text(&ctx, said)
        },
        HashFailure::Read(said) => {
            let ctx = cat2("read error in ", path);
            val_err_text(&ctx, said)
        },
    }
}

/// The hash of the bytes that a hasher was fed, such as those of a file.
pub fn file_sha256(fed: Hasher) -> (r: String)
    ensures
        r@ == sha_hex(fed@),
{
    let d = fed.finish();
    hex(&d)
}

/// A verification of slots against image files in progress.
pub struct VerifyRun {
    pub jobs: Vec<WriteJob>,
    pub chunk_size: usize,
    /// The job whose image the host hashes next.
    pub at: usize,
    /// Slots that differ from their images, as `bank:unit`.
    pub mismatches: Vec<String>,
    /// What the device holds during the verification.
    pub origin: Ghost<Bytes>,
    /// The hashes of the images that were compared.
    pub hashes: Ghost<Seq<Seq<char>>>,
}

/// The slots among the first `n` jobs that do not hold what hashes to the hash of
/// their image, as `bank:unit`.
pub open spec fn differing(
    c: Bytes,
    jobs: Seq<WriteJobView>,
    hashes: Seq<Seq<char>>,
    n: int,
) -> Seq<Seq<char>>
    decreases n,
{
    if n <= 0 {
        Seq::empty()
    } else {
        let before = differing(c, jobs, hashes, n - 1);
        if held_hash(c, jobs[n - 1]) == hashes[n - 1] {
            before
        } else {
            before.push(slot_text(jobs[n - 1].bank, jobs[n - 1].unit))
        }
    }
}

proof fn differing_in_front(
    c: Bytes,
    jobs: Seq<WriteJobView>,
    hashes: Seq<Seq<char>>,
    more: Seq<char>,
    n: int,
)
    requires
        n <= hashes.len(),
    ensures
        differing(c, jobs, hashes.push(more), n) == differing(c, jobs, hashes, n),
    decreases n,
{
    if n > 0 {
        differing_in_front(c, jobs, hashes, more, n - 1);
    }
}

/// A complete verification names exactly the slots that differ from their
/// images, in order.
pub proof fn complete_verifications_name_every_difference(run: VerifyRun, sector: u32)
    requires
        run.wf(sector),
        run.at >= run.jobs@.len(),
    ensures
        run.hashes@.len() == run.jobs@.len(),
        texts(run.mismatches@) == differing(
            run.origin@,
            run.plan(),
            run.hashes@,
            run.jobs@.len() as int,
        ),
{
}

impl VerifyRun {
    pub open spec fn plan(&self) -> Seq<WriteJobView> {
        job_views(self.jobs@)
    }

    pub open spec fn wf(&self, sector: u32) -> bool {
        &&& chunk_ok(self.chunk_size, sector)
        &&& jobs_ok(self.plan(), sector)
        &&& self.at <= self.jobs@.len()
        &&& self.hashes@.len() == self.at
        &&& texts(self.mismatches@) == differing(
            self.origin@,
            self.plan(),
            self.hashes@,
            self.at as int,
        )
    }

    /// The image path that the host is to hash next, if there is one.
    pub fn need(&self) -> (r: Option<&String>)
        ensures
            match r {
                Some(p) => self.at < self.jobs@.len() && p@ == self.jobs@[self.at as int].image@,
                None => self.at >= self.jobs@.len(),
            },
    {
        if self.at < self.jobs.len() {
            Some(&self.jobs[self.at].image)
        } else {
            None
        }
    }
}

impl<'a, D: RawDevice> Session<'a, D> {
    /// Begin to compare slots with image files: announce the total.
    pub fn verify_slots<S: EventSink>(
        &mut self,
        jobs: Vec<WriteJob>,
        opts: &EngineOpts,
        sink: &mut S,
    ) -> (r: VerifyRun)
        requires
            old(self).wf(),
            chunk_ok(opts.chunk_size, old(self).layout.sector_size),
            jobs_ok(job_views(jobs@), old(self).layout.sector_size),
            image_total(job_views(jobs@), jobs@.len() as int) <= u64::MAX,
        ensures
            *final(self) == *old(self),
            r.jobs == jobs,
            r.chunk_size == opts.chunk_size,
            r.at == 0,
            r.mismatches@.len() == 0,
            r.origin@ == old(self).dev.contents(),
            r.wf(old(self).layout.sector_size),
            emitted(
                old(sink),
                seq![
                    (EventView::PhaseStart {
                        op: OpKind::Verify,
                        bytes: image_total(job_views(jobs@), jobs@.len() as int) as u64,
                    }),
                ],
                final(sink),
            ),
    {
        let total: u64 = total_len(&jobs);
        emit_phase(sink, OpKind::Verify, total);
        let run = VerifyRun {
            jobs,
            chunk_size: opts.chunk_size,
            at: 0,
            mismatches: Vec::new(),
            origin: Ghost(self.dev.contents()),
            hashes: Ghost(Seq::empty()),
        };
        assert(texts(run.mismatches@) =~= Seq::<Seq<char>>::empty());
        run
    }

    /// The image that the run asked for hashes to `hashed`, or the host says
    /// why it could not be hashed: compare it with its slot.
    pub fn image_hashed<S: EventSink>(
        &mut self,
        run: &mut VerifyRun,
        hashed: std::result::Result<String, HashFailure>,
        sink: &mut S,
    ) -> (r: Result<()>)
        requires
            old(self).wf(),
            old(run).wf(old(self).layout.sector_size),
            old(run).at < old(run).jobs@.len(),
            old(self).dev.contents() == old(run).origin@,
        ensures
            final(self).wf(),
            final(self).continues(&*old(self)),
            final(self).toc_state() == old(self).toc_state(),
            untouched(&*old(self).dev, &*final(self).dev),
            final(run).wf(old(self).layout.sector_size),
            final(run).jobs == old(run).jobs,
            final(run).chunk_size == old(run).chunk_size,
            final(run).origin == old(run).origin,
            ({
                let j = old(run).jobs@[old(run).at as int]@;
                let c = old(self).dev.contents();
                match hashed {
                    Err(f) => {
                        &&& r matches Err(e) && e@ == hash_failure(j.image, f)
                        &&& *final(run) == *old(run)
                        &&& *final(sink) == *old(sink)
                    },
                    Ok(expect) => {
                        &&& r is Ok ==> {
                            &&& final(run).at == old(run).at + 1
                            &&& final(run).hashes@ == old(run).hashes@.push(expect@)
                            &&& texts(final(run).mismatches@) == if held_hash(c, j) == expect@ {
                                texts(old(run).mismatches@)
                            } else {
                                texts(old(run).mismatches@).push(slot_text(j.bank, j.unit))
                            }
                            &&& emitted(
                                old(sink),
                                check_events(c, j, expect@, old(run).chunk_size as int, "read"@),
                                final(sink),
                            )
                        }
                        &&& r is Err ==> *final(run) == *old(run) && partly_emitted(
                            old(sink),
                            check_events(c, j, expect@, old(run).chunk_size as int, "read"@),
                            final(sink),
                        )
                        &&& old(self).dev.reliable() && in_reach(
                            &*old(self).dev,
                            j.extent.offset + rounded_up(
                                j.image_len as int,
                                old(self).layout.sector_size as int,
                            ),
                        ) ==> r is Ok
                    },
                }
            }),
    {
        let at: usize = run.at;
        assert(run.plan()[at as int] == run.jobs@[at as int]@);
        assert(job_ok(run.plan()[at as int], self.layout.sector_size));
        assert(at < run.jobs.len());
        let expect = match hashed {
            Err(f) => {
                return Err(hash_failure_err(&run.jobs[at].image, &f));
            },
            Ok(h) => h,
        };
        let got = check_slot(
            self.dev,
            &mut self.buf,
            &run.jobs[at],
            &expect,
            run.chunk_size,
            "read",
            sink,
        );
        match got {
            Err(e) => Err(e),
            Ok(actual) => {
                if actual != expect {
                    let u = dec_text(run.jobs[at].unit as u64);
                    let slot = cat3(&run.jobs[at].bank, ":", &u);
                    let ghost before = run.mismatches@;
                    let ghost s = slot@;
                    run.mismatches.push(slot);
                    assert(texts(run.mismatches@) =~= texts(before).push(s));
                }
                run.at = at + 1;
                proof {
                    differing_in_front(
                        run.origin@,
                        run.plan(),
                        run.hashes@,
                        expect@,
                        at as int,
                    );
                }
                run.hashes = Ghost(run.hashes@.push(expect@));
                Ok(())
            },
        }
    }
}

} // verus!

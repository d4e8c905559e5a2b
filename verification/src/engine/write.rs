//! Writing slots. A write run asks for one image after the other, chunk by
//! chunk, puts each chunk on the device, and ends with the TOC and, if asked
//! for, a verify pass.

use vstd::prelude::*;
use vstd::string::*;

use crate::device::{overwrite, overwrites_join, range, same_outside, zeros, Bytes, RawDevice};
use crate::engine::plan::{job_views, EngineOpts, WriteJob, WriteJobView};
use crate::engine::session::{slot_text, Session};
use crate::engine::stream::{
    chunk_ok, emit_phase, emit_progress, emit_slot_end, emit_slot_start, ensure_buf, next_stop,
    progress_event, read_fits,
};
use crate::engine::wipe::sums_align;
use crate::error::{val_err_text, Error, ErrorView, Result};
use crate::events::{emitted, emitted_in_a_row, EventSink, EventView, OpKind};
use crate::layout::hex;
use crate::sha::Hasher;
use crate::text::{cat2, cat4, cat5, dec, dec_text, hex_of, hex_text};
use crate::toc::{round_up, round_wide, rounded_up, rounded_up_props, sha_hex};

verus! {

/// `data` with zeros behind it up to a sector boundary.
pub open spec fn padded(data: Seq<u8>, sector: u32) -> Seq<u8> {
    data + zeros((rounded_up(data.len() as int, sector as int) - data.len()) as nat)
}

/// `c` with the first `n` images in their slots.
pub open spec fn streamed(
    c: Bytes,
    jobs: Seq<WriteJobView>,
    images: Seq<Seq<u8>>,
    n: int,
    sector: u32,
) -> Bytes
    decreases n,
{
    if n <= 0 {
        c
    } else {
        overwrite(
            streamed(c, jobs, images, n - 1, sector),
            jobs[n - 1].extent.offset as int,
            padded(images[n - 1], sector),
        )
    }
}

/// A job that can be transferred in whole sectors.
pub open spec fn job_ok(j: WriteJobView, sector: u32) -> bool {
    &&& j.extent.offset as int % (sector as int) == 0
    &&& j.extent.offset + rounded_up(j.image_len as int, sector as int) <= u64::MAX
}

pub open spec fn jobs_ok(jobs: Seq<WriteJobView>, sector: u32) -> bool {
    forall|i: int| 0 <= i < jobs.len() ==> job_ok(#[trigger] jobs[i], sector)
}

/// Image bytes of the first `n` jobs.
pub open spec fn image_total(jobs: Seq<WriteJobView>, n: int) -> int
    decreases n,
{
    if n <= 0 {
        0
    } else {
        image_total(jobs, n - 1) + jobs[n - 1].image_len
    }
}

pub proof fn image_total_grows(jobs: Seq<WriteJobView>, a: int, b: int)
    requires
        0 <= a <= b,
    ensures
        0 <= image_total(jobs, a) <= image_total(jobs, b),
    decreases b,
{
    if a < b {
        image_total_grows(jobs, a, b - 1);
    } else if a > 0 {
        image_total_grows(jobs, a - 1, a - 1);
    }
}

/// Can the jobs be transferred in whole sectors, and their lengths added up?
pub fn jobs_fit(jobs: &Vec<WriteJob>, sector: u32) -> (r: bool)
    requires
        sector > 0,
    ensures
        r == (jobs_ok(job_views(jobs@), sector) && image_total(
            job_views(jobs@),
            jobs@.len() as int,
        ) <= u64::MAX),
{
    let ghost v = job_views(jobs@);
    let mut total: u64 = 0;
    let mut i: usize = 0;
    while i < jobs.len()
        invariant
            i <= jobs@.len(),
            sector > 0,
            v == job_views(jobs@),
            total == image_total(v, i as int),
            forall|k: int| 0 <= k < i ==> job_ok(#[trigger] v[k], sector),
        decreases jobs@.len() - i,
    {
        let j = &jobs[i];
        assert(v[i as int] == j@);
        let end: u128 = j.extent.offset as u128 + round_wide(j.image_len, sector);
        if j.extent.offset % sector as u64 != 0 || end > u64::MAX as u128 {
            assert(!job_ok(v[i as int], sector));
            return false;
        }
        if j.image_len > u64::MAX - total {
            proof {
                image_total_grows(v, i as int + 1, v.len() as int);
            }
            return false;
        }
        total = total + j.image_len;
        i = i + 1;
    }
    true
}

/// The sum of the jobs' image lengths.
pub fn total_len(jobs: &Vec<WriteJob>) -> (r: u64)
    requires
        image_total(job_views(jobs@), jobs@.len() as int) <= u64::MAX,
    ensures
        r == image_total(job_views(jobs@), jobs@.len() as int),
{
    let mut total: u64 = 0;
    let ghost v = job_views(jobs@);
    for i in 0..jobs.len()
        invariant
            v == job_views(jobs@),
            image_total(v, jobs@.len() as int) <= u64::MAX,
            total == image_total(v, i as int),
    {
        assert(v[i as int] == jobs@[i as int]@);
        proof {
            image_total_grows(v, i + 1, jobs@.len() as int);
        }
        total = total + jobs[i].image_len;
    }
    total
}

/// What a write run needs next.
#[derive(Debug, Clone, Copy, PartialEq, Eq, Structural)]
pub enum WriteNeed {
    /// The image file of this job opened.
    Open(usize),
    /// Bytes of the image file of this job.
    Read { job: usize, offset: u64, want: usize },
    /// The TOC brought up to date: every image is on the device.
    Commit,
}

/// A write in progress.
pub struct WriteRun {
    pub jobs: Vec<WriteJob>,
    pub opts: EngineOpts,
    /// The job in progress.
    pub at: usize,
    pub opened: bool,
    /// How much of its image is on the device.
    pub done: u64,
    pub hasher: Hasher,
    /// Hashes of the images that are complete.
    pub hashes: Vec<String>,
    /// Contents of the device when the run began.
    pub origin: Ghost<Bytes>,
    /// The images that are complete.
    pub images: Ghost<Seq<Seq<u8>>>,
}

impl WriteRun {
    pub open spec fn plan(&self) -> Seq<WriteJobView> {
        job_views(self.jobs@)
    }

    /// What the device holds at this point of the run.
    pub open spec fn expected(&self, sector: u32) -> Bytes {
        let c = streamed(self.origin@, self.plan(), self.images@, self.at as int, sector);
        if self.opened {
            overwrite(c, self.jobs@[self.at as int].extent.offset as int, self.hasher@)
        } else {
            c
        }
    }

    /// The hashes are those of the images, and the lengths those of the jobs.
    pub open spec fn recorded(&self) -> bool {
        &&& self.at <= self.jobs@.len()
        &&& self.images@.len() == self.at
        &&& self.hashes@.len() == self.at
        &&& forall|i: int|
            0 <= i < self.at ==> (#[trigger] self.images@[i]).len() == self.jobs@[i].image_len
                && self.hashes@[i]@ == sha_hex(self.images@[i])
    }

    /// What every step of a run keeps, for a device of that sector size.
    pub open spec fn wf(&self, sector: u32) -> bool {
        &&& chunk_ok(self.opts.chunk_size, sector)
        &&& jobs_ok(self.plan(), sector)
        &&& self.recorded()
        &&& self.opened ==> {
            &&& self.at < self.jobs@.len()
            &&& self.done < self.jobs@[self.at as int].image_len
            &&& self.hasher@.len() == self.done
            &&& self.done as int % (sector as int) == 0
        }
        &&& !self.opened ==> self.done == 0 && self.hasher@.len() == 0
    }

    pub open spec fn need_view(&self) -> WriteNeed {
        if self.at >= self.jobs@.len() {
            WriteNeed::Commit
        } else if !self.opened {
            WriteNeed::Open(self.at)
        } else {
            WriteNeed::Read {
                job: self.at,
                offset: self.done,
                want: (next_stop(
                    self.done as int,
                    self.jobs@[self.at as int].image_len as int,
                    self.opts.chunk_size as int,
                ) - self.done) as usize,
            }
        }
    }

    /// What the run needs next.
    pub fn need(&self) -> (r: WriteNeed)
        requires
            self.opened ==> self.at < self.jobs@.len() && self.done <= self.jobs@[self.at as int].image_len,
        ensures
            r == self.need_view(),
    {
        if self.at >= self.jobs.len() {
            WriteNeed::Commit
        } else if !self.opened {
            WriteNeed::Open(self.at)
        } else {
            let left: u64 = self.jobs[self.at].image_len - self.done;
            let want: usize = if left < self.opts.chunk_size as u64 {
                left as usize
            } else {
                self.opts.chunk_size
            };
            WriteNeed::Read { job: self.at, offset: self.done, want }
        }
    }
}

pub open spec fn slot_start_event(j: WriteJobView, op: OpKind) -> EventView {
    EventView::SlotStart { op, bank: j.bank, unit: j.unit, bytes: j.image_len }
}

pub open spec fn written_event(j: WriteJobView, sha: Seq<char>) -> EventView {
    EventView::SlotEnd {
        op: OpKind::Write,
        bank: j.bank,
        unit: j.unit,
        ok: true,
        detail: Some(sha),
    }
}

/// The run's jobs, options and origin stay.
pub open spec fn same_run(a: &WriteRun, b: &WriteRun) -> bool {
    &&& b.jobs == a.jobs
    &&& b.opts == a.opts
    &&& b.origin == a.origin
}

/// The image in progress is complete: it is recorded and the next job is up.
pub open spec fn completed(a: &WriteRun, image: Seq<u8>, b: &WriteRun) -> bool {
    &&& same_run(a, b)
    &&& b.at == a.at + 1
    &&& !b.opened
    &&& b.images@ == a.images@.push(image)
}

impl<'a, D: RawDevice> Session<'a, D> {
    /// Begin to write all jobs: announce their total.
    pub fn write_slots<S: EventSink>(
        &mut self,
        jobs: Vec<WriteJob>,
        opts: &EngineOpts,
        sink: &mut S,
    ) -> (r: WriteRun)
        requires
            old(self).wf(),
            chunk_ok(opts.chunk_size, old(self).layout.sector_size),
            jobs_ok(job_views(jobs@), old(self).layout.sector_size),
            image_total(job_views(jobs@), jobs@.len() as int) <= u64::MAX,
        ensures
            *final(self) == *old(self),
            r.jobs == jobs,
            r.opts == *opts,
            r.origin@ == old(self).dev.contents(),
            r.at == 0,
            !r.opened,
            r.wf(old(self).layout.sector_size),
            final(self).dev.contents() == r.expected(old(self).layout.sector_size),
            emitted(
                old(sink),
                seq![
                    (EventView::PhaseStart {
                        op: OpKind::Write,
                        bytes: image_total(job_views(jobs@), jobs@.len() as int) as u64,
                    }),
                ],
                final(sink),
            ),
    {
        let total: u64 = total_len(&jobs);
        emit_phase(sink, OpKind::Write, total);
        WriteRun {
            jobs,
            opts: *opts,
            at: 0,
            opened: false,
            done: 0,
            hasher: Hasher::new(),
            hashes: Vec::new(),
            origin: Ghost(self.dev.contents()),
            images: Ghost(Seq::empty()),
        }
    }

    /// The image file that the run asked to open is open, or the host says why
    /// it is not.
    pub fn image_opened<S: EventSink>(
        &mut self,
        run: &mut WriteRun,
        opened: std::result::Result<(), String>,
        sink: &mut S,
    ) -> (r: Result<()>)
        requires
            old(self).wf(),
            old(run).wf(old(self).layout.sector_size),
            old(run).need_view() is Open,
            old(self).dev.contents() == old(run).expected(old(self).layout.sector_size),
        ensures
            *final(self) == *old(self),
            final(run).wf(old(self).layout.sector_size),
            same_run(old(run), final(run)),
            final(self).dev.contents() == final(run).expected(old(self).layout.sector_size),
            match opened {
                Err(said) => {
                    &&& r matches Err(e) && e@ == ErrorView::Validation(
                        "cannot open image "@ + old(run).jobs@[old(run).at as int].image@ + ": "@
                            + said@,
                    )
                    &&& *final(run) == *old(run)
                    &&& *final(sink) == *old(sink)
                },
                Ok(_) => {
                    let j = old(run).jobs@[old(run).at as int]@;
                    &&& r is Ok
                    &&& if j.image_len == 0 {
                        &&& completed(old(run), Seq::empty(), final(run))
                        &&& emitted(
                            old(sink),
                            seq![
                                slot_start_event(j, OpKind::Write),
                                written_event(j, sha_hex(Seq::empty())),
                            ],
                            final(sink),
                        )
                    } else {
                        &&& final(run).at == old(run).at
                        &&& final(run).opened
                        &&& final(run).done == 0
                        &&& final(run).images == old(run).images
                        &&& emitted(
                            old(sink),
                            seq![slot_start_event(j, OpKind::Write)],
                            final(sink),
                        )
                    }
                },
            },
    {
        let ghost sector = self.layout.sector_size;
        let at: usize = run.at;
        match opened {
            Err(said) => {
                let ctx = cat2("cannot open image ", &run.jobs[at].image);
                Err(val_err_text(&ctx, &said))
            },
            Ok(_) => {
                let ghost j = run.jobs@[at as int]@;
                emit_slot_start(
                    sink,
                    OpKind::Write,
                    &run.jobs[at].bank,
                    run.jobs[at].unit,
                    run.jobs[at].image_len,
                );
                if run.jobs[at].image_len == 0 {
                    let ghost before = *run;
                    let ghost s1 = *sink;
                    complete_image(run, sink);
                    proof {
                        assert(before.hasher@ =~= Seq::<u8>::empty());
                        emitted_in_a_row(
                            old(sink),
                            seq![slot_start_event(j, OpKind::Write)],
                            &s1,
                            seq![written_event(j, sha_hex(Seq::empty()))],
                            sink,
                        );
                        assert(seq![slot_start_event(j, OpKind::Write)] + seq![
                            written_event(j, sha_hex(Seq::empty())),
                        ] =~= seq![
                            slot_start_event(j, OpKind::Write),
                            written_event(j, sha_hex(Seq::empty())),
                        ]);
                        next_job_expected(&before, run, sector);
                        rounded_up_props(0, sector as int);
                        assert(padded(Seq::empty(), sector) =~= Seq::<u8>::empty());
                        let c = before.expected(sector);
                        assert(overwrite(c, j.extent.offset as int, Seq::empty()) =~= c);
                    }
                } else {
                    run.opened = true;
                    proof {
                        let c = old(run).expected(sector);
                        assert(run.hasher@ =~= Seq::<u8>::empty());
                        assert(overwrite(c, j.extent.offset as int, Seq::empty()) =~= c);
                    }
                }
                Ok(())
            },
        }
    }

    /// Bytes of the image in progress, as many as the run asked for, or fewer
    /// at the end of the file; or why the host cannot read it.
    pub fn image_bytes<S: EventSink>(
        &mut self,
        run: &mut WriteRun,
        got: std::result::Result<Vec<u8>, String>,
        sink: &mut S,
    ) -> (r: Result<()>)
        requires
            old(self).wf(),
            old(run).wf(old(self).layout.sector_size),
            old(run).need_view() is Read,
            got matches Ok(data) ==> data@.len() <= old(run).need_view()->want,
            old(self).dev.contents() == old(run).expected(old(self).layout.sector_size),
        ensures
            final(self).wf(),
            final(self).continues(&*old(self)),
            final(self).toc_state() == old(self).toc_state(),
            same_run(old(run), final(run)),
            ({
                let j = old(run).jobs@[old(run).at as int]@;
                let sector = old(self).layout.sector_size;
                let stop = old(run).done + old(run).need_view()->want;
                match got {
                    Err(said) => {
                        &&& r matches Err(e) && e@ == ErrorView::Validation(
                            "read error in "@ + j.image + ": "@ + said@,
                        )
                        &&& *final(run) == *old(run)
                        &&& *final(sink) == *old(sink)
                        &&& final(self).dev.contents() == old(self).dev.contents()
                    },
                    Ok(data) => if data@.len() < old(run).need_view()->want {
                        &&& r matches Err(e) && e@ == shrank(j, old(run).done + data@.len())
                        &&& *final(run) == *old(run)
                        &&& *final(sink) == *old(sink)
                        &&& final(self).dev.contents() == old(self).dev.contents()
                    } else {
                        &&& match r {
                            Ok(_) => {
                                let image = old(run).hasher@ + data@;
                                &&& final(run).wf(sector)
                                &&& final(self).dev.contents() == final(run).expected(sector)
                                &&& if stop == j.image_len {
                                    &&& completed(old(run), image, final(run))
                                    &&& emitted(
                                        old(sink),
                                        seq![
                                            progress_event(j.bank, j.unit, stop, j.image_len),
                                            written_event(j, sha_hex(image)),
                                        ],
                                        final(sink),
                                    )
                                } else {
                                    &&& final(run).at == old(run).at
                                    &&& final(run).opened
                                    &&& final(run).hasher@ == image
                                    &&& final(run).images == old(run).images
                                    &&& emitted(
                                        old(sink),
                                        seq![progress_event(j.bank, j.unit, stop, j.image_len)],
                                        final(sink),
                                    )
                                }
                            },
                            Err(e) => {
                                &&& *final(sink) == *old(sink)
                                &&& exists|why: ErrorView| #[trigger]
                                    suspect(
                                        why,
                                        j,
                                        old(run).done as int,
                                        rounded_up(data@.len() as int, sector as int),
                                    ) == e@
                            },
                        }
                        &&& same_outside(
                            old(self).dev.contents(),
                            final(self).dev.contents(),
                            j.extent.offset + old(run).done,
                            j.extent.offset + old(run).done + rounded_up(
                                data@.len() as int,
                                sector as int,
                            ),
                        )
                        &&& old(self).dev.reliable() && j.extent.offset + rounded_up(
                            j.image_len as int,
                            sector as int,
                        ) <= old(self).dev.capacity() ==> r is Ok
                    },
                }
            }),
    {
        let at: usize = run.at;
        let ghost j = run.jobs@[at as int]@;
        let ghost sector = self.layout.sector_size;
        let image_len: u64 = run.jobs[at].image_len;
        let left: u64 = image_len - run.done;
        let want: usize = if left < run.opts.chunk_size as u64 {
            left as usize
        } else {
            run.opts.chunk_size
        };
        assert(want == run.need_view()->want);
        assert(run.plan()[at as int] == j);
        let data = match got {
            Err(said) => {
                let ctx = cat2("read error in ", &run.jobs[at].image);
                return Err(val_err_text(&ctx, &said));
            },
            Ok(d) => d,
        };
        if data.len() < want {
            let a = dec_text(run.done + data.len() as u64);
            let b = dec_text(image_len);
            let mut m = cat4(
                "image ",
                &run.jobs[at].image,
                " shrank while being written (read ",
                &a,
            );
            m.append(" of ");
            m.append(&b);
            m.append(" bytes)");
            return Err(Error::Validation(m));
        }
        proof {
            read_fits(
                run.done as int,
                want as int,
                image_len as int,
                run.opts.chunk_size as int,
                sector as int,
            );
            assert(job_ok(j, sector));
            rounded_up_props(want as int, sector as int);
            rounded_up_props(image_len as int, sector as int);
            sums_align(j.extent.offset as int, run.done as int, sector as int);
        }
        ensure_buf(&mut self.buf, run.opts.chunk_size);
        self.buf.put(&data);
        let whole: usize = round_up(want as u64, self.layout.sector_size as u64) as usize;
        self.buf.zero_range(want, whole);
        let offset: u64 = run.jobs[at].extent.offset + run.done;
        let front = self.buf.front(whole);
        assert(front@ =~= padded(data@, sector));
        let ghost before = self.dev.contents();
        let put = self.dev.write_at(offset, front);
        if let Err(e) = put {
            let said = e.message();
            let a = hex_text(offset);
            let b = hex_text(offset + whole as u64);
            let u = dec_text(run.jobs[at].unit as u64);
            let mut m = cat5(&said, "; suspect byte range 0x", &a, "..0x", &b);
            m.append(" of slot ");
            m.append(&run.jobs[at].bank);
            m.append(":");
            m.append(&u);
            proof {
                let why = e@;
                assert(suspect(
                    why,
                    j,
                    run.done as int,
                    rounded_up(data@.len() as int, sector as int),
                ) == ErrorView::Device(m@)) by {
                    assert(why.text() + "; suspect byte range 0x"@ + hex_of(offset as nat)
                        + "..0x"@ + hex_of((offset + whole) as nat) + " of slot "@ + (j.bank
                        + ":"@ + dec(j.unit as nat)) =~= m@);
                }
            }
            return Err(Error::Device(m));
        }
        let ghost fed = run.hasher@;
        run.hasher.update(&data);
        run.done = run.done + want as u64;
        proof {
            let base = streamed(
                run.origin@,
                run.plan(),
                run.images@,
                at as int,
                sector,
            );
            overwrites_join(base, j.extent.offset as int, fed, padded(data@, sector));
            padding_joins(fed, data@, sector);
        }
        let done: u64 = run.done;
        emit_progress(sink, &run.jobs[at].bank, run.jobs[at].unit, done, image_len);
        if done == image_len {
            let ghost mid = *run;
            let ghost s1 = *sink;
            complete_image(run, sink);
            proof {
                next_job_expected(&mid, run, sector);
                let ev = progress_event(j.bank, j.unit, done as int, image_len);
                let end = written_event(j, sha_hex(fed + data@));
                emitted_in_a_row(old(sink), seq![ev], &s1, seq![end], sink);
                assert(seq![ev] + seq![end] =~= seq![ev, end]);
            }
        } else {
            proof {
                assert(padded(data@, sector) =~= data@);
                assert(padded(fed + data@, sector) =~= fed + data@) by {
                    rounded_up_props((fed + data@).len() as int, sector as int);
                }
            }
        }
        Ok(())
    }
}

/// An image that ended before its length was read.
pub open spec fn shrank(j: WriteJobView, read: int) -> ErrorView {
    ErrorView::Validation(
        "image "@ + j.image + " shrank while being written (read "@ + dec(read as nat) + " of "@
            + dec(j.image_len as nat) + " bytes)"@,
    )
}

/// A device error during a write, with the byte range that may hold anything.
pub open spec fn suspect(why: ErrorView, j: WriteJobView, done: int, len: int) -> ErrorView {
    ErrorView::Device(
        why.text() + "; suspect byte range 0x"@ + hex_of((j.extent.offset + done) as nat) + "..0x"@
            + hex_of((j.extent.offset + done + len) as nat) + " of slot "@ + slot_text(
            j.bank,
            j.unit,
        ),
    )
}

/// The image in progress is complete: record its hash and go to the next job.
fn complete_image<S: EventSink>(run: &mut WriteRun, sink: &mut S)
    requires
        old(run).recorded(),
        old(run).at < old(run).jobs@.len(),
        old(run).hasher@.len() == old(run).jobs@[old(run).at as int].image_len,
    ensures
        completed(old(run), old(run).hasher@, final(run)),
        final(run).recorded(),
        final(run).done == 0,
        final(run).hasher@.len() == 0,
        emitted(
            old(sink),
            seq![
                written_event(
                    old(run).jobs@[old(run).at as int]@,
                    sha_hex(old(run).hasher@),
                ),
            ],
            final(sink),
        ),
{
    let ghost image = run.hasher@;
    let mut h = Hasher::new();
    std::mem::swap(&mut run.hasher, &mut h);
    let d = h.finish();
    let sha = hex(&d);
    let at: usize = run.at;
    assert(at < run.jobs.len());
    emit_slot_end(
        sink,
        OpKind::Write,
        &run.jobs[at].bank,
        run.jobs[at].unit,
        true,
        Some(sha.clone()),
    );
    run.hashes.push(sha);
    run.images = Ghost(run.images@.push(image));
    run.at = at + 1;
    run.opened = false;
    run.done = 0;
}

/// What the device is to hold when the next job is up.
proof fn next_job_expected(a: &WriteRun, b: &WriteRun, sector: u32)
    requires
        a.at < a.jobs@.len(),
        a.images@.len() == a.at,
        completed(a, a.hasher@, b),
    ensures
        b.expected(sector) == overwrite(
            streamed(a.origin@, a.plan(), a.images@, a.at as int, sector),
            a.jobs@[a.at as int].extent.offset as int,
            padded(a.hasher@, sector),
        ),
{
    streamed_prefix(a.origin@, a.plan(), a.images@, b.images@, a.at as int, sector);
    assert(b.images@[a.at as int] == a.hasher@);
    assert(a.plan()[a.at as int] == a.jobs@[a.at as int]@);
}

pub(crate) proof fn streamed_prefix(
    c: Bytes,
    jobs: Seq<WriteJobView>,
    a: Seq<Seq<u8>>,
    b: Seq<Seq<u8>>,
    n: int,
    sector: u32,
)
    requires
        0 <= n <= a.len() <= b.len(),
        forall|i: int| 0 <= i < a.len() ==> a[i] == b[i],
    ensures
        streamed(c, jobs, a, n, sector) == streamed(c, jobs, b, n, sector),
    decreases n,
{
    if n > 0 {
        streamed_prefix(c, jobs, a, b, n - 1, sector);
    }
}

/// Whole sectors, then a padded rest, are the padded whole.
proof fn padding_joins(a: Seq<u8>, b: Seq<u8>, sector: u32)
    requires
        sector > 0,
        a.len() as int % (sector as int) == 0,
    ensures
        a + padded(b, sector) == padded(a + b, sector),
{
    let s = sector as int;
    let x = a.len() as int;
    let y = b.len() as int;
    rounded_up_props(y, s);
    rounded_up_props(x + y, s);
    let q = x / s;
    assert(x == q * s) by (nonlinear_arith)
        requires
            x % s == 0,
            q == x / s,
            s > 0,
    ;
    assert((x + y + s - 1) / s == q + (y + s - 1) / s) by (nonlinear_arith)
        requires
            x == q * s,
            s > 0,
    ;
    assert((q + (y + s - 1) / s) * s == q * s + (y + s - 1) / s * s) by (nonlinear_arith);
    assert(rounded_up(x + y, s) == x + rounded_up(y, s));
    assert(a + padded(b, sector) =~= padded(a + b, sector));
}

} // verus!

//! Extracting slots into files. A read run asks for one file after the other
//! to be created, hands over the slot's bytes chunk by chunk, and asks for the
//! file to be made durable.

use vstd::prelude::*;
use vstd::string::*;

use crate::device::{in_reach, range, untouched, Bytes, RawDevice};
use crate::engine::plan::{EngineOpts, ReadJob};
use crate::engine::session::Session;
use crate::engine::stream::{
    chunk_ok, emit_phase, emit_progress, emit_slot_end, emit_slot_start, ensure_buf, next_stop,
    progress_event, read_fits, read_front,
};
use crate::engine::wipe::slot_is_aligned;
use crate::error::{val_err_text, Error, ErrorView, Result};
use crate::events::{emitted, EventSink, EventView, OpKind};
use crate::layout::{slots_lie_in_their_bank, Layout, LayoutView};
use crate::text::cat2;
use crate::toc::{round_up, round_wide, rounded_up, rounded_up_props};

verus! {

/// A job for a slot that exists, whose bytes end within 64 bits.
pub open spec fn read_job_ok(layout: LayoutView, j: ReadJob) -> bool {
    &&& j.bank_idx < layout.banks.len()
    &&& j.unit < layout.banks[j.bank_idx as int].units
    &&& layout.banks[j.bank_idx as int].offset_of(j.unit as int) + rounded_up(
        j.length as int,
        layout.sector_size as int,
    ) <= u64::MAX
}

pub open spec fn read_jobs_ok(layout: LayoutView, jobs: Seq<ReadJob>) -> bool {
    forall|k: int| 0 <= k < jobs.len() ==> read_job_ok(layout, #[trigger] jobs[k])
}

/// Bytes of the first `n` jobs.
pub open spec fn read_total(jobs: Seq<ReadJob>, n: int) -> int
    decreases n,
{
    if n <= 0 {
        0
    } else {
        read_total(jobs, n - 1) + jobs[n - 1].length
    }
}

proof fn read_total_grows(jobs: Seq<ReadJob>, a: int, b: int)
    requires
        0 <= a <= b,
    ensures
        read_total(jobs, a) <= read_total(jobs, b),
    decreases b,
{
    if a < b {
        read_total_grows(jobs, a, b - 1);
    }
}

/// Do the jobs read slots of the layout, within 64 bits, and do their lengths
/// add up?
pub fn reads_fit(layout: &Layout, jobs: &Vec<ReadJob>) -> (r: bool)
    requires
        layout@.valid(),
        layout@.addressable(),
    ensures
        r == (read_jobs_ok(layout@, jobs@) && read_total(jobs@, jobs@.len() as int) <= u64::MAX),
{
    let mut total: u64 = 0;
    let mut i: usize = 0;
    proof {
        crate::powers::power_positive(layout.sector_size as int);
    }
    while i < jobs.len()
        invariant
            i <= jobs@.len(),
            layout@.addressable(),
            layout.sector_size > 0,
            total == read_total(jobs@, i as int),
            forall|k: int| 0 <= k < i ==> read_job_ok(layout@, #[trigger] jobs@[k]),
        decreases jobs@.len() - i,
    {
        let j = &jobs[i];
        if j.bank_idx >= layout.banks.len() {
            assert(!read_job_ok(layout@, jobs@[i as int]));
            return false;
        }
        let bank = &layout.banks[j.bank_idx];
        assert(layout@.banks[j.bank_idx as int] == bank@);
        if j.unit >= bank.units {
            assert(!read_job_ok(layout@, jobs@[i as int]));
            return false;
        }
        proof {
            slots_lie_in_their_bank(bank@, j.unit as int);
        }
        let end: u128 = bank.slot_offset(j.unit) as u128 + round_wide(
            j.length,
            layout.sector_size,
        );
        if end > u64::MAX as u128 {
            assert(!read_job_ok(layout@, jobs@[i as int]));
            return false;
        }
        if j.length > u64::MAX - total {
            proof {
                read_total_grows(jobs@, i as int + 1, jobs@.len() as int);
            }
            return false;
        }
        total = total + j.length;
        i = i + 1;
    }
    true
}

/// What a read run needs next.
#[derive(Debug, Clone, Copy, PartialEq, Eq, Structural)]
pub enum ReadNeed {
    /// The output file of this job created.
    Create(usize),
    /// The next bytes of this job's slot, from `read_chunk`, put behind the
    /// output file.
    Append(usize),
    /// The output file of this job made durable.
    Sync(usize),
    /// Nothing more.
    Done,
}

/// An extraction in progress.
pub struct ReadRun {
    pub jobs: Vec<ReadJob>,
    pub chunk_size: usize,
    pub at: usize,
    pub created: bool,
    pub done: u64,
}

impl ReadRun {
    pub open spec fn wf(&self, layout: LayoutView) -> bool {
        &&& chunk_ok(self.chunk_size, layout.sector_size)
        &&& read_jobs_ok(layout, self.jobs@)
        &&& self.at <= self.jobs@.len()
        &&& self.created ==> {
            &&& self.at < self.jobs@.len()
            &&& self.done <= self.jobs@[self.at as int].length
            &&& self.done < self.jobs@[self.at as int].length ==> self.done as int % (
            layout.sector_size as int) == 0
        }
        &&& !self.created ==> self.done == 0
    }

    pub open spec fn need_view(&self) -> ReadNeed {
        if self.at >= self.jobs@.len() {
            ReadNeed::Done
        } else if !self.created {
            ReadNeed::Create(self.at)
        } else if self.done < self.jobs@[self.at as int].length {
            ReadNeed::Append(self.at)
        } else {
            ReadNeed::Sync(self.at)
        }
    }

    pub fn need(&self) -> (r: ReadNeed)
        ensures
            r == self.need_view(),
    {
        if self.at >= self.jobs.len() {
            ReadNeed::Done
        } else if !self.created {
            ReadNeed::Create(self.at)
        } else if self.done < self.jobs[self.at].length {
            ReadNeed::Append(self.at)
        } else {
            ReadNeed::Sync(self.at)
        }
    }

    /// Where the transfer of the job in progress stands after the next chunk.
    pub open spec fn stop(&self) -> int {
        next_stop(
            self.done as int,
            self.jobs@[self.at as int].length as int,
            self.chunk_size as int,
        )
    }

    /// Device offset of the job in progress.
    pub open spec fn offset(&self, layout: LayoutView) -> int {
        layout.banks[self.jobs@[self.at as int].bank_idx as int].offset_of(
            self.jobs@[self.at as int].unit as int,
        )
    }
}

/// The run's jobs and chunk size stay.
pub open spec fn same_read(a: &ReadRun, b: &ReadRun) -> bool {
    b.jobs == a.jobs && b.chunk_size == a.chunk_size
}

/// `e` says that the host failed at `what` with the file of `path`.
pub open spec fn file_failure(what: Seq<char>, path: Seq<char>, said: Seq<char>) -> ErrorView {
    ErrorView::Validation(what + path + ": "@ + said)
}

fn file_err(what: &str, path: &str, said: &str) -> (r: Error)
    ensures
        r@ == file_failure(what@, path@, said@),
{
    let ctx = cat2(what, path);
    val_err_text(&ctx, said)
}

impl<'a, D: RawDevice> Session<'a, D> {
    /// Begin to extract slots: announce their combined total up front, so that
    /// frontends can show progress across the whole extraction.
    pub fn read_slots<S: EventSink>(
        &mut self,
        jobs: Vec<ReadJob>,
        opts: &EngineOpts,
        sink: &mut S,
    ) -> (r: ReadRun)
        requires
            old(self).wf(),
            chunk_ok(opts.chunk_size, old(self).layout.sector_size),
            read_jobs_ok(old(self).layout@, jobs@),
            read_total(jobs@, jobs@.len() as int) <= u64::MAX,
        ensures
            *final(self) == *old(self),
            r.jobs == jobs,
            r.chunk_size == opts.chunk_size,
            r.at == 0,
            !r.created,
            r.wf(old(self).layout@),
            emitted(
                old(sink),
                seq![
                    (EventView::PhaseStart {
                        op: OpKind::Read,
                        bytes: read_total(jobs@, jobs@.len() as int) as u64,
                    }),
                ],
                final(sink),
            ),
    {
        let mut total: u64 = 0;
        for i in 0..jobs.len()
            invariant
                read_total(jobs@, jobs@.len() as int) <= u64::MAX,
                total == read_total(jobs@, i as int),
        {
            proof {
                read_total_grows(jobs@, i + 1, jobs@.len() as int);
            }
            total = total + jobs[i].length;
        }
        emit_phase(sink, OpKind::Read, total);
        ReadRun { jobs, chunk_size: opts.chunk_size, at: 0, created: false, done: 0 }
    }

    /// Begin to extract one slot, with no total announced.
    pub fn read_slot(
        &self,
        bank_idx: usize,
        unit: u32,
        length: u64,
        out_path: &str,
        opts: &EngineOpts,
    ) -> (r: ReadRun)
        requires
            self.wf(),
            chunk_ok(opts.chunk_size, self.layout.sector_size),
            bank_idx < self.layout@.banks.len(),
            unit < self.layout@.banks[bank_idx as int].units,
            self.layout@.banks[bank_idx as int].offset_of(unit as int) + rounded_up(
                length as int,
                self.layout.sector_size as int,
            ) <= u64::MAX,
        ensures
            r.jobs@.len() == 1,
            r.jobs@[0].bank_idx == bank_idx,
            r.jobs@[0].unit == unit,
            r.jobs@[0].length == length,
            r.jobs@[0].out_path@ == out_path@,
            r.chunk_size == opts.chunk_size,
            r.need_view() == ReadNeed::Create(0),
            r.wf(self.layout@),
    {
        let jobs = vec![ReadJob { bank_idx, unit, length, out_path: out_path.to_owned() }];
        ReadRun { jobs, chunk_size: opts.chunk_size, at: 0, created: false, done: 0 }
    }

    /// The output file that the run asked for exists, or the host says why not.
    pub fn file_created<S: EventSink>(
        &mut self,
        run: &mut ReadRun,
        created: std::result::Result<(), String>,
        sink: &mut S,
    ) -> (r: Result<()>)
        requires
            old(self).wf(),
            old(run).wf(old(self).layout@),
            old(run).need_view() is Create,
        ensures
            *final(self) == *old(self),
            final(run).wf(old(self).layout@),
            same_read(old(run), final(run)),
            ({
                let j = old(run).jobs@[old(run).at as int];
                match created {
                    Err(said) => {
                        &&& r matches Err(e) && e@ == file_failure(
                            "cannot create "@,
                            j.out_path@,
                            said@,
                        )
                        &&& *final(run) == *old(run)
                        &&& *final(sink) == *old(sink)
                    },
                    Ok(_) => {
                        &&& r is Ok
                        &&& final(run).at == old(run).at
                        &&& final(run).created
                        &&& final(run).done == 0
                        &&& emitted(
                            old(sink),
                            seq![
                                (EventView::SlotStart {
                                    op: OpKind::Read,
                                    bank: old(self).layout@.banks[j.bank_idx as int].name,
                                    unit: j.unit,
                                    bytes: j.length,
                                }),
                            ],
                            final(sink),
                        )
                    },
                }
            }),
    {
        let at: usize = run.at;
        assert(read_job_ok(self.layout@, run.jobs@[at as int]));
        match created {
            Err(said) => Err(file_err("cannot create ", &run.jobs[at].out_path, &said)),
            Ok(_) => {
                let bank = &self.layout.banks[run.jobs[at].bank_idx];
                assert(self.layout@.banks[run.jobs@[at as int].bank_idx as int] == bank@);
                emit_slot_start(
                    sink,
                    OpKind::Read,
                    &bank.name,
                    run.jobs[at].unit,
                    run.jobs[at].length,
                );
                run.created = true;
                proof {
                    crate::powers::power_positive(self.layout.sector_size as int);
                }
                Ok(())
            },
        }
    }

    /// The next bytes of the slot in progress.
    pub fn read_chunk(&mut self, run: &ReadRun) -> (r: Result<Vec<u8>>)
        requires
            old(self).wf(),
            run.wf(old(self).layout@),
            run.need_view() is Append,
        ensures
            final(self).wf(),
            final(self).continues(&*old(self)),
            final(self).toc_state() == old(self).toc_state(),
            untouched(&*old(self).dev, &*final(self).dev),
            r matches Ok(data) ==> data@ == range(
                old(self).dev.contents(),
                run.offset(old(self).layout@) + run.done,
                (run.stop() - run.done) as nat,
            ),
            old(self).dev.reliable() && in_reach(
                &*old(self).dev,
                run.offset(old(self).layout@) + rounded_up(
                    run.jobs@[run.at as int].length as int,
                    old(self).layout.sector_size as int,
                ),
            ) ==> r is Ok,
    {
        let at: usize = run.at;
        let ghost l = self.layout@;
        let ghost c = self.dev.contents();
        assert(read_job_ok(l, run.jobs@[at as int]));
        let bank_idx: usize = run.jobs[at].bank_idx;
        let unit: u32 = run.jobs[at].unit;
        let length: u64 = run.jobs[at].length;
        proof {
            slot_is_aligned(l, (bank_idx, unit));
        }
        let extent = self.layout.slot_extent(bank_idx, unit);
        let left: u64 = length - run.done;
        let want: usize = if left < run.chunk_size as u64 {
            left as usize
        } else {
            run.chunk_size
        };
        proof {
            read_fits(
                run.done as int,
                want as int,
                length as int,
                run.chunk_size as int,
                l.sector_size as int,
            );
            rounded_up_props(length as int, l.sector_size as int);
        }
        ensure_buf(&mut self.buf, run.chunk_size);
        let whole: usize = round_up(want as u64, self.layout.sector_size as u64) as usize;
        match read_front(self.dev, extent.offset + run.done, &mut self.buf, whole) {
            Err(e) => Err(e),
            Ok(_) => {
                let front = self.buf.front(want);
                let mut out: Vec<u8> = Vec::new();
                let mut i: usize = 0;
                while i < want
                    invariant
                        i <= want == front@.len(),
                        out@ == front@.take(i as int),
                    decreases want - i,
                {
                    out.push(front[i]);
                    i = i + 1;
                    assert(out@ =~= front@.take(i as int));
                }
                assert(out@ =~= range(c, extent.offset + run.done, want as nat));
                Ok(out)
            },
        }
    }

    /// The bytes of `read_chunk` stand in the output file, or the host says
    /// why not.
    pub fn chunk_written<S: EventSink>(
        &mut self,
        run: &mut ReadRun,
        written: std::result::Result<(), String>,
        sink: &mut S,
    ) -> (r: Result<()>)
        requires
            old(self).wf(),
            old(run).wf(old(self).layout@),
            old(run).need_view() is Append,
        ensures
            *final(self) == *old(self),
            final(run).wf(old(self).layout@),
            same_read(old(run), final(run)),
            final(run).at == old(run).at,
            ({
                let j = old(run).jobs@[old(run).at as int];
                match written {
                    Err(said) => {
                        &&& r matches Err(e) && e@ == file_failure(
                            "write error in "@,
                            j.out_path@,
                            said@,
                        )
                        &&& *final(run) == *old(run)
                        &&& *final(sink) == *old(sink)
                    },
                    Ok(_) => {
                        &&& r is Ok
                        &&& final(run).created
                        &&& final(run).done == old(run).stop()
                        &&& emitted(
                            old(sink),
                            seq![
                                progress_event(
                                    old(self).layout@.banks[j.bank_idx as int].name,
                                    j.unit,
                                    old(run).stop(),
                                    j.length,
                                ),
                            ],
                            final(sink),
                        )
                    },
                }
            }),
    {
        let at: usize = run.at;
        assert(read_job_ok(self.layout@, run.jobs@[at as int]));
        match written {
            Err(said) => Err(file_err("write error in ", &run.jobs[at].out_path, &said)),
            Ok(_) => {
                let length: u64 = run.jobs[at].length;
                let left: u64 = length - run.done;
                let want: u64 = if left < run.chunk_size as u64 {
                    left
                } else {
                    run.chunk_size as u64
                };
                proof {
                    read_fits(
                        run.done as int,
                        want as int,
                        length as int,
                        run.chunk_size as int,
                        self.layout.sector_size as int,
                    );
                }
                let bank = &self.layout.banks[run.jobs[at].bank_idx];
                assert(self.layout@.banks[run.jobs@[at as int].bank_idx as int] == bank@);
                run.done = run.done + want;
                emit_progress(sink, &bank.name, run.jobs[at].unit, run.done, length);
                Ok(())
            },
        }
    }

    /// The output file is durable, or the host says why not.
    pub fn file_synced<S: EventSink>(
        &mut self,
        run: &mut ReadRun,
        synced: std::result::Result<(), String>,
        sink: &mut S,
    ) -> (r: Result<()>)
        requires
            old(self).wf(),
            old(run).wf(old(self).layout@),
            old(run).need_view() is Sync,
        ensures
            *final(self) == *old(self),
            final(run).wf(old(self).layout@),
            same_read(old(run), final(run)),
            ({
                let j = old(run).jobs@[old(run).at as int];
                match synced {
                    Err(said) => {
                        &&& r matches Err(e) && e@ == file_failure(
                            "cannot sync "@,
                            j.out_path@,
                            said@,
                        )
                        &&& *final(run) == *old(run)
                        &&& *final(sink) == *old(sink)
                    },
                    Ok(_) => {
                        &&& r is Ok
                        &&& final(run).at == old(run).at + 1
                        &&& !final(run).created
                        &&& emitted(
                            old(sink),
                            seq![
                                (EventView::SlotEnd {
                                    op: OpKind::Read,
                                    bank: old(self).layout@.banks[j.bank_idx as int].name,
                                    unit: j.unit,
                                    ok: true,
                                    detail: None,
                                }),
                            ],
                            final(sink),
                        )
                    },
                }
            }),
    {
        let at: usize = run.at;
        assert(at < run.jobs.len());
        assert(read_job_ok(self.layout@, run.jobs@[at as int]));
        match synced {
            Err(said) => Err(file_err("cannot sync ", &run.jobs[at].out_path, &said)),
            Ok(_) => {
                let bank = &self.layout.banks[run.jobs[at].bank_idx];
                assert(self.layout@.banks[run.jobs@[at as int].bank_idx as int] == bank@);
                emit_slot_end(sink, OpKind::Read, &bank.name, run.jobs[at].unit, true, None);
                run.at = at + 1;
                run.created = false;
                run.done = 0;
                Ok(())
            },
        }
    }
}

/// Chunks of a slot read one behind the other are the slot's bytes: what was
/// handed over up to `done`, and the chunk at `done`, are the bytes up to
/// `stop`.
pub proof fn chunks_join(c: Bytes, offset: int, done: int, stop: int)
    requires
        0 <= done <= stop,
    ensures
        range(c, offset, done as nat) + range(c, offset + done, (stop - done) as nat) == range(
            c,
            offset,
            stop as nat,
        ),
{
    assert(range(c, offset, done as nat) + range(c, offset + done, (stop - done) as nat) =~= range(
        c,
        offset,
        stop as nat,
    ));
}

} // verus!

//! Shared streaming helpers: event emission and hashing of device ranges.

use vstd::prelude::*;
use vstd::string::*;

use crate::buffer::{AlignedBuf, BUFFER_ALIGN};
use crate::device::{all_zero, in_reach, range, untouched, whole_sectors, RawDevice};
use crate::error::Result;
use crate::events::{emitted, Event, EventSink, EventView, OpKind};
use crate::layout::hex;
use crate::sha::Hasher;
use crate::text::opt_text;
use crate::toc::{round_up, rounded_up, rounded_up_props, sha_hex};

verus! {

/// A chunk size that the engine can transfer with: whole sectors that a buffer
/// can hold.
pub open spec fn chunk_ok(chunk: usize, sector: u32) -> bool {
    &&& 0 < chunk
    &&& 0 < sector
    &&& chunk as int % (sector as int) == 0
    &&& chunk + BUFFER_ALIGN <= usize::MAX
}

/// Is a chunk a positive number of whole sectors, and small enough to buffer?
pub fn chunk_fits(chunk: usize, sector: u32) -> (r: bool)
    ensures
        r == chunk_ok(chunk, sector),
{
    chunk > 0 && sector > 0 && chunk as u64 % sector as u64 == 0 && chunk <= usize::MAX
        - BUFFER_ALIGN
}

/// A part of `full`, from its front, was emitted.
pub open spec fn partly_emitted<S: EventSink>(before: &S, full: Seq<EventView>, after: &S) -> bool {
    exists|n: int| 0 <= n <= full.len() && #[trigger] emitted(before, full.take(n), after)
}

pub open spec fn progress_event(bank: Seq<char>, unit: u32, done: int, total: u64) -> EventView {
    EventView::Progress { bank, unit, bytes_done: done as u64, bytes_total: total }
}

/// Where a transfer of `len` bytes stands one chunk behind `done`.
pub open spec fn next_stop(done: int, len: int, chunk: int) -> int {
    if len - done < chunk {
        len
    } else {
        done + chunk
    }
}

/// The progress events of a transfer of `len` bytes from `done` on.
pub open spec fn progress_from(bank: Seq<char>, unit: u32, done: int, len: u64, chunk: int) -> Seq<
    EventView,
>
    decreases len - done,
{
    if done >= len || chunk <= 0 {
        Seq::empty()
    } else {
        let stop = next_stop(done, len as int, chunk);
        seq![progress_event(bank, unit, stop, len)] + progress_from(bank, unit, stop, len, chunk)
    }
}

pub fn emit_slot_start<S: EventSink>(sink: &mut S, op: OpKind, bank: &str, unit: u32, bytes: u64)
    ensures
        emitted(
            old(sink),
            seq![(EventView::SlotStart { op, bank: bank@, unit, bytes })],
            final(sink),
        ),
{
    let ev = Event::SlotStart { op, bank: bank.to_owned(), unit, bytes };
    sink.emit(&ev);
    proof {
        one_event(old(sink), ev@, sink);
    }
}

pub fn emit_slot_end<S: EventSink>(
    sink: &mut S,
    op: OpKind,
    bank: &str,
    unit: u32,
    ok: bool,
    detail: Option<String>,
)
    ensures
        emitted(
            old(sink),
            seq![(EventView::SlotEnd { op, bank: bank@, unit, ok, detail: opt_text(detail) })],
            final(sink),
        ),
{
    let ev = Event::SlotEnd { op, bank: bank.to_owned(), unit, ok, detail };
    sink.emit(&ev);
    proof {
        one_event(old(sink), ev@, sink);
    }
}

pub fn emit_phase<S: EventSink>(sink: &mut S, op: OpKind, bytes: u64)
    ensures
        emitted(old(sink), seq![(EventView::PhaseStart { op, bytes })], final(sink)),
{
    let ev = Event::PhaseStart { op, bytes };
    sink.emit(&ev);
    proof {
        one_event(old(sink), ev@, sink);
    }
}

pub fn emit_progress<S: EventSink>(sink: &mut S, bank: &str, unit: u32, done: u64, total: u64)
    ensures
        emitted(old(sink), seq![progress_event(bank@, unit, done as int, total)], final(sink)),
{
    let ev = Event::Progress {
        bank: bank.to_owned(),
        unit,
        bytes_done: done,
        bytes_total: total,
    };
    sink.emit(&ev);
    proof {
        one_event(old(sink), ev@, sink);
    }
}

pub proof fn one_event<S: EventSink>(before: &S, ev: EventView, after: &S)
    requires
        before.record() matches Some(seen) ==> after.record() == Some(seen.push(ev)),
    ensures
        emitted(before, seq![ev], after),
{
    if before.record() is Some {
        assert(before.record()->0.push(ev) =~= before.record()->0 + seq![ev]);
    }
}

pub proof fn no_events<S: EventSink>(sink: &S)
    ensures
        emitted(sink, Seq::empty(), sink),
{
    if sink.record() is Some {
        assert(sink.record()->0 + Seq::<EventView>::empty() =~= sink.record()->0);
    }
}

/// A batch, then a part of another from its front, is a part of both from the
/// front, whatever follows.
pub proof fn partly_in_a_row<S: EventSink>(
    a: &S,
    first: Seq<EventView>,
    b: &S,
    second: Seq<EventView>,
    c: &S,
    rest: Seq<EventView>,
)
    requires
        emitted(a, first, b),
        partly_emitted(b, second, c),
    ensures
        partly_emitted(a, first + second + rest, c),
{
    let n = choose|n: int| 0 <= n <= second.len() && #[trigger] emitted(b, second.take(n), c);
    crate::events::emitted_in_a_row(a, first, b, second.take(n), c);
    let full = first + second + rest;
    assert(full.take(first.len() + n) =~= first + second.take(n));
}

/// All of a batch is a part of it.
pub proof fn all_is_part<S: EventSink>(a: &S, evs: Seq<EventView>, b: &S)
    requires
        emitted(a, evs, b),
    ensures
        partly_emitted(a, evs, b),
{
    assert(evs.take(evs.len() as int) =~= evs);
}

/// Make the buffer at least `chunk` bytes long.
pub fn ensure_buf(buf: &mut AlignedBuf, chunk: usize)
    requires
        old(buf).wf(),
        0 < chunk,
        chunk + BUFFER_ALIGN <= usize::MAX,
    ensures
        final(buf).wf(),
        final(buf)@.len() >= chunk,
        old(buf)@.len() >= chunk ==> final(buf)@ == old(buf)@,
{
    if buf.len() < chunk {
        *buf = AlignedBuf::new(chunk);
    }
}

/// Read `n` bytes, whole sectors, at `offset` into the front of the buffer.
pub fn read_front<D: RawDevice>(dev: &mut D, offset: u64, buf: &mut AlignedBuf, n: usize) -> (r:
    Result<()>)
    requires
        old(buf).wf(),
        n <= old(buf)@.len(),
        offset + n <= u64::MAX,
        whole_sectors(old(dev).sector(), n as int),
    ensures
        final(buf).wf(),
        final(buf)@.len() == old(buf)@.len(),
        untouched(old(dev), final(dev)),
        r is Ok ==> final(buf)@.take(n as int) == range(
            old(dev).contents(),
            offset as int,
            n as nat,
        ),
        old(dev).reliable() && in_reach(old(dev), offset + n) ==> r is Ok,
{
    let ghost before = buf@;
    let (front, _rest) = buf.as_mut_slice().split_at_mut(n);
    let r = dev.read_at(offset, front);
    assert(buf@.take(n as int) =~= buf@.subrange(0, n as int));
    r
}

fn zero_here(data: &[u8]) -> (r: bool)
    ensures
        r == all_zero(data@),
{
    let mut i: usize = 0;
    while i < data.len()
        invariant
            i <= data@.len(),
            forall|k: int| 0 <= k < i ==> #[trigger] data@[k] == 0,
        decreases data@.len() - i,
    {
        if data[i] != 0 {
            return false;
        }
        i = i + 1;
    }
    true
}

/// SHA-256 of `len` on-device bytes starting at `offset`, plus whether the
/// whole range read as zeros (a wiped slot). Progress of slot `bank:unit` goes
/// to the sink chunk by chunk.
pub fn hash_device_range_detect_zero_with_buf<D: RawDevice, S: EventSink>(
    dev: &mut D,
    offset: u64,
    len: u64,
    chunk_size: usize,
    buf: &mut AlignedBuf,
    sink: &mut S,
    bank: &str,
    unit: u32,
) -> (r: Result<(String, bool)>)
    requires
        chunk_ok(chunk_size, old(dev).sector()),
        old(buf).wf(),
        offset + rounded_up(len as int, old(dev).sector() as int) <= u64::MAX,
    ensures
        r matches Ok(h) ==> {
            &&& h.0@ == sha_hex(range(old(dev).contents(), offset as int, len as nat))
            &&& h.1 == all_zero(range(old(dev).contents(), offset as int, len as nat))
            &&& emitted(
                old(sink),
                progress_from(bank@, unit, 0, len, chunk_size as int),
                final(sink),
            )
        },
        r is Err ==> partly_emitted(
            old(sink),
            progress_from(bank@, unit, 0, len, chunk_size as int),
            final(sink),
        ),
        untouched(old(dev), final(dev)),
        final(buf).wf(),
        final(buf)@.len() >= chunk_size,
        final(buf)@.len() >= old(buf)@.len(),
        old(dev).reliable() && in_reach(
            old(dev),
            offset + rounded_up(len as int, old(dev).sector() as int),
        ) ==> r is Ok,
{
    ensure_buf(buf, chunk_size);
    let sector: u64 = dev.sector_size() as u64;
    let ghost c = dev.contents();
    let ghost full = progress_from(bank@, unit, 0, len, chunk_size as int);
    let ghost mut sent = Seq::<EventView>::empty();
    let mut hasher = Hasher::new();
    let mut zero = true;
    let mut done: u64 = 0;
    proof {
        no_events(sink);
        rounded_up_props(len as int, sector as int);
        assert(Seq::<EventView>::empty() + full =~= full);
        assert(range(c, offset as int, 0) =~= Seq::<u8>::empty());
    }
    while done < len
        invariant
            chunk_ok(chunk_size, sector as u32),
            sector == old(dev).sector(),
            c == old(dev).contents(),
            untouched(old(dev), dev),
            buf.wf(),
            buf@.len() >= chunk_size,
            buf@.len() >= old(buf)@.len(),
            done <= len,
            done < len ==> done as int % (sector as int) == 0,
            offset + rounded_up(len as int, sector as int) <= u64::MAX,
            len <= rounded_up(len as int, sector as int),
            hasher@ == range(c, offset as int, done as nat),
            zero == all_zero(range(c, offset as int, done as nat)),
            full == progress_from(bank@, unit, 0, len, chunk_size as int),
            sent + progress_from(bank@, unit, done as int, len, chunk_size as int) == full,
            emitted(old(sink), sent, sink),
        decreases len - done,
    {
        let left: u64 = len - done;
        let want: u64 = if left < chunk_size as u64 {
            left
        } else {
            chunk_size as u64
        };
        proof {
            read_fits(done as int, want as int, len as int, chunk_size as int, sector as int);
        }
        let whole: usize = round_up(want, sector) as usize;
        let got = read_front(dev, offset + done, buf, whole);
        if let Err(e) = got {
            proof {
                assert(full.take(sent.len() as int) =~= sent);
            }
            return Err(e);
        }
        let data = buf.front(want as usize);
        assert(data@ =~= range(c, offset + done, want as nat));
        hasher.update(data);
        let ghost before = range(c, offset as int, done as nat);
        let ghost after = range(c, offset as int, (done + want) as nat);
        assert(after =~= before + data@);
        let z = zero_here(data);
        proof {
            assert(all_zero(after) == (all_zero(before) && all_zero(data@))) by {
                if all_zero(after) {
                    assert forall|k: int| 0 <= k < before.len() implies #[trigger] before[k]
                        == 0 by {
                        assert(after[k] == 0);
                    }
                    assert forall|k: int| 0 <= k < data@.len() implies #[trigger] data@[k]
                        == 0 by {
                        assert(after[k + before.len()] == 0);
                    }
                }
            }
        }
        zero = zero && z;
        let ghost was = *sink;
        emit_progress(sink, bank, unit, done + want, len);
        proof {
            let ev = progress_event(bank@, unit, done + want, len);
            crate::events::emitted_in_a_row(old(sink), sent, &was, seq![ev], sink);
            let rest = progress_from(bank@, unit, done + want, len, chunk_size as int);
            assert(sent + (seq![ev] + rest) =~= (sent + seq![ev]) + rest);
            sent = sent + seq![ev];
        }
        done = done + want;
    }
    assert(sent =~= full);
    let d = hasher.finish();
    Ok((hex(&d), zero))
}

/// A chunk of a transfer, read in whole sectors, ends inside the transfer
/// rounded up to whole sectors.
pub proof fn read_fits(done: int, want: int, len: int, chunk: int, sector: int)
    requires
        0 <= done < len,
        0 < sector,
        done % sector == 0,
        0 < chunk,
        chunk % sector == 0,
        want == if len - done < chunk {
            len - done
        } else {
            chunk
        },
    ensures
        want <= rounded_up(want, sector) <= chunk,
        done + rounded_up(want, sector) <= rounded_up(len, sector),
        done + want < len ==> (done + want) % sector == 0,
{
    let a = done / sector;
    let b = chunk / sector;
    assert(done == a * sector) by (nonlinear_arith)
        requires
            done % sector == 0,
            a == done / sector,
            sector > 0,
    ;
    assert(chunk == b * sector) by (nonlinear_arith)
        requires
            chunk % sector == 0,
            b == chunk / sector,
            sector > 0,
    ;
    rounded_up_props(want, sector);
    rounded_up_props(len, sector);
    assert((want + sector - 1) / sector <= b) by (nonlinear_arith)
        requires
            want <= b * sector,
            sector > 0,
    ;
    assert(rounded_up(want, sector) <= chunk) by (nonlinear_arith)
        requires
            rounded_up(want, sector) == (want + sector - 1) / sector * sector,
            (want + sector - 1) / sector <= b,
            chunk == b * sector,
            sector > 0,
    ;
    assert(a + (want + sector - 1) / sector <= (len + sector - 1) / sector) by (nonlinear_arith)
        requires
            a * sector + want <= len,
            sector > 0,
    ;
    assert((a + (want + sector - 1) / sector) * sector <= (len + sector - 1) / sector * sector)
        by (nonlinear_arith)
        requires
            a + (want + sector - 1) / sector <= (len + sector - 1) / sector,
            sector > 0,
    ;
    assert((a + (want + sector - 1) / sector) * sector == done + rounded_up(want, sector))
        by (nonlinear_arith)
        requires
            done == a * sector,
            rounded_up(want, sector) == (want + sector - 1) / sector * sector,
    ;
    if done + want < len {
        assert((a + b) * sector == done + want) by (nonlinear_arith)
            requires
                done == a * sector,
                want == b * sector,
        ;
        assert((a + b) * sector % sector == 0) by (nonlinear_arith)
            requires
                sector > 0,
        ;
    }
}

/// SHA-256 and zero test of a device range, with a buffer of its own.
pub fn hash_device_range_detect_zero<D: RawDevice, S: EventSink>(
    dev: &mut D,
    offset: u64,
    len: u64,
    chunk_size: usize,
    sink: &mut S,
    bank: &str,
    unit: u32,
) -> (r: Result<(String, bool)>)
    requires
        chunk_ok(chunk_size, old(dev).sector()),
        offset + rounded_up(len as int, old(dev).sector() as int) <= u64::MAX,
    ensures
        r matches Ok(h) ==> {
            &&& h.0@ == sha_hex(range(old(dev).contents(), offset as int, len as nat))
            &&& h.1 == all_zero(range(old(dev).contents(), offset as int, len as nat))
            &&& emitted(
                old(sink),
                progress_from(bank@, unit, 0, len, chunk_size as int),
                final(sink),
            )
        },
        r is Err ==> partly_emitted(
            old(sink),
            progress_from(bank@, unit, 0, len, chunk_size as int),
            final(sink),
        ),
        untouched(old(dev), final(dev)),
        old(dev).reliable() && in_reach(
            old(dev),
            offset + rounded_up(len as int, old(dev).sector() as int),
        ) ==> r is Ok,
{
    let mut buf = AlignedBuf::new(chunk_size);
    hash_device_range_detect_zero_with_buf(
        dev,
        offset,
        len,
        chunk_size,
        &mut buf,
        sink,
        bank,
        unit,
    )
}

/// SHA-256 of `len` on-device bytes starting at `offset`.
pub fn hash_device_range<D: RawDevice, S: EventSink>(
    dev: &mut D,
    offset: u64,
    len: u64,
    chunk_size: usize,
    sink: &mut S,
    bank: &str,
    unit: u32,
) -> (r: Result<String>)
    requires
        chunk_ok(chunk_size, old(dev).sector()),
        offset + rounded_up(len as int, old(dev).sector() as int) <= u64::MAX,
    ensures
        r matches Ok(h) ==> {
            &&& h@ == sha_hex(range(old(dev).contents(), offset as int, len as nat))
            &&& emitted(
                old(sink),
                progress_from(bank@, unit, 0, len, chunk_size as int),
                final(sink),
            )
        },
        r is Err ==> partly_emitted(
            old(sink),
            progress_from(bank@, unit, 0, len, chunk_size as int),
            final(sink),
        ),
        untouched(old(dev), final(dev)),
        old(dev).reliable() && in_reach(
            old(dev),
            offset + rounded_up(len as int, old(dev).sector() as int),
        ) ==> r is Ok,
{
    match hash_device_range_detect_zero(dev, offset, len, chunk_size, sink, bank, unit) {
        Ok(h) => Ok(h.0),
        Err(e) => Err(e),
    }
}

} // verus!

//! Wiping slots: zeros over a slot's full extent.

use vstd::prelude::*;
use vstd::string::*;

use crate::buffer::AlignedBuf;
use crate::device::{overwrite, overwrites_join, same_make, same_outside, zeros, Bytes, RawDevice};
use crate::engine::plan::EngineOpts;
use crate::engine::session::{toc_to_update, usable, Session};
use crate::engine::stream::{
    chunk_ok, emit_phase, emit_progress, emit_slot_end, emit_slot_start, ensure_buf, no_events,
    partly_emitted, partly_in_a_row, progress_event, progress_from,
};
use crate::error::Result;
use crate::events::{emitted, emitted_in_a_row, EventSink, EventView, OpKind};
use crate::layout::{slots_lie_in_their_bank, Extent, Layout, LayoutView};
use crate::powers::power_positive;
use crate::toc::{Toc, TocView};

verus! {

/// The slots exist in the layout.
pub open spec fn slots_exist(layout: LayoutView, slots: Seq<(usize, u32)>) -> bool {
    forall|k: int|
        0 <= k < slots.len() ==> (#[trigger] slots[k]).0 < layout.banks.len() && slots[k].1
            < layout.banks[slots[k].0 as int].units
}

pub open spec fn extent_of(layout: LayoutView, slot: (usize, u32)) -> Extent {
    layout.slot_extent(slot.0 as int, slot.1 as int)
}

/// Bytes of the first `n` slots.
pub open spec fn wipe_total(layout: LayoutView, slots: Seq<(usize, u32)>, n: int) -> int
    decreases n,
{
    if n <= 0 {
        0
    } else {
        wipe_total(layout, slots, n - 1) + extent_of(layout, slots[n - 1]).len
    }
}

/// `c` with zeros over the first `n` slots.
pub open spec fn wiped(c: Bytes, layout: LayoutView, slots: Seq<(usize, u32)>, n: int) -> Bytes
    decreases n,
{
    if n <= 0 {
        c
    } else {
        let e = extent_of(layout, slots[n - 1]);
        overwrite(wiped(c, layout, slots, n - 1), e.offset as int, zeros(e.len as nat))
    }
}

/// Does one of the first `n` slots hold byte `at`?
pub open spec fn in_slots(layout: LayoutView, slots: Seq<(usize, u32)>, n: int, at: int) -> bool {
    exists|k: int|
        0 <= k < n && extent_of(layout, #[trigger] slots[k]).offset <= at < extent_of(
            layout,
            slots[k],
        ).limit()
}

/// The events of wiping one slot.
pub open spec fn wipe_slot_events(layout: LayoutView, slot: (usize, u32), chunk: int) -> Seq<
    EventView,
> {
    let bank = layout.banks[slot.0 as int].name;
    let len = extent_of(layout, slot).len;
    seq![(EventView::SlotStart { op: OpKind::Wipe, bank, unit: slot.1, bytes: len })]
        + progress_from(bank, slot.1, 0, len, chunk) + seq![
        (EventView::SlotEnd { op: OpKind::Wipe, bank, unit: slot.1, ok: true, detail: None }),
    ]
}

/// The events of wiping the slots from `i` on.
pub open spec fn wipe_events_from(
    layout: LayoutView,
    slots: Seq<(usize, u32)>,
    i: int,
    chunk: int,
) -> Seq<EventView>
    decreases slots.len() - i,
{
    if i < 0 || i >= slots.len() {
        Seq::empty()
    } else {
        wipe_slot_events(layout, slots[i], chunk) + wipe_events_from(layout, slots, i + 1, chunk)
    }
}

/// The events of wiping slots: the total, then slot by slot.
pub open spec fn wipe_events(layout: LayoutView, slots: Seq<(usize, u32)>, chunk: int) -> Seq<
    EventView,
> {
    seq![
        (EventView::PhaseStart {
            op: OpKind::Wipe,
            bytes: wipe_total(layout, slots, slots.len() as int) as u64,
        }),
    ] + wipe_events_from(layout, slots, 0, chunk)
}

/// Zero `len` bytes at `offset`, reporting progress of slot `bank:unit`.
fn wipe_range<D: RawDevice, S: EventSink>(
    dev: &mut D,
    buf: &AlignedBuf,
    offset: u64,
    len: u64,
    chunk: usize,
    sink: &mut S,
    bank: &str,
    unit: u32,
) -> (r: Result<()>)
    requires
        chunk_ok(chunk, old(dev).sector()),
        buf.wf(),
        buf@.len() >= chunk,
        buf@ == zeros(buf@.len()),
        offset + len <= u64::MAX,
        offset as int % (old(dev).sector() as int) == 0,
        len as int % (old(dev).sector() as int) == 0,
    ensures
        same_make(old(dev), final(dev)),
        same_outside(
            old(dev).contents(),
            final(dev).contents(),
            offset as int,
            offset + len,
        ),
        r is Ok ==> final(dev).contents() == overwrite(
            old(dev).contents(),
            offset as int,
            zeros(len as nat),
        ) && emitted(
            old(sink),
            progress_from(bank@, unit, 0, len, chunk as int),
            final(sink),
        ),
        r is Err ==> partly_emitted(
            old(sink),
            progress_from(bank@, unit, 0, len, chunk as int),
            final(sink),
        ),
        old(dev).reliable() && offset + len <= old(dev).capacity() ==> r is Ok,
{
    let ghost c0 = dev.contents();
    let ghost sector = dev.sector() as int;
    let ghost full = progress_from(bank@, unit, 0, len, chunk as int);
    let ghost mut sent = Seq::<EventView>::empty();
    let mut done: u64 = 0;
    proof {
        no_events(sink);
        assert(Seq::<EventView>::empty() + full =~= full);
        assert(overwrite(c0, offset as int, zeros(0)) =~= c0);
    }
    while done < len
        invariant
            chunk_ok(chunk, sector as u32),
            sector == old(dev).sector(),
            c0 == old(dev).contents(),
            same_make(old(dev), dev),
            buf.wf(),
            buf@.len() >= chunk,
            buf@ == zeros(buf@.len()),
            done <= len,
            done as int % sector == 0,
            len as int % sector == 0,
            offset as int % sector == 0,
            offset + len <= u64::MAX,
            dev.contents() == overwrite(c0, offset as int, zeros(done as nat)),
            full == progress_from(bank@, unit, 0, len, chunk as int),
            sent + progress_from(bank@, unit, done as int, len, chunk as int) == full,
            emitted(old(sink), sent, sink),
        decreases len - done,
    {
        let left: u64 = len - done;
        let n: usize = if left < chunk as u64 {
            left as usize
        } else {
            chunk
        };
        proof {
            sums_align(offset as int, done as int, sector);
            sums_align(done as int, done as int, sector);
            sums_align(len as int, -(done as int), sector);
            sums_align(done as int, n as int, sector);
        }
        let data = buf.front(n);
        assert(data@ =~= zeros(n as nat));
        let ghost before = dev.contents();
        let r = dev.write_at(offset + done, data);
        proof {
            overwrites_join(c0, offset as int, zeros(done as nat), zeros(n as nat));
            assert(zeros(done as nat) + zeros(n as nat) =~= zeros((done + n) as nat));
            assert forall|at: int| !(offset <= at < offset + len) implies #[trigger] dev.contents()(
                at,
            ) == c0(at) by {
                assert(before(at) == c0(at));
            }
        }
        if let Err(e) = r {
            proof {
                assert(full.take(sent.len() as int) =~= sent);
            }
            return Err(e);
        }
        let ghost was = *sink;
        emit_progress(sink, bank, unit, done + n as u64, len);
        proof {
            let ev = progress_event(bank@, unit, done + n, len);
            emitted_in_a_row(old(sink), sent, &was, seq![ev], sink);
            let rest = progress_from(bank@, unit, done + n, len, chunk as int);
            assert(sent + (seq![ev] + rest) =~= (sent + seq![ev]) + rest);
            sent = sent + seq![ev];
        }
        done = done + n as u64;
    }
    assert(sent =~= full);
    Ok(())
}

/// Sums of multiples are multiples.
pub proof fn sums_align(a: int, b: int, unit: int)
    requires
        unit > 0,
        a % unit == 0,
        b % unit == 0,
    ensures
        (a + b) % unit == 0,
        (-a) % unit == 0,
{
    let p = a / unit;
    let q = b / unit;
    assert(a == p * unit && b == q * unit) by (nonlinear_arith)
        requires
            a % unit == 0,
            b % unit == 0,
            p == a / unit,
            q == b / unit,
            unit > 0,
    ;
    assert(a + b == (p + q) * unit && -a == (-p) * unit) by (nonlinear_arith)
        requires
            a == p * unit,
            b == q * unit,
    ;
    assert((p + q) * unit % unit == 0 && (-p) * unit % unit == 0) by (nonlinear_arith)
        requires
            unit > 0,
    ;
}

/// A slot of a valid layout starts and ends on sector boundaries.
pub proof fn slot_is_aligned(layout: LayoutView, slot: (usize, u32))
    requires
        usable(layout),
        slot.0 < layout.banks.len(),
        slot.1 < layout.banks[slot.0 as int].units,
    ensures
        extent_of(layout, slot).offset == layout.banks[slot.0 as int].offset_of(slot.1 as int),
        extent_of(layout, slot).limit() <= u64::MAX,
        extent_of(layout, slot).offset as int % (layout.sector_size as int) == 0,
        extent_of(layout, slot).len as int % (layout.sector_size as int) == 0,
        extent_of(layout, slot).len > 0,
        layout.sector_size > 0,
{
    let b = layout.banks[slot.0 as int];
    let s = layout.sector_size as int;
    power_positive(s);
    assert(b.valid(layout.sector_size, layout.allow_unaligned));
    slots_lie_in_their_bank(b, slot.1 as int);
    let u = slot.1 as int;
    let z = b.slot_size as int;
    let q = z / s;
    assert(z == q * s) by (nonlinear_arith)
        requires
            z % s == 0,
            q == z / s,
            s > 0,
    ;
    assert(u * z % s == 0) by (nonlinear_arith)
        requires
            z == q * s,
            s > 0,
    {
        assert(u * z == (u * q) * s);
        assert((u * q) * s % s == 0);
    }
    sums_align(b.base as int, u * z, s);
}

impl<'a, D: RawDevice> Session<'a, D> {
    /// Zero each slot's full extent (a blank pack).
    pub fn wipe_slots<S: EventSink>(
        &mut self,
        slots: &Vec<(usize, u32)>,
        opts: &EngineOpts,
        sink: &mut S,
    ) -> (r: Result<()>)
        requires
            old(self).wf(),
            chunk_ok(opts.chunk_size, old(self).layout.sector_size),
            slots_exist(old(self).layout@, slots@),
            wipe_total(old(self).layout@, slots@, slots@.len() as int) <= u64::MAX,
        ensures
            final(self).wf(),
            final(self).continues(&*old(self)),
            final(self).toc_state() == old(self).toc_state(),
            r is Ok ==> final(self).dev.contents() == wiped(
                old(self).dev.contents(),
                old(self).layout@,
                slots@,
                slots@.len() as int,
            ) && emitted(
                old(sink),
                wipe_events(old(self).layout@, slots@, opts.chunk_size as int),
                final(sink),
            ),
            r is Err ==> partly_emitted(
                old(sink),
                wipe_events(old(self).layout@, slots@, opts.chunk_size as int),
                final(sink),
            ),
            forall|at: int|
                !in_slots(old(self).layout@, slots@, slots@.len() as int, at)
                    ==> #[trigger] final(self).dev.contents()(at) == old(self).dev.contents()(at),
            old(self).dev.reliable() && (forall|k: int|
                0 <= k < slots@.len() ==> extent_of(
                    old(self).layout@,
                    #[trigger] slots@[k],
                ).limit() <= old(self).dev.capacity()) ==> r is Ok,
    {
        let ghost layout = self.layout@;
        let ghost c0 = self.dev.contents();
        let ghost chunk = opts.chunk_size as int;
        let ghost n = slots@.len() as int;
        let mut total: u64 = 0;
        for i in 0..slots.len()
            invariant
                self.wf(),
                layout == self.layout@,
                slots_exist(layout, slots@),
                n == slots@.len(),
                wipe_total(layout, slots@, n) <= u64::MAX,
                total == wipe_total(layout, slots@, i as int),
        {
            proof {
                wipe_total_grows(layout, slots@, i + 1, n);
                slot_is_aligned(layout, slots@[i as int]);
                assert(slots@[i as int].0 < layout.banks.len());
            }
            let e = self.layout.slot_extent(slots[i].0, slots[i].1);
            total = total + e.len;
        }
        emit_phase(sink, OpKind::Wipe, total);
        ensure_buf(&mut self.buf, opts.chunk_size);
        self.buf.zero();
        let ghost phase = seq![(EventView::PhaseStart { op: OpKind::Wipe, bytes: total })];
        let ghost full = wipe_events(layout, slots@, chunk);
        let ghost mut sent = phase;
        for i in 0..slots.len()
            invariant
                self.wf(),
                layout == self.layout@,
                self.layout == old(self).layout,
                same_make(&*old(self).dev, &*self.dev),
                self.toc_state() == old(self).toc_state(),
                n == slots@.len(),
                slots_exist(layout, slots@),
                chunk == opts.chunk_size,
                chunk_ok(opts.chunk_size, layout.sector_size),
                self.buf@.len() >= chunk,
                self.buf@ == zeros(self.buf@.len()),
                c0 == old(self).dev.contents(),
                self.dev.contents() == wiped(c0, layout, slots@, i as int),
                full == wipe_events(layout, slots@, chunk),
                full == sent + wipe_events_from(layout, slots@, i as int, chunk),
                emitted(old(sink), sent, sink),
                old(self).dev.reliable() == self.dev.reliable(),
        {
            let (bank_idx, unit) = slots[i];
            assert(slots@[i as int] == (bank_idx, unit));
            proof {
                slot_is_aligned(layout, slots@[i as int]);
            }
            let bank = &self.layout.banks[bank_idx];
            assert(layout.banks[bank_idx as int] == bank@);
            let e = self.layout.slot_extent(bank_idx, unit);
            let ghost start = seq![
                (EventView::SlotStart { op: OpKind::Wipe, bank: bank@.name, unit, bytes: e.len }),
            ];
            let ghost moves = progress_from(bank@.name, unit, 0, e.len, chunk);
            let ghost end = seq![
                (EventView::SlotEnd {
                    op: OpKind::Wipe,
                    bank: bank@.name,
                    unit,
                    ok: true,
                    detail: None,
                }),
            ];
            let ghost rest = wipe_events_from(layout, slots@, i + 1, chunk);
            let ghost s0 = *sink;
            emit_slot_start(sink, OpKind::Wipe, &bank.name, unit, e.len);
            let ghost s1 = *sink;
            proof {
                emitted_in_a_row(old(sink), sent, &s0, start, &s1);
            }
            let ghost before = self.dev.contents();
            let r = wipe_range(
                self.dev,
                &self.buf,
                e.offset,
                e.len,
                opts.chunk_size,
                sink,
                &bank.name,
                unit,
            );
            if let Err(err) = r {
                proof {
                    partly_in_a_row(old(sink), sent + start, &s1, moves, sink, end + rest);
                    assert((sent + start) + moves + (end + rest) =~= sent + ((start + moves + end)
                        + rest));
                    assert forall|at: int| !in_slots(layout, slots@, n, at) implies #[trigger]
                        self.dev.contents()(at) == c0(at) by {
                        wiped_elsewhere(c0, layout, slots@, i as int, at);
                        assert(!(extent_of(layout, slots@[i as int]).offset <= at < extent_of(
                            layout,
                            slots@[i as int],
                        ).limit()));
                        assert(before(at) == c0(at));
                    }
                }
                return Err(err);
            }
            let ghost s2 = *sink;
            emit_slot_end(sink, OpKind::Wipe, &bank.name, unit, true, None);
            proof {
                emitted_in_a_row(old(sink), sent + start, &s1, moves, &s2);
                emitted_in_a_row(old(sink), sent + start + moves, &s2, end, sink);
                assert(sent + ((start + moves + end) + rest) =~= (sent + start + moves + end)
                    + rest);
                sent = sent + start + moves + end;
            }
        }
        proof {
            assert(sent =~= full);
            assert forall|at: int| !in_slots(layout, slots@, n, at) implies #[trigger]
                self.dev.contents()(at) == c0(at) by {
                wiped_elsewhere(c0, layout, slots@, n, at);
            }
        }
        Ok(())
    }

    /// The TOC without the records of wiped slots.
    pub fn toc_after_wipe(&self, slots: &Vec<(usize, u32)>) -> (r: Toc)
        requires
            self.toc_cache is Some,
            slots_exist(self.layout@, slots@),
        ensures
            r@ == without_slots(
                toc_to_update(self.layout@, self.toc_state()->0),
                self.layout@,
                slots@,
                slots@.len() as int,
            ),
    {
        let mut toc = self.toc_for_update();
        let ghost start = toc@;
        for i in 0..slots.len()
            invariant
                slots_exist(self.layout@, slots@),
                toc@ == without_slots(start, self.layout@, slots@, i as int),
        {
            let (bank_idx, unit) = slots[i];
            assert(slots@[i as int].0 < self.layout@.banks.len());
            let bank = &self.layout.banks[bank_idx];
            assert(self.layout@.banks[bank_idx as int] == bank@);
            toc.remove(&bank.name, unit);
        }
        toc
    }
}

/// The table without the records of the first `n` slots.
pub open spec fn without_slots(
    t: TocView,
    layout: LayoutView,
    slots: Seq<(usize, u32)>,
    n: int,
) -> TocView
    decreases n,
{
    if n <= 0 {
        t
    } else {
        without_slots(t, layout, slots, n - 1).removed(
            layout.banks[slots[n - 1].0 as int].name,
            slots[n - 1].1,
        )
    }
}

proof fn wipe_total_grows(layout: LayoutView, slots: Seq<(usize, u32)>, a: int, b: int)
    requires
        0 <= a <= b,
    ensures
        wipe_total(layout, slots, a) <= wipe_total(layout, slots, b),
    decreases b,
{
    if a < b {
        wipe_total_grows(layout, slots, a, b - 1);
    }
}

/// Are the slots slots of the layout, and do their sizes add up?
pub fn wipes_fit(layout: &Layout, slots: &Vec<(usize, u32)>) -> (r: bool)
    ensures
        r == (slots_exist(layout@, slots@) && wipe_total(layout@, slots@, slots@.len() as int)
            <= u64::MAX),
{
    let mut total: u64 = 0;
    let mut i: usize = 0;
    while i < slots.len()
        invariant
            i <= slots@.len(),
            total == wipe_total(layout@, slots@, i as int),
            forall|k: int|
                0 <= k < i ==> (#[trigger] slots@[k]).0 < layout.banks@.len() && slots@[k].1
                    < layout@.banks[slots@[k].0 as int].units,
        decreases slots@.len() - i,
    {
        let (idx, unit) = slots[i];
        if idx >= layout.banks.len() {
            return false;
        }
        let bank = &layout.banks[idx];
        assert(layout@.banks[idx as int] == bank@);
        if unit >= bank.units {
            return false;
        }
        if bank.slot_size > u64::MAX - total {
            proof {
                wipe_total_grows(layout@, slots@, i as int + 1, slots@.len() as int);
            }
            return false;
        }
        total = total + bank.slot_size;
        i = i + 1;
    }
    true
}

/// Wiping leaves every byte outside the wiped slots.
pub proof fn wiped_elsewhere(
    c: Bytes,
    layout: LayoutView,
    slots: Seq<(usize, u32)>,
    n: int,
    at: int,
)
    requires
        0 <= n <= slots.len(),
        !in_slots(layout, slots, slots.len() as int, at),
    ensures
        wiped(c, layout, slots, n)(at) == c(at),
    decreases n,
{
    if n > 0 {
        wiped_elsewhere(c, layout, slots, n - 1, at);
        let e = extent_of(layout, slots[n - 1]);
        assert(!(e.offset <= at < e.limit()));
    }
}

/// Every byte of a wiped slot is zero.
pub proof fn wiped_slots_are_blank(
    c: Bytes,
    layout: LayoutView,
    slots: Seq<(usize, u32)>,
    n: int,
    at: int,
)
    requires
        0 <= n <= slots.len(),
        in_slots(layout, slots, n, at),
    ensures
        wiped(c, layout, slots, n)(at) == 0,
    decreases n,
{
    let e = extent_of(layout, slots[n - 1]);
    if !(e.offset <= at < e.limit()) {
        let k = choose|k: int|
            0 <= k < n && extent_of(layout, #[trigger] slots[k]).offset <= at < extent_of(
                layout,
                slots[k],
            ).limit();
        assert(k < n - 1);
        assert(in_slots(layout, slots, n - 1, at));
        wiped_slots_are_blank(c, layout, slots, n - 1, at);
    }
}

/// A wiped slot has no record in the table that is written after the wipe.
pub proof fn wiped_slots_have_no_record(
    t: TocView,
    layout: LayoutView,
    slots: Seq<(usize, u32)>,
    n: int,
    k: int,
)
    requires
        0 <= k < n <= slots.len(),
    ensures
        without_slots(t, layout, slots, n).found(
            layout.banks[slots[k].0 as int].name,
            slots[k].1,
        ) is None,
    decreases n,
{
    let name = layout.banks[slots[n - 1].0 as int].name;
    let unit = slots[n - 1].1;
    let before = without_slots(t, layout, slots, n - 1);
    crate::toc::removal_drops_one_slot(before, name, unit);
    let b = layout.banks[slots[k].0 as int].name;
    let u = slots[k].1;
    if !(b == name && u == unit) {
        wiped_slots_have_no_record(t, layout, slots, n - 1, k);
        assert(before.removed(name, unit).found(b, u) == before.found(b, u));
    }
}

} // verus!

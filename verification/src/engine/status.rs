//! The state of every slot: against the TOC where it has a record, against the
//! manifest's image otherwise.

use vstd::prelude::*;
use vstd::string::*;

use crate::buffer::AlignedBuf;
use crate::device::{all_zero, in_reach, range, untouched, Bytes, RawDevice};
use crate::engine::plan::{EngineOpts, ImageFact, ImageFactView, ImageFacts};
use crate::engine::session::Session;
use crate::engine::stream::{
    chunk_ok, emit_phase, emit_slot_end, emit_slot_start, hash_device_range_detect_zero_with_buf,
    no_events, one_event, partly_emitted, partly_in_a_row, progress_from,
};
use crate::engine::verify::{hash_failure, hash_failure_err, HashFailure};
use crate::engine::wipe::slot_is_aligned;
use crate::error::Result;
use crate::events::{emitted, emitted_in_a_row, Event, EventSink, EventView, OpKind, SlotState};
use crate::layout::{slots_lie_in_their_bank, Layout, LayoutView};
use crate::text::{clone_opt, opt_text};
use crate::toc::{round_wide, rounded_up, sha_hex, Toc, TocEntry, TocEntryView, TocView};

verus! {

#[derive(Debug)]
pub struct SlotStatusReport {
    pub bank: String,
    pub unit: u32,
    pub state: SlotState,
    pub name: Option<String>,
    pub length: Option<u64>,
    pub sha256: Option<String>,
}

pub struct SlotStatusReportView {
    pub bank: Seq<char>,
    pub unit: u32,
    pub state: SlotState,
    pub name: Option<Seq<char>>,
    pub length: Option<u64>,
    pub sha256: Option<Seq<char>>,
}

impl View for SlotStatusReport {
    type V = SlotStatusReportView;

    open spec fn view(&self) -> SlotStatusReportView {
        SlotStatusReportView {
            bank: self.bank@,
            unit: self.unit,
            state: self.state,
            name: opt_text(self.name),
            length: self.length,
            sha256: opt_text(self.sha256),
        }
    }
}

pub open spec fn report_views(v: Seq<SlotStatusReport>) -> Seq<SlotStatusReportView> {
    v.map_values(|r: SlotStatusReport| r@)
}

pub open spec fn status_event(r: SlotStatusReportView) -> EventView {
    EventView::SlotStatus {
        bank: r.bank,
        unit: r.unit,
        state: r.state,
        name: r.name,
        length: r.length,
        sha256: r.sha256,
    }
}

fn emit_status<S: EventSink>(sink: &mut S, report: &SlotStatusReport)
    ensures
        emitted(old(sink), seq![status_event(report@)], final(sink)),
{
    let ev = Event::SlotStatus {
        bank: report.bank.clone(),
        unit: report.unit,
        state: report.state,
        name: clone_opt(&report.name),
        length: report.length,
        sha256: clone_opt(&report.sha256),
    };
    sink.emit(&ev);
    proof {
        one_event(old(sink), ev@, sink);
    }
}

// ---------------------------------------------------------------------------
// Probing one slot
// ---------------------------------------------------------------------------

/// What a slot's hash says of it: equal to what is expected, all zeros, or
/// something else.
pub open spec fn classified(
    content: Seq<u8>,
    expect: Seq<char>,
    mismatch_state: SlotState,
) -> SlotState {
    if sha_hex(content) == expect {
        SlotState::Matches
    } else if all_zero(content) {
        SlotState::Wiped
    } else {
        mismatch_state
    }
}

/// The events of hashing one slot.
pub open spec fn probe_events(bank: Seq<char>, unit: u32, length: u64, chunk: int) -> Seq<
    EventView,
> {
    seq![(EventView::SlotStart { op: OpKind::Status, bank, unit, bytes: length })] + progress_from(
        bank,
        unit,
        0,
        length,
        chunk,
    ) + seq![(EventView::SlotEnd { op: OpKind::Status, bank, unit, ok: true, detail: None })]
}

/// Hash one slot's content within a uniform start, progress and end, then
/// classify it.
fn probe_slot<D: RawDevice, S: EventSink>(
    dev: &mut D,
    chunk: usize,
    sink: &mut S,
    buf: &mut AlignedBuf,
    bank: &str,
    unit: u32,
    offset: u64,
    length: u64,
    expect: &String,
    mismatch_state: SlotState,
) -> (r: Result<(SlotState, String)>)
    requires
        chunk_ok(chunk, old(dev).sector()),
        old(buf).wf(),
        offset + rounded_up(length as int, old(dev).sector() as int) <= u64::MAX,
    ensures
        untouched(old(dev), final(dev)),
        final(buf).wf(),
        r matches Ok(p) ==> {
            let content = range(old(dev).contents(), offset as int, length as nat);
            &&& p.0 == classified(content, expect@, mismatch_state)
            &&& p.1@ == sha_hex(content)
            &&& emitted(
                old(sink),
                probe_events(bank@, unit, length, chunk as int),
                final(sink),
            )
        },
        r is Err ==> partly_emitted(
            old(sink),
            probe_events(bank@, unit, length, chunk as int),
            final(sink),
        ),
        old(dev).reliable() && in_reach(
            old(dev),
            offset + rounded_up(length as int, old(dev).sector() as int),
        ) ==> r is Ok,
{
    let ghost start = seq![
        (EventView::SlotStart { op: OpKind::Status, bank: bank@, unit, bytes: length }),
    ];
    let ghost moves = progress_from(bank@, unit, 0, length, chunk as int);
    let ghost end = seq![
        (EventView::SlotEnd {
            op: OpKind::Status,
            bank: bank@,
            unit,
            ok: true,
            detail: None::<Seq<char>>,
        }),
    ];
    emit_slot_start(sink, OpKind::Status, bank, unit, length);
    let ghost s1 = *sink;
    match hash_device_range_detect_zero_with_buf(
        dev,
        offset,
        length,
        chunk,
        buf,
        sink,
        bank,
        unit,
    ) {
        Err(e) => {
            proof {
                partly_in_a_row(old(sink), start, &s1, moves, sink, end);
            }
            Err(e)
        },
        Ok(h) => {
            let ghost s2 = *sink;
            emit_slot_end(sink, OpKind::Status, bank, unit, true, None);
            proof {
                emitted_in_a_row(old(sink), start, &s1, moves, &s2);
                emitted_in_a_row(old(sink), start + moves, &s2, end, sink);
            }
            let (actual, zeroed) = h;
            let state = if actual == *expect {
                SlotState::Matches
            } else if zeroed {
                SlotState::Wiped
            } else {
                mismatch_state
            };
            Ok((state, actual))
        },
    }
}

// ---------------------------------------------------------------------------
// How each slot is probed
// ---------------------------------------------------------------------------

/// How one slot will be probed by a status scan.
#[derive(Debug)]
pub enum StatusProbe {
    /// Hash as many bytes as the TOC records, and compare with its hash.
    Toc(TocEntry),
    /// Hash the image's extent and compare with the file's hash.
    Image { path: String, file_len: u64, hash_len: u64 },
    /// Nothing to compare against.
    Unknown,
}

pub enum StatusProbeView {
    Toc(TocEntryView),
    Image { path: Seq<char>, file_len: u64, hash_len: u64 },
    Unknown,
}

impl View for StatusProbe {
    type V = StatusProbeView;

    open spec fn view(&self) -> StatusProbeView {
        match self {
            StatusProbe::Toc(e) => StatusProbeView::Toc(e@),
            StatusProbe::Image { path, file_len, hash_len } => StatusProbeView::Image {
                path: path@,
                file_len: *file_len,
                hash_len: *hash_len,
            },
            StatusProbe::Unknown => StatusProbeView::Unknown,
        }
    }
}

impl StatusProbeView {
    /// How many bytes the probe hashes.
    pub open spec fn bytes(self) -> u64 {
        match self {
            StatusProbeView::Toc(e) => e.length,
            StatusProbeView::Image { hash_len, .. } => hash_len,
            StatusProbeView::Unknown => 0,
        }
    }
}

pub struct StatusItem {
    pub bank_idx: usize,
    pub unit: u32,
    pub probe: StatusProbe,
}

pub struct StatusItemView {
    pub bank_idx: int,
    pub unit: u32,
    pub probe: StatusProbeView,
}

impl View for StatusItem {
    type V = StatusItemView;

    open spec fn view(&self) -> StatusItemView {
        StatusItemView { bank_idx: self.bank_idx as int, unit: self.unit, probe: self.probe@ }
    }
}

pub open spec fn item_views(items: Seq<StatusItem>) -> Seq<StatusItemView> {
    items.map_values(|i: StatusItem| i@)
}

/// How a slot is probed: by its TOC record if it has one, else by its image if
/// the host has it, else not at all.
pub open spec fn probe_for(
    layout: LayoutView,
    idx: int,
    unit: u32,
    toc: Option<TocView>,
    facts: ImageFacts,
) -> StatusProbeView {
    let b = layout.banks[idx];
    if toc is Some && toc->0.found(b.name, unit) is Some {
        StatusProbeView::Toc(toc->0.found(b.name, unit)->0)
    } else {
        match b.image_of(unit) {
            None => StatusProbeView::Unknown,
            Some(path) => {
                let len = match facts.fact(path) {
                    ImageFactView::File(n) => Some(n),
                    ImageFactView::Other(n) => Some(n),
                    ImageFactView::Missing(_) => None,
                };
                match len {
                    None => StatusProbeView::Unknown,
                    Some(n) => StatusProbeView::Image {
                        path,
                        file_len: n,
                        hash_len: if n < b.slot_size {
                            n
                        } else {
                            b.slot_size
                        },
                    },
                }
            },
        }
    }
}

/// The probes of all slots, bank by bank and unit by unit from place
/// (`i`, `u`) on, behind `acc`.
pub open spec fn probes_from(
    layout: LayoutView,
    toc: Option<TocView>,
    facts: ImageFacts,
    i: int,
    u: int,
    acc: Seq<StatusItemView>,
) -> Seq<StatusItemView>
    decreases layout.banks.len() - i, layout.banks[i].units - u,
{
    if i < 0 || i >= layout.banks.len() || u < 0 {
        acc
    } else if u >= layout.banks[i].units {
        probes_from(layout, toc, facts, i + 1, 0, acc)
    } else {
        probes_from(
            layout,
            toc,
            facts,
            i,
            u + 1,
            acc.push(
                StatusItemView {
                    bank_idx: i,
                    unit: u as u32,
                    probe: probe_for(layout, i, u as u32, toc, facts),
                },
            ),
        )
    }
}

/// Bytes that the first `n` probes hash.
pub open spec fn probe_total(items: Seq<StatusItemView>, n: int) -> int
    decreases n,
{
    if n <= 0 {
        0
    } else {
        probe_total(items, n - 1) + items[n - 1].probe.bytes()
    }
}

proof fn probe_total_grows(items: Seq<StatusItemView>, a: int, b: int)
    requires
        0 <= a <= b,
    ensures
        probe_total(items, a) <= probe_total(items, b),
    decreases b,
{
    if a < b {
        probe_total_grows(items, a, b - 1);
    }
}

/// An item of a slot that exists, whose probe ends within 64 bits.
pub open spec fn item_ok(layout: LayoutView, item: StatusItemView) -> bool {
    &&& 0 <= item.bank_idx < layout.banks.len()
    &&& item.unit < layout.banks[item.bank_idx].units
    &&& layout.banks[item.bank_idx].offset_of(item.unit as int) + rounded_up(
        item.probe.bytes() as int,
        layout.sector_size as int,
    ) <= u64::MAX
}

pub open spec fn items_ok(layout: LayoutView, items: Seq<StatusItemView>) -> bool {
    forall|k: int| 0 <= k < items.len() ==> item_ok(layout, #[trigger] items[k])
}

/// Do the probes end within 64 bits, and do their lengths add up?
pub fn items_fit(layout: &Layout, items: &Vec<StatusItem>) -> (r: bool)
    requires
        layout@.valid(),
        layout@.addressable(),
    ensures
        r == (items_ok(layout@, item_views(items@)) && probe_total(
            item_views(items@),
            items@.len() as int,
        ) <= u64::MAX),
{
    let ghost v = item_views(items@);
    let mut total: u64 = 0;
    let mut i: usize = 0;
    proof {
        crate::powers::power_positive(layout.sector_size as int);
    }
    while i < items.len()
        invariant
            i <= items@.len(),
            layout@.addressable(),
            layout.sector_size > 0,
            v == item_views(items@),
            total == probe_total(v, i as int),
            forall|k: int| 0 <= k < i ==> item_ok(layout@, #[trigger] v[k]),
        decreases items@.len() - i,
    {
        let item = &items[i];
        assert(v[i as int] == item@);
        if item.bank_idx >= layout.banks.len() {
            assert(!item_ok(layout@, v[i as int]));
            return false;
        }
        let bank = &layout.banks[item.bank_idx];
        assert(layout@.banks[item.bank_idx as int] == bank@);
        if item.unit >= bank.units {
            assert(!item_ok(layout@, v[i as int]));
            return false;
        }
        proof {
            slots_lie_in_their_bank(bank@, item.unit as int);
        }
        let bytes: u64 = match &item.probe {
            StatusProbe::Toc(e) => e.length,
            StatusProbe::Image { hash_len, .. } => *hash_len,
            StatusProbe::Unknown => 0,
        };
        let end: u128 = bank.slot_offset(item.unit) as u128 + round_wide(
            bytes,
            layout.sector_size,
        );
        if end > u64::MAX as u128 {
            assert(!item_ok(layout@, v[i as int]));
            return false;
        }
        if bytes > u64::MAX - total {
            proof {
                probe_total_grows(v, i as int + 1, v.len() as int);
            }
            return false;
        }
        total = total + bytes;
        i = i + 1;
    }
    true
}

impl<'a, D: RawDevice> Session<'a, D> {
    fn plan_probe(&self, idx: usize, unit: u32, facts: &ImageFacts) -> (r: StatusProbe)
        requires
            self.toc_cache is Some,
            idx < self.layout.banks@.len(),
        ensures
            r@ == probe_for(self.layout@, idx as int, unit, self.toc_state()->0, *facts),
    {
        let bank = &self.layout.banks[idx];
        assert(self.layout@.banks[idx as int] == bank@);
        if let Some(Some(t)) = &self.toc_cache {
            if let Some(e) = t.find(&bank.name, unit) {
                return StatusProbe::Toc(e.clone());
            }
        }
        match bank.image_path(unit) {
            None => StatusProbe::Unknown,
            Some(path) => {
                let len = match facts.of(&path) {
                    ImageFact::File(n) => Some(n),
                    ImageFact::Other(n) => Some(n),
                    ImageFact::Missing(_) => None,
                };
                match len {
                    None => StatusProbe::Unknown,
                    Some(n) => {
                        let hash_len: u64 = if n < bank.slot_size {
                            n
                        } else {
                            bank.slot_size
                        };
                        StatusProbe::Image { path, file_len: n, hash_len }
                    },
                }
            },
        }
    }

    /// Decide how each slot is probed; the TOC must be known, and `facts` is
    /// what the host says of the images.
    pub fn plan_status(&self, facts: &ImageFacts) -> (r: Vec<StatusItem>)
        requires
            self.toc_cache is Some,
        ensures
            item_views(r@) == probes_from(
                self.layout@,
                self.toc_state()->0,
                *facts,
                0,
                0,
                Seq::empty(),
            ),
    {
        let mut items: Vec<StatusItem> = Vec::new();
        let ghost l = self.layout@;
        let ghost t = self.toc_state()->0;
        assert(item_views(items@) =~= Seq::<StatusItemView>::empty());
        for i in 0..self.layout.banks.len()
            invariant
                self.toc_cache is Some,
                l == self.layout@,
                t == self.toc_state()->0,
                probes_from(l, t, *facts, 0, 0, Seq::empty()) == probes_from(
                    l,
                    t,
                    *facts,
                    i as int,
                    0,
                    item_views(items@),
                ),
        {
            let units: u32 = self.layout.banks[i].units;
            assert(l.banks[i as int] == self.layout.banks@[i as int]@);
            for unit in 0..units
                invariant
                    self.toc_cache is Some,
                    l == self.layout@,
                    t == self.toc_state()->0,
                    i < self.layout.banks@.len(),
                    units == l.banks[i as int].units,
                    probes_from(l, t, *facts, 0, 0, Seq::empty()) == probes_from(
                        l,
                        t,
                        *facts,
                        i as int,
                        unit as int,
                        item_views(items@),
                    ),
            {
                let probe = self.plan_probe(i, unit, facts);
                let item = StatusItem { bank_idx: i, unit, probe };
                let ghost before = items@;
                let ghost v = item@;
                items.push(item);
                assert(item_views(items@) =~= item_views(before).push(v));
            }
        }
        items
    }
}

// ---------------------------------------------------------------------------
// The scan
// ---------------------------------------------------------------------------

/// A status scan in progress.
pub struct StatusRun {
    pub items: Vec<StatusItem>,
    pub chunk_size: usize,
    pub at: usize,
    pub reports: Vec<SlotStatusReport>,
    /// What the device holds during the scan.
    pub origin: Ghost<Bytes>,
    /// The hashes that were handed in, one for each scanned item.
    pub hashes: Ghost<Seq<Seq<char>>>,
}

/// What a status scan needs next.
#[derive(Debug)]
pub enum StatusNeed {
    /// The hash of an image file.
    Hash(String),
    /// Nothing from the host: go on.
    Nothing,
    /// The scan is complete.
    Done,
}

impl StatusRun {
    pub open spec fn plan(&self) -> Seq<StatusItemView> {
        item_views(self.items@)
    }

    pub open spec fn wf(&self, layout: LayoutView) -> bool {
        &&& chunk_ok(self.chunk_size, layout.sector_size)
        &&& items_ok(layout, self.plan())
        &&& self.at <= self.items@.len()
        &&& self.hashes@.len() == self.at
        &&& report_views(self.reports@) == reports_of(
            layout,
            self.origin@,
            self.plan(),
            self.hashes@,
        )
    }

    pub fn need(&self) -> (r: StatusNeed)
        ensures
            match r {
                StatusNeed::Done => self.at >= self.items@.len(),
                StatusNeed::Hash(p) => self.at < self.items@.len() && (self.items@[self.at as int].probe@ matches StatusProbeView::Image { path, .. } && path == p@),
                StatusNeed::Nothing => self.at < self.items@.len() && !(self.items@[self.at as int].probe@ is Image),
            },
    {
        if self.at >= self.items.len() {
            return StatusNeed::Done;
        }
        match &self.items[self.at].probe {
            StatusProbe::Image { path, .. } => StatusNeed::Hash(path.clone()),
            _ => StatusNeed::Nothing,
        }
    }
}

/// The report of one item, given what the device holds and, for an image, the
/// file's hash.
pub open spec fn report_of(
    layout: LayoutView,
    c: Bytes,
    item: StatusItemView,
    file_hash: Seq<char>,
) -> SlotStatusReportView {
    let b = layout.banks[item.bank_idx];
    let content = range(c, b.offset_of(item.unit as int), item.probe.bytes() as nat);
    match item.probe {
        StatusProbeView::Toc(e) => SlotStatusReportView {
            bank: b.name,
            unit: item.unit,
            state: classified(content, e.sha256, SlotState::Modified),
            name: e.name,
            length: Some(e.length),
            sha256: Some(sha_hex(content)),
        },
        StatusProbeView::Image { file_len, .. } => SlotStatusReportView {
            bank: b.name,
            unit: item.unit,
            state: classified(content, file_hash, SlotState::Differs),
            name: b.name_of(item.unit),
            length: Some(file_len),
            sha256: Some(sha_hex(content)),
        },
        StatusProbeView::Unknown => SlotStatusReportView {
            bank: b.name,
            unit: item.unit,
            state: SlotState::Unknown,
            name: b.name_of(item.unit),
            length: None,
            sha256: None,
        },
    }
}

/// The reports of the first items, as many as there are file hashes.
pub open spec fn reports_of(
    layout: LayoutView,
    c: Bytes,
    items: Seq<StatusItemView>,
    hashes: Seq<Seq<char>>,
) -> Seq<SlotStatusReportView> {
    Seq::new(hashes.len(), |i: int| report_of(layout, c, items[i], hashes[i]))
}

/// A complete scan reports every item once, in order, each by what its slot
/// holds and, for an image, by its file's hash.
pub proof fn complete_scans_report_every_item(run: StatusRun, layout: LayoutView)
    requires
        run.wf(layout),
        run.at >= run.items@.len(),
    ensures
        run.hashes@.len() == run.items@.len(),
        report_views(run.reports@) == reports_of(layout, run.origin@, run.plan(), run.hashes@),
        run.reports@.len() == run.items@.len(),
{
    assert(report_views(run.reports@).len() == run.reports@.len());
}

/// The events of scanning one item.
pub open spec fn item_events(
    layout: LayoutView,
    c: Bytes,
    item: StatusItemView,
    file_hash: Seq<char>,
    chunk: int,
) -> Seq<EventView> {
    let report = seq![status_event(report_of(layout, c, item, file_hash))];
    if item.probe is Unknown {
        report
    } else {
        probe_events(
            layout.banks[item.bank_idx].name,
            item.unit,
            item.probe.bytes(),
            chunk,
        ) + report
    }
}

impl<'a, D: RawDevice> Session<'a, D> {
    /// Begin a status scan of planned items: announce its total.
    pub fn status<S: EventSink>(
        &mut self,
        items: Vec<StatusItem>,
        opts: &EngineOpts,
        sink: &mut S,
    ) -> (r: StatusRun)
        requires
            old(self).wf(),
            chunk_ok(opts.chunk_size, old(self).layout.sector_size),
            items_ok(old(self).layout@, item_views(items@)),
            probe_total(item_views(items@), items@.len() as int) <= u64::MAX,
        ensures
            *final(self) == *old(self),
            r.items == items,
            r.chunk_size == opts.chunk_size,
            r.at == 0,
            r.reports@.len() == 0,
            r.origin@ == old(self).dev.contents(),
            r.wf(old(self).layout@),
            emitted(
                old(sink),
                seq![
                    (EventView::PhaseStart {
                        op: OpKind::Status,
                        bytes: probe_total(item_views(items@), items@.len() as int) as u64,
                    }),
                ],
                final(sink),
            ),
    {
        let mut total: u64 = 0;
        let ghost v = item_views(items@);
        for i in 0..items.len()
            invariant
                v == item_views(items@),
                probe_total(v, items@.len() as int) <= u64::MAX,
                total == probe_total(v, i as int),
        {
            assert(v[i as int] == items@[i as int]@);
            proof {
                probe_total_grows(v, i + 1, items@.len() as int);
            }
            let n: u64 = match &items[i].probe {
                StatusProbe::Toc(e) => e.length,
                StatusProbe::Image { hash_len, .. } => *hash_len,
                StatusProbe::Unknown => 0,
            };
            total = total + n;
        }
        emit_phase(sink, OpKind::Status, total);
        let run = StatusRun {
            items,
            chunk_size: opts.chunk_size,
            at: 0,
            reports: Vec::new(),
            origin: Ghost(self.dev.contents()),
            hashes: Ghost(Seq::empty()),
        };
        assert(report_views(run.reports@) =~= reports_of(
            self.layout@,
            run.origin@,
            run.plan(),
            run.hashes@,
        ));
        run
    }

    /// Scan the next item. For an image, `hashed` is what came of hashing its
    /// file.
    pub fn status_step<S: EventSink>(
        &mut self,
        run: &mut StatusRun,
        hashed: std::result::Result<String, HashFailure>,
        sink: &mut S,
    ) -> (r: Result<()>)
        requires
            old(self).wf(),
            old(run).wf(old(self).layout@),
            old(run).at < old(run).items@.len(),
            old(self).dev.contents() == old(run).origin@,
        ensures
            final(self).wf(),
            final(self).continues(&*old(self)),
            final(self).toc_state() == old(self).toc_state(),
            untouched(&*old(self).dev, &*final(self).dev),
            final(run).wf(old(self).layout@),
            final(run).items == old(run).items,
            final(run).chunk_size == old(run).chunk_size,
            final(run).origin == old(run).origin,
            ({
                let item = old(run).items@[old(run).at as int]@;
                let l = old(self).layout@;
                let c = old(self).dev.contents();
                let h = match hashed {
                    Ok(h) => h@,
                    Err(_) => Seq::empty(),
                };
                let evs = item_events(l, c, item, h, old(run).chunk_size as int);
                if item.probe is Image && hashed is Err {
                    &&& r matches Err(e) && e@ == hash_failure(
                        item.probe->path,
                        hashed->Err_0,
                    )
                    &&& *final(run) == *old(run)
                    &&& *final(sink) == *old(sink)
                } else {
                    &&& r is Ok ==> {
                        &&& final(run).at == old(run).at + 1
                        &&& final(run).hashes@ == old(run).hashes@.push(h)
                        &&& report_views(final(run).reports@) == report_views(
                            old(run).reports@,
                        ).push(report_of(l, c, item, h))
                        &&& emitted(old(sink), evs, final(sink))
                    }
                    &&& r is Err ==> *final(run) == *old(run) && partly_emitted(
                        old(sink),
                        evs,
                        final(sink),
                    ) && !(item.probe is Unknown)
                    &&& old(self).dev.reliable() && in_reach(
                        &*old(self).dev,
                        l.banks[item.bank_idx].offset_of(item.unit as int) + rounded_up(
                            item.probe.bytes() as int,
                            l.sector_size as int,
                        ),
                    ) ==> r is Ok
                }
            }),
    {
        let at: usize = run.at;
        assert(at < run.items.len());
        let ghost item = run.items@[at as int]@;
        let ghost l = self.layout@;
        let ghost c = self.dev.contents();
        let ghost chunk = run.chunk_size as int;
        assert(run.plan()[at as int] == item);
        assert(item_ok(l, item));
        let bank_idx: usize = run.items[at].bank_idx;
        let unit: u32 = run.items[at].unit;
        proof {
            slot_is_aligned(l, (bank_idx, unit));
        }
        let bank = &self.layout.banks[bank_idx];
        assert(l.banks[bank_idx as int] == bank@);
        let extent = self.layout.slot_extent(bank_idx, unit);
        let report = match &run.items[at].probe {
            StatusProbe::Unknown => SlotStatusReport {
                bank: bank.name.clone(),
                unit,
                state: SlotState::Unknown,
                name: bank.slot_name(unit),
                length: None,
                sha256: None,
            },
            StatusProbe::Toc(e) => {
                match probe_slot(
                    self.dev,
                    run.chunk_size,
                    sink,
                    &mut self.buf,
                    &bank.name,
                    unit,
                    extent.offset,
                    e.length,
                    &e.sha256,
                    SlotState::Modified,
                ) {
                    Err(err) => {
                        proof {
                            let h = match hashed {
                                Ok(h) => h@,
                                Err(_) => Seq::empty(),
                            };
                            let tail = seq![status_event(report_of(l, c, item, h))];
                            no_events(old(sink));
                            let evs = probe_events(bank@.name, unit, e.length, chunk);
                            partly_in_a_row(
                                old(sink),
                                Seq::empty(),
                                old(sink),
                                evs,
                                sink,
                                tail,
                            );
                            assert(Seq::<EventView>::empty() + evs + tail =~= evs + tail);
                        }
                        return Err(err);
                    },
                    Ok(p) => SlotStatusReport {
                        bank: bank.name.clone(),
                        unit,
                        state: p.0,
                        name: clone_opt(&e.name),
                        length: Some(e.length),
                        sha256: Some(p.1),
                    },
                }
            },
            StatusProbe::Image { path, file_len, hash_len } => {
                let expect = match &hashed {
                    Err(f) => {
                        return Err(hash_failure_err(path, f));
                    },
                    Ok(h) => h,
                };
                match probe_slot(
                    self.dev,
                    run.chunk_size,
                    sink,
                    &mut self.buf,
                    &bank.name,
                    unit,
                    extent.offset,
                    *hash_len,
                    expect,
                    SlotState::Differs,
                ) {
                    Err(err) => {
                        proof {
                            let tail = seq![status_event(report_of(l, c, item, expect@))];
                            no_events(old(sink));
                            let evs = probe_events(bank@.name, unit, *hash_len, chunk);
                            partly_in_a_row(
                                old(sink),
                                Seq::empty(),
                                old(sink),
                                evs,
                                sink,
                                tail,
                            );
                            assert(Seq::<EventView>::empty() + evs + tail =~= evs + tail);
                        }
                        return Err(err);
                    },
                    Ok(p) => SlotStatusReport {
                        bank: bank.name.clone(),
                        unit,
                        state: p.0,
                        name: bank.slot_name(unit),
                        length: Some(*file_len),
                        sha256: Some(p.1),
                    },
                }
            },
        };
        let ghost h = match hashed {
            Ok(h) => h@,
            Err(_) => Seq::empty(),
        };
        assert(report@ == report_of(l, c, item, h));
        let ghost s1 = *sink;
        emit_status(sink, &report);
        proof {
            let tail = seq![status_event(report@)];
            if !(item.probe is Unknown) {
                let evs = probe_events(bank@.name, unit, item.probe.bytes(), chunk);
                emitted_in_a_row(old(sink), evs, &s1, tail, sink);
            }
        }
        let ghost before = run.reports@;
        let ghost v = report@;
        run.reports.push(report);
        assert(report_views(run.reports@) =~= report_views(before).push(v));
        run.at = at + 1;
        run.hashes = Ghost(run.hashes@.push(h));
        assert(report_views(run.reports@) =~= reports_of(l, c, run.plan(), run.hashes@));
        Ok(())
    }
}

// ---------------------------------------------------------------------------
// Status from the card alone
// ---------------------------------------------------------------------------

/// Bytes that the first `n` records cover.
pub open spec fn record_total(entries: Seq<TocEntryView>, n: int) -> int
    decreases n,
{
    if n <= 0 {
        0
    } else {
        record_total(entries, n - 1) + entries[n - 1].length
    }
}

proof fn record_total_grows(entries: Seq<TocEntryView>, a: int, b: int)
    requires
        0 <= a <= b,
    ensures
        record_total(entries, a) <= record_total(entries, b),
    decreases b,
{
    if a < b {
        record_total_grows(entries, a, b - 1);
    }
}

/// Every record's content ends within 64 bits.
pub open spec fn records_ok(entries: Seq<TocEntryView>, sector: u32) -> bool {
    forall|k: int|
        0 <= k < entries.len() ==> (#[trigger] entries[k]).offset + rounded_up(
            entries[k].length as int,
            sector as int,
        ) <= u64::MAX
}

/// Do the records end within 64 bits, and do their lengths add up?
pub fn records_fit(toc: &Toc, sector: u32) -> (r: bool)
    requires
        sector > 0,
    ensures
        r == (records_ok(toc@.entries, sector) && record_total(
            toc@.entries,
            toc@.entries.len() as int,
        ) <= u64::MAX),
{
    let ghost v = toc@.entries;
    let mut total: u64 = 0;
    let mut i: usize = 0;
    while i < toc.entries.len()
        invariant
            i <= toc.entries@.len(),
            sector > 0,
            v == toc@.entries,
            v.len() == toc.entries@.len(),
            total == record_total(v, i as int),
            forall|k: int|
                0 <= k < i ==> (#[trigger] v[k]).offset + rounded_up(
                    v[k].length as int,
                    sector as int,
                ) <= u64::MAX,
        decreases toc.entries@.len() - i,
    {
        let e = &toc.entries[i];
        assert(v[i as int] == e@);
        let end: u128 = e.offset as u128 + round_wide(e.length, sector);
        if end > u64::MAX as u128 {
            return false;
        }
        if e.length > u64::MAX - total {
            proof {
                record_total_grows(v, i as int + 1, v.len() as int);
            }
            return false;
        }
        total = total + e.length;
        i = i + 1;
    }
    true
}

/// The report of one record.
pub open spec fn record_report(c: Bytes, e: TocEntryView) -> SlotStatusReportView {
    let content = range(c, e.offset as int, e.length as nat);
    SlotStatusReportView {
        bank: e.bank,
        unit: e.unit,
        state: classified(content, e.sha256, SlotState::Modified),
        name: e.name,
        length: Some(e.length),
        sha256: Some(sha_hex(content)),
    }
}

/// The events of scanning the records from `i` on.
pub open spec fn record_events_from(
    c: Bytes,
    entries: Seq<TocEntryView>,
    i: int,
    chunk: int,
) -> Seq<EventView>
    decreases entries.len() - i,
{
    if i < 0 || i >= entries.len() {
        Seq::empty()
    } else {
        probe_events(entries[i].bank, entries[i].unit, entries[i].length, chunk) + seq![
            status_event(record_report(c, entries[i])),
        ] + record_events_from(c, entries, i + 1, chunk)
    }
}

pub open spec fn record_events(c: Bytes, entries: Seq<TocEntryView>, chunk: int) -> Seq<EventView> {
    seq![
        (EventView::PhaseStart {
            op: OpKind::Status,
            bytes: record_total(entries, entries.len() as int) as u64,
        }),
    ] + record_events_from(c, entries, 0, chunk)
}

/// Describe a card using only its TOC, with no manifest: the records say where
/// each slot is, so it can be located and hashed again.
pub fn status_from_card<D: RawDevice, S: EventSink>(
    dev: &mut D,
    card_toc: &Toc,
    opts: &EngineOpts,
    sink: &mut S,
) -> (r: Result<Vec<SlotStatusReport>>)
    requires
        chunk_ok(opts.chunk_size, old(dev).sector()),
        records_ok(card_toc@.entries, old(dev).sector()),
        record_total(card_toc@.entries, card_toc@.entries.len() as int) <= u64::MAX,
    ensures
        untouched(old(dev), final(dev)),
        r matches Ok(reports) ==> {
            &&& report_views(reports@) == card_toc@.entries.map_values(
                |e: TocEntryView| record_report(old(dev).contents(), e),
            )
            &&& emitted(
                old(sink),
                record_events(
                    old(dev).contents(),
                    card_toc@.entries,
                    opts.chunk_size as int,
                ),
                final(sink),
            )
        },
        r is Err ==> partly_emitted(
            old(sink),
            record_events(old(dev).contents(), card_toc@.entries, opts.chunk_size as int),
            final(sink),
        ),
        old(dev).reliable() && (forall|k: int|
            0 <= k < card_toc@.entries.len() ==> in_reach(
                old(dev),
                (#[trigger] card_toc@.entries[k]).offset + rounded_up(
                    card_toc@.entries[k].length as int,
                    old(dev).sector() as int,
                ),
            )) ==> r is Ok,
{
    let ghost es = card_toc@.entries;
    let ghost c = dev.contents();
    let ghost chunk = opts.chunk_size as int;
    let ghost n = es.len() as int;
    let ghost sector = dev.sector();
    let mut total: u64 = 0;
    for i in 0..card_toc.entries.len()
        invariant
            es == card_toc@.entries,
            n == es.len(),
            record_total(es, n) <= u64::MAX,
            total == record_total(es, i as int),
    {
        assert(es[i as int] == card_toc.entries@[i as int]@);
        proof {
            record_total_grows(es, i + 1, n);
        }
        total = total + card_toc.entries[i].length;
    }
    emit_phase(sink, OpKind::Status, total);
    let mut buf = AlignedBuf::new(opts.chunk_size);
    let mut reports: Vec<SlotStatusReport> = Vec::new();
    let ghost full = record_events(c, es, chunk);
    let ghost mut sent = seq![(EventView::PhaseStart { op: OpKind::Status, bytes: total })];
    for i in 0..card_toc.entries.len()
        invariant
            es == card_toc@.entries,
            n == es.len(),
            c == old(dev).contents(),
            chunk == opts.chunk_size,
            sector == old(dev).sector(),
            sector == dev.sector(),
            chunk_ok(opts.chunk_size, sector),
            records_ok(es, sector),
            untouched(old(dev), dev),
            buf.wf(),
            full == record_events(c, es, chunk),
            full == sent + record_events_from(c, es, i as int, chunk),
            emitted(old(sink), sent, sink),
            reports@.len() == i,
            forall|k: int|
                0 <= k < i ==> (#[trigger] reports@[k])@ == record_report(c, es[k]),
    {
        let e = &card_toc.entries[i];
        assert(es[i as int] == e@);
        let ghost here = probe_events(e@.bank, e.unit, e.length, chunk);
        let ghost tail = seq![status_event(record_report(c, e@))];
        let ghost rest = record_events_from(c, es, i + 1, chunk);
        let ghost s0 = *sink;
        match probe_slot(
            dev,
            opts.chunk_size,
            sink,
            &mut buf,
            &e.bank,
            e.unit,
            e.offset,
            e.length,
            &e.sha256,
            SlotState::Modified,
        ) {
            Err(err) => {
                proof {
                    partly_in_a_row(old(sink), sent, &s0, here, sink, tail + rest);
                    assert(sent + here + (tail + rest) =~= sent + (here + tail + rest));
                }
                return Err(err);
            },
            Ok(p) => {
                let report = SlotStatusReport {
                    bank: e.bank.clone(),
                    unit: e.unit,
                    state: p.0,
                    name: clone_opt(&e.name),
                    length: Some(e.length),
                    sha256: Some(p.1),
                };
                assert(report@ == record_report(c, e@));
                let ghost s1 = *sink;
                emit_status(sink, &report);
                proof {
                    emitted_in_a_row(old(sink), sent, &s0, here, &s1);
                    emitted_in_a_row(old(sink), sent + here, &s1, tail, sink);
                    assert(sent + (here + tail + rest) =~= (sent + here + tail) + rest);
                    sent = sent + here + tail;
                }
                reports.push(report);
            },
        }
    }
    proof {
        assert(sent =~= full);
        assert(report_views(reports@) =~= es.map_values(|e: TocEntryView| record_report(c, e)));
    }
    Ok(reports)
}

} // verus!

//! Sessions: an open device with its layout, the TOC read at most once.

use vstd::prelude::*;
use vstd::string::*;

use crate::buffer::{AlignedBuf, BUFFER_ALIGN};
use crate::device::{in_reach, overwrite, same_make, same_outside, untouched, Bytes, RawDevice};
use crate::drive_types::DriveTypeView;
use crate::engine::plan::{
    job_views, EngineOpts, LengthMode, WriteJob, WriteJobView, DEFAULT_CHUNK_SIZE,
};
use crate::error::{Error, ErrorView, Result};
use crate::layout::{bank_named, BankView, Extent, Layout, LayoutView, TOC_REGION_LEN};
use crate::powers::power_positive;
use crate::search::find_where;
use crate::text::{
    cat2, cat3, cat4, cat5, dec, dec_text, hex_of, hex_text, quoted, quoted_text, texts,
};
use crate::toc::{
    framed, opt_bytes, oversize, payload_at, readable, round_wide, rounded_up, Toc, TocView,
    HEADER_LEN,
};
use crate::units::{bytes_text, format_bytes};

verus! {

pub struct Session<'a, D: RawDevice> {
    pub dev: &'a mut D,
    pub layout: &'a Layout,
    /// Outer `None`: not read yet; inner `None`: no TOC configured or found.
    pub toc_cache: Option<Option<Toc>>,
    /// Reusable buffer for streaming and hashing across operations.
    pub buf: AlignedBuf,
}

pub open spec fn opt_toc(t: Option<Toc>) -> Option<TocView> {
    match t {
        Some(t) => Some(t@),
        None => None,
    }
}

pub open spec fn cached(t: Option<Option<Toc>>) -> Option<Option<TocView>> {
    match t {
        Some(t) => Some(opt_toc(t)),
        None => None,
    }
}

/// A layout whose regions can all be addressed in whole sectors.
pub open spec fn usable(layout: LayoutView) -> bool {
    &&& layout.valid()
    &&& layout.addressable()
    &&& layout.toc_offset matches Some(t) ==> readable(layout.sector_size, t as int)
}

/// Do all regions of a resolved layout end within 64 bits, its TOC's too?
pub fn is_usable(layout: &Layout) -> (r: bool)
    requires
        layout@.valid(),
    ensures
        r == usable(layout@),
{
    proof {
        crate::powers::power_positive(layout.sector_size as int);
    }
    let mut i: usize = 0;
    while i < layout.banks.len()
        invariant
            i <= layout.banks@.len(),
            layout@.valid(),
            forall|k: int| 0 <= k < i ==> (#[trigger] layout@.banks[k]).end() <= u64::MAX,
        decreases layout.banks@.len() - i,
    {
        let bank = &layout.banks[i];
        assert(layout@.banks[i as int] == bank@);
        assert(bank@.valid(layout.sector_size, layout.allow_unaligned));
        if bank.span() > u64::MAX - bank.base {
            return false;
        }
        i = i + 1;
    }
    match layout.toc_offset {
        Some(t) => {
            let region: u128 = round_wide(TOC_REGION_LEN, layout.sector_size);
            t as u128 + region <= u64::MAX as u128 && region + BUFFER_ALIGN as u128
                <= usize::MAX as u128
        },
        None => true,
    }
}

pub open spec fn sector_mismatch(device: u32, manifest: u32) -> ErrorView {
    ErrorView::Validation(
        "device sector size "@ + dec(device as nat) + " does not match manifest sector_size "@
            + dec(manifest as nat),
    )
}

impl<'a, D: RawDevice> Session<'a, D> {
    /// The device as it stands.
    pub open spec fn medium(&self) -> D {
        *self.dev
    }

    /// What every operation of a session keeps.
    pub open spec fn wf(&self) -> bool {
        &&& usable(self.layout@)
        &&& self.dev.sector() == self.layout.sector_size
        &&& self.buf.wf()
    }

    pub open spec fn toc_state(&self) -> Option<Option<TocView>> {
        cached(self.toc_cache)
    }

    /// The layout stays; the device is the same but perhaps for its contents.
    pub open spec fn continues(&self, before: &Self) -> bool {
        &&& self.layout == before.layout
        &&& same_make(&*before.dev, &*self.dev)
    }

    /// Pair a device with a layout. The sector-size match is enforced here, so
    /// every operation gets the check.
    pub fn new(dev: &'a mut D, layout: &'a Layout) -> (r: Result<Session<'a, D>>)
        ensures
            match r {
                Ok(s) => {
                    &&& old(dev).sector() == layout.sector_size
                    &&& s.layout == layout
                    &&& *s.dev == *old(dev)
                    &&& *final(s.dev) == *final(dev)
                    &&& s.toc_cache is None
                    &&& s.buf.wf()
                    &&& usable(layout@) ==> s.wf()
                },
                Err(e) => {
                    &&& old(dev).sector() != layout.sector_size
                    &&& e@ == sector_mismatch(old(dev).sector(), layout.sector_size)
                    &&& *final(dev) == *old(dev)
                },
            },
    {
        let sector: u32 = dev.sector_size();
        if sector != layout.sector_size {
            let a = dec_text(sector as u64);
            let b = dec_text(layout.sector_size as u64);
            return Err(
                Error::Validation(
                    cat4("device sector size ", &a, " does not match manifest sector_size ", &b),
                ),
            );
        }
        Ok(Session { dev, layout, toc_cache: None, buf: AlignedBuf::new(DEFAULT_CHUNK_SIZE) })
    }

    // -----------------------------------------------------------------------
    // The on-card TOC
    // -----------------------------------------------------------------------

    /// Read the TOC payload of the card, if it is not known yet. `Some` is a
    /// payload that waits to be decoded and handed to `store_toc`; with `None`
    /// the session knows all there is.
    pub fn load_toc(&mut self) -> (r: Result<Option<Vec<u8>>>)
        requires
            old(self).wf(),
        ensures
            final(self).wf(),
            final(self).continues(&*old(self)),
            untouched(&*old(self).dev, &*final(self).dev),
            r matches Ok(p) ==> if old(self).toc_cache is Some {
                p is None && final(self).toc_state() == old(self).toc_state()
            } else if old(self).layout.toc_offset is None {
                p is None && final(self).toc_state() == Some(None::<TocView>)
            } else {
                &&& opt_bytes(p) == payload_at(
                    old(self).dev.contents(),
                    old(self).layout.toc_offset->0 as int,
                )
                &&& p is None ==> final(self).toc_state() == Some(None::<TocView>)
                &&& p is Some ==> final(self).toc_state() is None
            },
            r is Err ==> old(self).toc_cache is None && old(self).layout.toc_offset is Some && final(self).toc_state() == old(self).toc_state(),
            old(self).dev.reliable() && (old(self).layout.toc_offset matches Some(t) ==> in_reach(
                &*old(self).dev,
                t + rounded_up(TOC_REGION_LEN as int, old(self).dev.sector() as int),
            )) ==> r is Ok,
    {
        if self.toc_cache.is_some() {
            return Ok(None);
        }
        match self.layout.toc_offset {
            None => {
                self.toc_cache = Some(None);
                Ok(None)
            },
            Some(off) => match crate::toc::read_toc(self.dev, off) {
                Ok(Some(p)) => Ok(Some(p)),
                Ok(None) => {
                    self.toc_cache = Some(None);
                    Ok(None)
                },
                Err(e) => Err(e),
            },
        }
    }

    /// Keep what the card's payload decoded to; `None` where it did not decode.
    pub fn store_toc(&mut self, decoded: Option<Toc>)
        requires
            old(self).wf(),
        ensures
            final(self).wf(),
            final(self).continues(&*old(self)),
            untouched(&*old(self).dev, &*final(self).dev),
            final(self).toc_state() == Some(opt_toc(decoded)),
    {
        self.toc_cache = Some(decoded);
    }

    /// The card's TOC if its layout hash matches this layout's, else a fresh one.
    pub fn toc_for_update(&self) -> (r: Toc)
        requires
            self.toc_cache is Some,
        ensures
            r@ == toc_to_update(self.layout@, self.toc_state()->0),
    {
        let hash = self.layout.layout_hash();
        match &self.toc_cache {
            Some(Some(t)) => {
                if t.layout_hash == hash {
                    t.clone()
                } else {
                    Toc::new(hash)
                }
            },
            _ => Toc::new(hash),
        }
    }

    /// Write an updated TOC, serialized as `payload`, to the card, and flush, so
    /// that all that was written is durable. With no TOC configured nothing is
    /// written, and the flush is all.
    pub fn commit_toc(&mut self, toc: Toc, payload: &Vec<u8>) -> (r: Result<()>)
        requires
            old(self).wf(),
        ensures
            final(self).wf(),
            final(self).continues(&*old(self)),
            toc_write_effect(
                old(self).layout.toc_offset,
                old(self).dev.sector(),
                payload@,
                old(self).dev.contents(),
                final(self).dev.contents(),
            ),
            old(self).layout.toc_offset is Some && HEADER_LEN + payload@.len() > TOC_REGION_LEN
                ==> (r matches Err(e) && e@ == oversize(payload@.len())),
            r is Ok ==> {
                &&& final(self).dev.contents() == toc_written(
                    old(self).layout.toc_offset,
                    old(self).dev.sector(),
                    payload@,
                    old(self).dev.contents(),
                )
                &&& final(self).toc_state() == if old(self).layout.toc_offset is Some {
                    Some(Some(toc@))
                } else {
                    old(self).toc_state()
                }
            },
            old(self).dev.reliable() && (old(self).layout.toc_offset matches Some(t) ==> t
                + rounded_up(TOC_REGION_LEN as int, old(self).dev.sector() as int) <= old(self).dev.capacity() && HEADER_LEN + payload@.len() <= TOC_REGION_LEN) ==> r is Ok,
            old(self).layout.toc_offset is None ==> exists|dev: &mut D|
                *dev == *old(self).dev && *final(dev) == *final(self).dev
                    && #[trigger] call_ensures(D::flush, (dev,), r),
            old(self).layout.toc_offset is Some && HEADER_LEN + payload@.len() > TOC_REGION_LEN
                ==> *final(self).dev == *old(self).dev,
            old(self).layout.toc_offset is Some && HEADER_LEN + payload@.len() <= TOC_REGION_LEN
                ==> exists|dev: &mut D, block: &[u8], written: Result<()>|
                {
                    &&& *dev == *old(self).dev
                    &&& block@ == framed(payload@, old(self).dev.sector())
                    &&& #[trigger] call_ensures(
                        D::write_at,
                        (dev, old(self).layout.toc_offset->0, block),
                        written,
                    )
                    &&& written is Err ==> r == written && *final(self).dev == *final(dev)
                    &&& written is Ok ==> exists|after: &mut D|
                        *after == *final(dev) && *final(after) == *final(self).dev
                            && #[trigger] call_ensures(D::flush, (after,), r)
                },
            r is Ok ==> exists|dev: &mut D|
                *final(dev) == *final(self).dev && dev.contents() == toc_written(
                    old(self).layout.toc_offset,
                    old(self).dev.sector(),
                    payload@,
                    old(self).dev.contents(),
                ) && #[trigger] call_ensures(D::flush, (dev,), r),
    {
        if let Some(off) = self.layout.toc_offset {
            proof {
                power_positive(self.layout.sector_size as int);
                if HEADER_LEN + payload@.len() <= TOC_REGION_LEN {
                    crate::toc::rounded_up_monotone(
                        HEADER_LEN + payload@.len(),
                        TOC_REGION_LEN as int,
                        self.dev.sector() as int,
                    );
                }
            }
            match crate::toc::write_toc(self.dev, off, payload) {
                Ok(_) => {},
                Err(e) => {
                    return Err(e);
                },
            }
            self.toc_cache = Some(Some(toc));
        }
        self.dev.flush()
    }

    /// Grow a file-backed card to span the full layout, so that the flat image
    /// can be written to a real card in one pass. Nothing on real devices. The
    /// device is asked for exactly the length at which the layout ends, and its
    /// answer is the result.
    pub fn extend_to_full_layout(&mut self) -> (r: Result<()>)
        requires
            old(self).wf(),
        ensures
            final(self).wf(),
            final(self).continues(&*old(self)),
            final(self).toc_state() == old(self).toc_state(),
            final(self).dev.contents() == old(self).dev.contents(),
            final(self).dev.capacity() == old(self).dev.capacity() || (old(self).dev.grows()
                && old(self).dev.capacity() < final(self).dev.capacity()
                == old(self).layout@.furthest_end()),
            exists|dev: &mut D|
                *dev == *old(self).dev && *final(dev) == *final(self).dev
                    && #[trigger] call_ensures(
                    D::ensure_len,
                    (dev, old(self).layout@.furthest_end() as u64),
                    r,
                ),
            !old(self).dev.grows() ==> r is Ok,
            old(self).dev.reliable() && old(self).layout@.furthest_end()
                <= old(self).dev.capacity() ==> r is Ok,
    {
        let end: u64 = self.layout.max_extent_end();
        assert(end == self.layout@.furthest_end() as u64);
        self.dev.ensure_len(end)
    }
}

/// The table that an update starts from: the card's, if it belongs to the
/// layout, or a blank one.
pub open spec fn toc_to_update(layout: LayoutView, card: Option<TocView>) -> TocView {
    match card {
        Some(t) => if t.layout_hash == layout.hash() {
            t
        } else {
            TocView::blank(layout.hash())
        },
        None => TocView::blank(layout.hash()),
    }
}

/// The contents of a card after its TOC is written.
pub open spec fn toc_written(offset: Option<u64>, sector: u32, payload: Seq<u8>, c: Bytes) -> Bytes {
    match offset {
        Some(off) => overwrite(c, off as int, framed(payload, sector)),
        None => c,
    }
}

/// A TOC write touches the TOC region alone, and no byte where none is configured.
pub open spec fn toc_write_effect(
    offset: Option<u64>,
    sector: u32,
    payload: Seq<u8>,
    before: Bytes,
    after: Bytes,
) -> bool {
    match offset {
        Some(off) => same_outside(
            before,
            after,
            off as int,
            off + rounded_up(TOC_REGION_LEN as int, sector as int),
        ),
        None => after == before,
    }
}

// ---------------------------------------------------------------------------
// Validation
// ---------------------------------------------------------------------------

pub open spec fn slot_text(bank: Seq<char>, unit: u32) -> Seq<char> {
    bank + ":"@ + dec(unit as nat)
}

pub open spec fn range_text(e: Extent) -> Seq<char> {
    "0x"@ + hex_of(e.offset as nat) + "..0x"@ + hex_of(e.limit() as nat)
}

pub open spec fn size_note(j: WriteJobView, t: DriveTypeView) -> Seq<char> {
    "image "@ + j.image + " is "@ + dec(j.image_len as nat) + " bytes but the canonical "@ + t.name
        + " image is "@ + dec(t.image_bytes as nat) + " bytes"@
}

/// An image that misses the canonical size of its bank's drive type. Stream
/// media has none.
pub open spec fn off_size(j: WriteJobView, t: Option<DriveTypeView>) -> bool {
    t is Some && !t->0.stream && j.image_len != t->0.image_bytes
}

pub open spec fn bank_of(layout: LayoutView, name: Seq<char>) -> Option<BankView> {
    find_where(layout.banks, bank_named(name))
}

/// What speaks against one job.
pub open spec fn job_fault(
    layout: LayoutView,
    j: WriteJobView,
    capacity: u64,
    growable: bool,
    strict: bool,
) -> Option<ErrorView> {
    if j.image_len > j.extent.len {
        Some(
            ErrorView::Validation(
                "image "@ + j.image + " ("@ + dec(j.image_len as nat) + " bytes) exceeds the "@
                    + bytes_text(j.extent.len) + " slot "@ + slot_text(j.bank, j.unit),
            ),
        )
    } else if !growable && j.extent.limit() > capacity {
        Some(
            ErrorView::Validation(
                "slot "@ + slot_text(j.bank, j.unit) + " (bytes "@ + range_text(j.extent)
                    + ") extends past the device capacity ("@ + bytes_text(capacity) + ")"@,
            ),
        )
    } else if strict && off_size(j, bank_of(layout, j.bank)->0.drive_type) {
        Some(
            ErrorView::Validation(
                size_note(j, bank_of(layout, j.bank)->0.drive_type->0) + " (--strict-size)"@,
            ),
        )
    } else {
        None
    }
}

/// Warnings from job `i` on behind `warnings`, or the first fault.
pub open spec fn validated_from(
    layout: LayoutView,
    jobs: Seq<WriteJobView>,
    capacity: u64,
    growable: bool,
    strict: bool,
    i: int,
    warnings: Seq<Seq<char>>,
) -> std::result::Result<Seq<Seq<char>>, ErrorView>
    decreases jobs.len() - i,
{
    if i < 0 || i >= jobs.len() {
        match layout.toc_extent() {
            Some(t) => if !growable && t.limit() > capacity {
                Err(
                    ErrorView::Validation(
                        "TOC region (bytes "@ + range_text(t)
                            + ") extends past the device capacity"@,
                    ),
                )
            } else {
                Ok(warnings)
            },
            None => Ok(warnings),
        }
    } else {
        match job_fault(layout, jobs[i], capacity, growable, strict) {
            Some(e) => Err(e),
            None => {
                let t = bank_of(layout, jobs[i].bank)->0.drive_type;
                let next = if off_size(jobs[i], t) {
                    warnings.push(size_note(jobs[i], t->0))
                } else {
                    warnings
                };
                validated_from(layout, jobs, capacity, growable, strict, i + 1, next)
            },
        }
    }
}

/// Every job names a bank of the layout and an extent that ends within 64 bits.
pub open spec fn jobs_known(layout: LayoutView, jobs: Seq<WriteJobView>) -> bool {
    forall|i: int|
        0 <= i < jobs.len() ==> bank_of(layout, (#[trigger] jobs[i]).bank) is Some
            && jobs[i].extent.limit() <= u64::MAX
}

fn slot_words(bank: &str, unit: u32) -> (r: String)
    ensures
        r@ == slot_text(bank@, unit),
{
    let u = dec_text(unit as u64);
    cat3(bank, ":", &u)
}

fn range_words(e: &Extent) -> (r: String)
    requires
        e.limit() <= u64::MAX,
    ensures
        r@ == range_text(*e),
{
    let a = hex_text(e.offset);
    let b = hex_text(e.end());
    cat4("0x", &a, "..0x", &b)
}

fn size_words(j: &WriteJob, name: &str, bytes: u64) -> (r: String)
    ensures
        r@ == "image "@ + j@.image + " is "@ + dec(j.image_len as nat)
            + " bytes but the canonical "@ + name@ + " image is "@ + dec(bytes as nat) + " bytes"@,
{
    let n = dec_text(j.image_len);
    let b = dec_text(bytes);
    let mut m = cat5("image ", &j.image, " is ", &n, " bytes but the canonical ");
    m.append(name);
    m.append(" image is ");
    m.append(&b);
    m.append(" bytes");
    m
}

/// `r` is what validation gives: all warnings, or the first fault.
pub open spec fn validation(
    layout: LayoutView,
    jobs: Seq<WriteJobView>,
    capacity: u64,
    growable: bool,
    strict: bool,
    r: Result<Vec<String>>,
) -> bool {
    validated_from(layout, jobs, capacity, growable, strict, 0, Seq::empty()) == match r {
        Ok(w) => Ok::<Seq<Seq<char>>, ErrorView>(texts(w@)),
        Err(e) => Err::<Seq<Seq<char>>, ErrorView>(e@),
    }
}

/// Validate jobs against a layout and a device of that capacity. Returns
/// non-fatal warnings.
pub fn validate_jobs(
    layout: &Layout,
    jobs: &Vec<WriteJob>,
    capacity: u64,
    growable: bool,
    strict: bool,
) -> (r: Result<Vec<String>>)
    requires
        jobs_known(layout@, job_views(jobs@)),
        layout@.addressable(),
    ensures
        validation(layout@, job_views(jobs@), capacity, growable, strict, r),
{
    let mut warnings: Vec<String> = Vec::new();
    let ghost v = job_views(jobs@);
    assert(texts(warnings@) =~= Seq::<Seq<char>>::empty());
    for i in 0..jobs.len()
        invariant
            v == job_views(jobs@),
            jobs_known(layout@, v),
            validated_from(layout@, v, capacity, growable, strict, 0, Seq::empty())
                == validated_from(
                layout@,
                v,
                capacity,
                growable,
                strict,
                i as int,
                texts(warnings@),
            ),
    {
        let j = &jobs[i];
        assert(v[i as int] == j@);
        let slot = slot_words(&j.bank, j.unit);
        if j.image_len > j.extent.len {
            let n = dec_text(j.image_len);
            let s = format_bytes(j.extent.len);
            let mut m = cat5("image ", &j.image, " (", &n, " bytes) exceeds the ");
            m.append(&s);
            m.append(" slot ");
            m.append(&slot);
            return Err(Error::Validation(m));
        }
        if !growable && j.extent.end() > capacity {
            let x = range_words(&j.extent);
            let c = format_bytes(capacity);
            let mut m = cat5("slot ", &slot, " (bytes ", &x, ") extends past the device capacity (");
            m.append(&c);
            m.append(")");
            return Err(Error::Validation(m));
        }
        let bank = match layout.bank(&j.bank) {
            Some(b) => b,
            None => {
                assert(false);
                return Ok(warnings);
            },
        };
        assert(bank_of(layout@, v[i as int].bank) == Some(bank@));
        if let Some(t) = &bank.drive_type {
            if !t.stream && j.image_len != t.image_bytes {
                let note = size_words(j, &t.name, t.image_bytes);
                assert(note@ == size_note(j@, t@));
                if strict {
                    return Err(Error::Validation(cat2(&note, " (--strict-size)")));
                }
                let ghost before = warnings@;
                let ghost w = note@;
                warnings.push(note);
                assert(texts(warnings@) =~= texts(before).push(w));
            }
        }
    }
    if let Some(t) = layout.toc_extent() {
        if !growable && t.end() > capacity {
            let x = range_words(&t);
            return Err(
                Error::Validation(
                    cat3("TOC region (bytes ", &x, ") extends past the device capacity"),
                ),
            );
        }
    }
    Ok(warnings)
}

impl<'a, D: RawDevice> Session<'a, D> {
    /// Validate jobs against the layout, the device and the drive types.
    /// Returns non-fatal warnings. Bounds are checked unless the device says that
    /// it grows.
    pub fn validate_writes(&self, jobs: &Vec<WriteJob>, opts: &EngineOpts) -> (r: Result<
        Vec<String>,
    >)
        requires
            self.wf(),
            jobs_known(self.layout@, job_views(jobs@)),
        ensures
            exists|growable: bool|
                call_ensures(D::growable, (&self.medium(),), growable) && #[trigger] validation(
                    self.layout@,
                    job_views(jobs@),
                    self.medium().capacity(),
                    growable,
                    opts.strict_size,
                    r,
                ),
    {
        let capacity: u64 = self.dev.capacity_bytes();
        let growable = self.dev.growable();
        let r = validate_jobs(self.layout, jobs, capacity, growable, opts.strict_size);
        assert(capacity == self.medium().capacity());
        assert(call_ensures(D::growable, (&self.medium(),), growable));
        assert(validation(
            self.layout@,
            job_views(jobs@),
            self.medium().capacity(),
            growable,
            opts.strict_size,
            r,
        ));
        r
    }
}

// ---------------------------------------------------------------------------
// Extraction lengths
// ---------------------------------------------------------------------------

/// Does a length depend on the card's TOC?
pub open spec fn asks_toc(layout: LayoutView, idx: int, mode: Option<LengthMode>) -> bool {
    match mode {
        Some(LengthMode::Toc) => true,
        None => match layout.banks[idx].drive_type {
            Some(t) => t.stream,
            None => true,
        },
        _ => false,
    }
}

pub open spec fn recorded_length(toc: Option<TocView>, bank: Seq<char>, unit: u32) -> Option<u64> {
    match toc {
        Some(t) => match t.found(bank, unit) {
            Some(e) => Some(e.length),
            None => None,
        },
        None => None,
    }
}

/// The extraction length of a slot. Without a mode it is the canonical size of
/// a fixed-size drive type; of a stream type, or with no type, the length that
/// the TOC records, or else the slot.
pub open spec fn length_value(
    layout: LayoutView,
    idx: int,
    unit: u32,
    mode: Option<LengthMode>,
    toc: Option<TocView>,
) -> std::result::Result<u64, ErrorView> {
    let b = layout.banks[idx];
    let recorded = recorded_length(toc, b.name, unit);
    let len = match mode {
        Some(LengthMode::Bytes(n)) => Ok(n),
        Some(LengthMode::Slot) => Ok(b.slot_size),
        Some(LengthMode::Toc) => match recorded {
            Some(n) => Ok(n),
            None => Err(
                ErrorView::Validation(
                    "--length toc: no TOC record for slot "@ + slot_text(b.name, unit),
                ),
            ),
        },
        Some(LengthMode::Canonical) => match b.drive_type {
            None => Err(
                ErrorView::Validation(
                    "--length canonical: bank "@ + quoted(b.name) + " declares no drive_type"@,
                ),
            ),
            Some(t) => if t.stream {
                Err(
                    ErrorView::Validation(
                        "--length canonical: "@ + t.name + " of bank "@ + quoted(b.name)
                            + " is stream media, which has no canonical size"@,
                    ),
                )
            } else {
                Ok(t.image_bytes)
            },
        },
        None => match b.drive_type {
            Some(t) => if t.stream {
                Ok(
                    if recorded is Some {
                        recorded->0
                    } else {
                        b.slot_size
                    },
                )
            } else {
                Ok(t.image_bytes)
            },
            None => Ok(
                if recorded is Some {
                    recorded->0
                } else {
                    b.slot_size
                },
            ),
        },
    };
    match len {
        Err(e) => Err(e),
        Ok(n) => if n > b.slot_size {
            Err(
                ErrorView::Validation(
                    "requested length "@ + dec(n as nat) + " exceeds the "@ + bytes_text(
                        b.slot_size,
                    ) + " slot"@,
                ),
            )
        } else {
            Ok(n)
        },
    }
}

impl<'a, D: RawDevice> Session<'a, D> {
    /// Must the TOC be known before this length can be resolved?
    pub fn length_needs_toc(&self, bank_idx: usize, mode: Option<LengthMode>) -> (r: bool)
        requires
            bank_idx < self.layout.banks@.len(),
        ensures
            r == asks_toc(self.layout@, bank_idx as int, mode),
    {
        let bank = &self.layout.banks[bank_idx];
        assert(self.layout@.banks[bank_idx as int] == bank@);
        match mode {
            Some(LengthMode::Toc) => true,
            Some(_) => false,
            None => match &bank.drive_type {
                Some(t) => t.stream,
                None => true,
            },
        }
    }

    fn recorded(&self, bank: &str, unit: u32) -> (r: Option<u64>)
        requires
            self.toc_cache is Some,
        ensures
            r == recorded_length(self.toc_state()->0, bank@, unit),
    {
        match &self.toc_cache {
            Some(Some(t)) => match t.find(bank, unit) {
                Some(e) => Some(e.length),
                None => None,
            },
            _ => None,
        }
    }

    /// Resolve the extraction length for a slot, from the TOC as far as the
    /// session knows it.
    pub fn resolve_length(&self, bank_idx: usize, unit: u32, mode: Option<LengthMode>) -> (r:
        Result<u64>)
        requires
            self.wf(),
            bank_idx < self.layout.banks@.len(),
            asks_toc(self.layout@, bank_idx as int, mode) ==> self.toc_cache is Some,
        ensures
            crate::error::outcome(r) == length_value(
                self.layout@,
                bank_idx as int,
                unit,
                mode,
                if self.toc_cache is Some {
                    self.toc_state()->0
                } else {
                    None
                },
            ),
    {
        let bank = &self.layout.banks[bank_idx];
        assert(self.layout@.banks[bank_idx as int] == bank@);
        let len: u64 = match mode {
            Some(LengthMode::Bytes(n)) => n,
            Some(LengthMode::Slot) => bank.slot_size,
            Some(LengthMode::Toc) => match self.recorded(&bank.name, unit) {
                Some(n) => n,
                None => {
                    let s = slot_words(&bank.name, unit);
                    return Err(
                        Error::Validation(cat2("--length toc: no TOC record for slot ", &s)),
                    );
                },
            },
            Some(LengthMode::Canonical) => match &bank.drive_type {
                None => {
                    let q = quoted_text(&bank.name);
                    return Err(
                        Error::Validation(
                            cat3("--length canonical: bank ", &q, " declares no drive_type"),
                        ),
                    );
                },
                Some(t) => {
                    if t.stream {
                        let q = quoted_text(&bank.name);
                        return Err(
                            Error::Validation(
                                cat5(
                                    "--length canonical: ",
                                    &t.name,
                                    " of bank ",
                                    &q,
                                    " is stream media, which has no canonical size",
                                ),
                            ),
                        );
                    }
                    t.image_bytes
                },
            },
            None => {
                let fixed = match &bank.drive_type {
                    Some(t) => if t.stream {
                        None
                    } else {
                        Some(t.image_bytes)
                    },
                    None => None,
                };
                match fixed {
                    Some(n) => n,
                    None => match self.recorded(&bank.name, unit) {
                        Some(n) => n,
                        None => bank.slot_size,
                    },
                }
            },
        };
        if len > bank.slot_size {
            let n = dec_text(len);
            let s = format_bytes(bank.slot_size);
            return Err(
                Error::Validation(cat5("requested length ", &n, " exceeds the ", &s, " slot")),
            );
        }
        Ok(len)
    }
}

} // verus!

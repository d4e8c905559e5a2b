//! Optional on-card table of contents: a small versioned structure in a
//! reserved region that lets a card be described with no records on the host.
//!
//! On-card format: a fixed 48-byte header of magic (8), version (little-endian
//! 32 bits), payload length (the same), and the payload's SHA-256 (32), then
//! the payload, zero-padded to a sector boundary. The payload is the serialized
//! table.

use vstd::prelude::*;
use vstd::string::*;

use crate::buffer::{AlignedBuf, BUFFER_ALIGN};
use crate::device::{
    aligned, in_reach, overwrite, range, same_make, same_outside, untouched, zeros, Bytes,
    RawDevice,
};
use crate::error::{Error, ErrorView, Result};
use crate::layout::{hex, hex_bytes, TOC_REGION_LEN};
use crate::search::{find_where, first_where, first_where_is, first_where_props};
use crate::sha::{digest, digest_bytes};
use crate::text::{cat3, clone_opt, dec, dec_count, opt_text, same_text};

verus! {

pub const TOC_VERSION: u32 = 1;

pub const HEADER_LEN: usize = 48;

/// Distance between the places where a card is searched for a TOC.
pub const PROBE_STEP: u64 = 1048576;

/// What a TOC begins with: `SDSLTOC` and a one.
pub const TOC_MAGIC: [u8; 8] = [0x53, 0x44, 0x53, 0x4c, 0x54, 0x4f, 0x43, 0x01];

/// The bytes of the magic.
pub open spec fn magic() -> Seq<u8> {
    seq![0x53u8, 0x44u8, 0x53u8, 0x4cu8, 0x54u8, 0x4fu8, 0x43u8, 0x01u8]
}

fn toc_magic() -> (r: [u8; 8])
    ensures
        r@ == magic(),
{
    assert(TOC_MAGIC@ =~= magic());
    TOC_MAGIC
}

#[derive(Debug)]
pub struct TocEntry {
    pub bank: String,
    pub unit: u32,
    /// Absolute device byte offset of the slot, so that a card can be
    /// described and hashed with no manifest at hand.
    pub offset: u64,
    pub name: Option<String>,
    /// Meaningful byte length of the slot's content: the image length as
    /// written.
    pub length: u64,
    /// SHA-256 of those bytes at write time, lowercase hex.
    pub sha256: String,
    /// Unix seconds at write time.
    pub written_unix: u64,
}

pub struct TocEntryView {
    pub bank: Seq<char>,
    pub unit: u32,
    pub offset: u64,
    pub name: Option<Seq<char>>,
    pub length: u64,
    pub sha256: Seq<char>,
    pub written_unix: u64,
}

impl View for TocEntry {
    type V = TocEntryView;

    open spec fn view(&self) -> TocEntryView {
        TocEntryView {
            bank: self.bank@,
            unit: self.unit,
            offset: self.offset,
            name: opt_text(self.name),
            length: self.length,
            sha256: self.sha256@,
            written_unix: self.written_unix,
        }
    }
}

impl Clone for TocEntry {
    fn clone(&self) -> (r: TocEntry)
        ensures
            r == *self,
    {
        TocEntry {
            bank: self.bank.clone(),
            unit: self.unit,
            offset: self.offset,
            name: clone_opt(&self.name),
            length: self.length,
            sha256: self.sha256.clone(),
            written_unix: self.written_unix,
        }
    }
}

#[derive(Debug)]
pub struct Toc {
    pub version: u32,
    /// Hash of the layout the card was written with.
    pub layout_hash: String,
    pub entries: Vec<TocEntry>,
}

pub struct TocView {
    pub version: u32,
    pub layout_hash: Seq<char>,
    pub entries: Seq<TocEntryView>,
}

pub open spec fn entry_views(entries: Seq<TocEntry>) -> Seq<TocEntryView> {
    entries.map_values(|e: TocEntry| e@)
}

impl View for Toc {
    type V = TocView;

    open spec fn view(&self) -> TocView {
        TocView {
            version: self.version,
            layout_hash: self.layout_hash@,
            entries: entry_views(self.entries@),
        }
    }
}

pub open spec fn entry_of(bank: Seq<char>, unit: u32) -> spec_fn(TocEntryView) -> bool {
    |e: TocEntryView| e.bank == bank && e.unit == unit
}

impl TocView {
    /// A table with no entries.
    pub open spec fn blank(layout_hash: Seq<char>) -> TocView {
        TocView { version: TOC_VERSION, layout_hash, entries: Seq::empty() }
    }

    /// The first record of a slot.
    pub open spec fn found(self, bank: Seq<char>, unit: u32) -> Option<TocEntryView> {
        find_where(self.entries, entry_of(bank, unit))
    }

    /// The table with `e` in place of the first record of its slot, or behind
    /// all records.
    pub open spec fn upserted(self, e: TocEntryView) -> TocView {
        let k = first_where(self.entries, entry_of(e.bank, e.unit)) as int;
        TocView {
            entries: if k < self.entries.len() {
                self.entries.update(k, e)
            } else {
                self.entries.push(e)
            },
            ..self
        }
    }

    /// The table without any record of a slot.
    pub open spec fn removed(self, bank: Seq<char>, unit: u32) -> TocView {
        TocView {
            entries: self.entries.filter(|e: TocEntryView| !entry_of(bank, unit)(e)),
            ..self
        }
    }
}

impl Clone for Toc {
    fn clone(&self) -> (r: Toc)
        ensures
            r@ == self@,
    {
        let mut entries: Vec<TocEntry> = Vec::new();
        for i in 0..self.entries.len()
            invariant
                entries@ == self.entries@.take(i as int),
        {
            entries.push(self.entries[i].clone());
            assert(entries@ =~= self.entries@.take(i + 1));
        }
        assert(entries@ =~= self.entries@);
        Toc { version: self.version, layout_hash: self.layout_hash.clone(), entries }
    }
}

impl Toc {
    pub fn new(layout_hash: String) -> (r: Toc)
        ensures
            r@ == TocView::blank(layout_hash@),
    {
        let r = Toc { version: TOC_VERSION, layout_hash, entries: Vec::new() };
        assert(r@.entries =~= Seq::<TocEntryView>::empty());
        r
    }

    fn position(&self, bank: &str, unit: u32) -> (k: usize)
        ensures
            k == first_where(self@.entries, entry_of(bank@, unit)),
            k <= self.entries@.len(),
    {
        let n: usize = self.entries.len();
        let mut i: usize = 0;
        while i < n && !(self.entries[i].unit == unit && same_text(&self.entries[i].bank, bank))
            invariant
                n == self.entries@.len(),
                i <= n,
                forall|j: int|
                    0 <= j < i ==> !entry_of(bank@, unit)(#[trigger] self@.entries[j]),
            decreases n - i,
        {
            assert(self@.entries[i as int] == self.entries@[i as int]@);
            i = i + 1;
        }
        proof {
            if i < n {
                assert(self@.entries[i as int] == self.entries@[i as int]@);
            }
            first_where_is(self@.entries, entry_of(bank@, unit), i as int);
        }
        i
    }

    pub fn find(&self, bank: &str, unit: u32) -> (r: Option<&TocEntry>)
        ensures
            match r {
                Some(e) => self@.found(bank@, unit) == Some(e@),
                None => self@.found(bank@, unit) is None,
            },
    {
        let k: usize = self.position(bank, unit);
        if k < self.entries.len() {
            assert(self@.entries[k as int] == self.entries@[k as int]@);
            Some(&self.entries[k])
        } else {
            None
        }
    }

    pub fn upsert(&mut self, entry: TocEntry)
        ensures
            final(self)@ == old(self)@.upserted(entry@),
    {
        let k: usize = self.position(&entry.bank, entry.unit);
        let ghost e = entry@;
        if k < self.entries.len() {
            self.entries[k] = entry;
            assert(self@.entries =~= old(self)@.entries.update(k as int, e));
        } else {
            self.entries.push(entry);
            assert(self@.entries =~= old(self)@.entries.push(e));
        }
    }

    pub fn remove(&mut self, bank: &str, unit: u32)
        ensures
            final(self)@ == old(self)@.removed(bank@, unit),
    {
        let ghost keep = |e: TocEntryView| !entry_of(bank@, unit)(e);
        let mut kept: Vec<TocEntry> = Vec::new();
        let ghost all = self@.entries;
        assert(all.take(0).filter(keep) =~= Seq::<TocEntryView>::empty()) by {
            reveal(Seq::filter);
        }
        for i in 0..self.entries.len()
            invariant
                *self == *old(self),
                all == self@.entries,
                keep == (|e: TocEntryView| !entry_of(bank@, unit)(e)),
                entry_views(kept@) == all.take(i as int).filter(keep),
        {
            let e = &self.entries[i];
            assert(all[i as int] == e@);
            proof {
                reveal(Seq::filter);
                assert(all.take(i + 1).drop_last() =~= all.take(i as int));
                assert(all.take(i + 1).last() == e@);
            }
            if !(e.unit == unit && same_text(&e.bank, bank)) {
                let ghost before = kept@;
                kept.push(e.clone());
                assert(entry_views(kept@) =~= entry_views(before).push(e@));
            }
        }
        assert(all.take(all.len() as int) =~= all);
        self.entries = kept;
    }
}

// ---------------------------------------------------------------------------
// The frame around the payload
// ---------------------------------------------------------------------------

/// Four bytes, the lowest first.
pub open spec fn le32(n: nat) -> Seq<u8> {
    seq![
        (n % 256) as u8,
        (n / 256 % 256) as u8,
        (n / 65536 % 256) as u8,
        (n / 16777216 % 256) as u8,
    ]
}

/// The number that four bytes stand for, the lowest first.
pub open spec fn le32_value(b: Seq<u8>) -> int {
    b[0] + 256 * b[1] + 65536 * b[2] + 16777216 * b[3]
}

/// Least multiple of `unit` not below `n`.
pub open spec fn rounded_up(n: int, unit: int) -> int {
    (n + unit - 1) / unit * unit
}

pub open spec fn header(payload: Seq<u8>) -> Seq<u8> {
    magic() + le32(TOC_VERSION as nat) + le32(payload.len()) + digest(payload)
}

/// Header, payload, and zeros up to a sector boundary.
pub open spec fn framed(payload: Seq<u8>, sector: u32) -> Seq<u8> {
    let body = header(payload) + payload;
    body + zeros((rounded_up(HEADER_LEN + payload.len(), sector as int) - HEADER_LEN
        - payload.len()) as nat)
}

/// The payload that a card holds at `offset`: magic, version, length and hash
/// must be right.
pub open spec fn payload_at(c: Bytes, offset: int) -> Option<Seq<u8>> {
    let h = range(c, offset, HEADER_LEN as nat);
    let len = le32_value(h.subrange(12, 16));
    let payload = range(c, offset + HEADER_LEN, len as nat);
    if h.take(8) == magic() && le32_value(h.subrange(8, 12)) == TOC_VERSION && len
        <= TOC_REGION_LEN - HEADER_LEN && digest(payload) == h.skip(16) {
        Some(payload)
    } else {
        None
    }
}

pub open spec fn opt_bytes(o: Option<Vec<u8>>) -> Option<Seq<u8>> {
    match o {
        Some(v) => Some(v@),
        None => None,
    }
}

/// `n` rounded up to whole units of `align`, whatever its size.
pub(crate) fn round_wide(n: u64, align: u32) -> (r: u128)
    requires
        align > 0,
    ensures
        r == rounded_up(n as int, align as int),
        n <= r < n + align,
{
    proof {
        rounded_up_props(n as int, align as int);
    }
    let rem: u64 = n % align as u64;
    if rem == 0 {
        n as u128
    } else {
        n as u128 + (align as u64 - rem) as u128
    }
}

/// Round `n` up to a multiple of `align`.
pub fn round_up(n: u64, align: u64) -> (r: u64)
    requires
        align > 0,
        rounded_up(n as int, align as int) <= u64::MAX,
    ensures
        r == rounded_up(n as int, align as int),
        n <= r < n + align,
        r as int % (align as int) == 0,
{
    proof {
        rounded_up_props(n as int, align as int);
    }
    let rem: u64 = n % align;
    if rem == 0 {
        n
    } else {
        n + (align - rem)
    }
}

pub proof fn rounded_up_props(n: int, a: int)
    requires
        a > 0,
    ensures
        n <= rounded_up(n, a) < n + a,
        rounded_up(n, a) % a == 0,
        n % a == 0 ==> rounded_up(n, a) == n,
        n % a != 0 ==> rounded_up(n, a) == n + (a - n % a),
        n > 0 ==> rounded_up(n, a) >= a,
{
    let q = n / a;
    let r = n % a;
    assert(n == q * a + r && 0 <= r < a) by (nonlinear_arith)
        requires
            q == n / a,
            r == n % a,
            a > 0,
    ;
    let m = (n + a - 1) / a;
    if r == 0 {
        assert(m == q) by (nonlinear_arith)
            requires
                n == q * a,
                m == (n + a - 1) / a,
                a > 0,
        ;
    } else {
        assert(m == q + 1) by (nonlinear_arith)
            requires
                n == q * a + r,
                0 < r < a,
                m == (n + a - 1) / a,
                a > 0,
        ;
        assert((q + 1) * a == q * a + a) by (nonlinear_arith);
    }
    if n > 0 {
        assert(m * a >= a) by (nonlinear_arith)
            requires
                m * a >= n,
                n > 0,
                a > 0,
        ;
    }
    assert(m * a % a == 0) by (nonlinear_arith)
        requires
            a > 0,
    ;
}

/// A sector size with which the TOC region can be read at `offset`.
pub open spec fn readable(sector: u32, offset: int) -> bool {
    &&& sector > 0
    &&& offset + rounded_up(TOC_REGION_LEN as int, sector as int) <= u64::MAX
    &&& rounded_up(TOC_REGION_LEN as int, sector as int) + BUFFER_ALIGN <= usize::MAX
}

fn same_bytes(a: &[u8], b: &[u8]) -> (r: bool)
    ensures
        r == (a@ == b@),
{
    if a.len() != b.len() {
        return false;
    }
    let mut i: usize = 0;
    while i < a.len()
        invariant
            a@.len() == b@.len(),
            i <= a@.len(),
            forall|k: int| 0 <= k < i ==> a@[k] == b@[k],
        decreases a@.len() - i,
    {
        if a[i] != b[i] {
            return false;
        }
        i = i + 1;
    }
    assert(a@ =~= b@);
    true
}

fn le32_at(b: &[u8], at: usize) -> (r: u32)
    requires
        at + 4 <= b@.len(),
    ensures
        r == le32_value(b@.subrange(at as int, at + 4)),
{
    b[at] as u32 + 256 * b[at + 1] as u32 + 65536 * b[at + 2] as u32 + 16777216 * b[at + 3] as u32
}

fn push_le32(out: &mut Vec<u8>, n: u32)
    ensures
        final(out)@ == old(out)@ + le32(n as nat),
{
    out.push((n % 256) as u8);
    out.push((n / 256 % 256) as u8);
    out.push((n / 65536 % 256) as u8);
    out.push((n / 16777216 % 256) as u8);
    assert(out@ =~= old(out)@ + le32(n as nat));
}

fn copy_range(b: &[u8], from: usize, to: usize) -> (r: Vec<u8>)
    requires
        from <= to <= b@.len(),
    ensures
        r@ == b@.subrange(from as int, to as int),
{
    let mut out: Vec<u8> = Vec::new();
    let mut i: usize = from;
    while i < to
        invariant
            from <= i <= to <= b@.len(),
            out@ == b@.subrange(from as int, i as int),
        decreases to - i,
    {
        out.push(b[i]);
        i = i + 1;
        assert(out@ =~= b@.subrange(from as int, i as int));
    }
    out
}

/// Read the payload of the TOC at `offset`. `Ok(None)` when the region holds no
/// valid frame: bad magic, another version, a length that does not fit, or a
/// payload that does not hash to what the header says.
pub fn read_toc<D: RawDevice>(dev: &mut D, offset: u64) -> (r: Result<Option<Vec<u8>>>)
    requires
        readable(old(dev).sector(), offset as int),
    ensures
        r matches Ok(p) ==> opt_bytes(p) == payload_at(old(dev).contents(), offset as int),
        untouched(old(dev), final(dev)),
        old(dev).reliable() && in_reach(
            old(dev),
            offset + rounded_up(TOC_REGION_LEN as int, old(dev).sector() as int),
        ) ==> r is Ok,
{
    let sector: u64 = dev.sector_size() as u64;
    let ghost c = dev.contents();
    let ghost region = rounded_up(TOC_REGION_LEN as int, sector as int);
    proof {
        rounded_up_props(TOC_REGION_LEN as int, sector as int);
    }
    proof {
        rounded_up_props(4096, sector as int);
        rounded_up_monotone(4096, TOC_REGION_LEN as int, sector as int);
    }
    // A page, or one sector where sectors are larger.
    let first: usize = round_up(4096, sector) as usize;
    let mut buf = AlignedBuf::new(first);
    match dev.read_at(offset, buf.as_mut_slice()) {
        Ok(_) => {},
        Err(e) => {
            return Err(e);
        },
    }
    let ghost h = range(c, offset as int, HEADER_LEN as nat);
    assert(buf@ == range(c, offset as int, first as nat));
    assert(buf@.take(48) =~= h);
    let b = buf.as_slice();
    let mag = toc_magic();
    let found = copy_range(b, 0, 8);
    assert(found@ =~= h.take(8));
    if !same_bytes(&found, &mag) {
        return Ok(None);
    }
    let version: u32 = le32_at(b, 8);
    let payload_len: u32 = le32_at(b, 12);
    assert(b@.subrange(8, 12) =~= h.subrange(8, 12));
    assert(b@.subrange(12, 16) =~= h.subrange(12, 16));
    let want = copy_range(b, 16, 48);
    assert(want@ =~= h.skip(16));
    if version != TOC_VERSION || payload_len as u64 > TOC_REGION_LEN - HEADER_LEN as u64 {
        return Ok(None);
    }
    let total: usize = HEADER_LEN + payload_len as usize;
    let ghost payload = range(c, offset + HEADER_LEN, payload_len as nat);
    let got = if total <= first {
        let v = copy_range(b, HEADER_LEN, total);
        assert(v@ =~= payload);
        v
    } else {
        proof {
            rounded_up_monotone(total as int, TOC_REGION_LEN as int, sector as int);
            rounded_up_props(total as int, sector as int);
        }
        let round: usize = round_up(total as u64, sector) as usize;
        let mut big = AlignedBuf::new(round);
        match dev.read_at(offset, big.as_mut_slice()) {
            Ok(_) => {},
            Err(e) => {
                return Err(e);
            },
        }
        let v = copy_range(big.as_slice(), HEADER_LEN, total);
        assert(v@ =~= payload);
        v
    };
    let sum = digest_bytes(&got);
    if !same_bytes(&sum, &want) {
        return Ok(None);
    }
    Ok(Some(got))
}

pub proof fn rounded_up_monotone(a: int, b: int, unit: int)
    requires
        a <= b,
        unit > 0,
    ensures
        rounded_up(a, unit) <= rounded_up(b, unit),
{
    assert((a + unit - 1) / unit <= (b + unit - 1) / unit) by (nonlinear_arith)
        requires
            a <= b,
            unit > 0,
    ;
    assert((a + unit - 1) / unit * unit <= (b + unit - 1) / unit * unit) by (nonlinear_arith)
        requires
            (a + unit - 1) / unit <= (b + unit - 1) / unit,
            unit > 0,
    ;
}

fn header_bytes(payload: &[u8]) -> (r: Vec<u8>)
    requires
        payload@.len() <= TOC_REGION_LEN,
    ensures
        r@ == header(payload@),
        r@.len() == HEADER_LEN,
{
    let mag = toc_magic();
    let mut out = copy_range(&mag, 0, 8);
    assert(out@ =~= magic());
    push_le32(&mut out, TOC_VERSION);
    push_le32(&mut out, payload.len() as u32);
    let mut sum = digest_bytes(payload);
    out.append(&mut sum);
    assert(out@ =~= header(payload@));
    out
}

pub open spec fn oversize(len: nat) -> ErrorView {
    ErrorView::Validation(
        "TOC payload ("@ + dec(len) + " bytes) exceeds the 131072-byte TOC region"@,
    )
}

/// Frame a payload and write it as the TOC at `offset` (one aligned write,
/// then it is up to the caller to flush).
pub fn write_toc<D: RawDevice>(dev: &mut D, offset: u64, payload: &Vec<u8>) -> (r: Result<()>)
    requires
        readable(old(dev).sector(), offset as int),
        aligned(old(dev).sector(), offset as int, 0),
    ensures
        HEADER_LEN + payload@.len() > TOC_REGION_LEN ==> (r matches Err(e) && e@ == oversize(
            payload@.len(),
        ) && *final(dev) == *old(dev)),
        HEADER_LEN + payload@.len() <= TOC_REGION_LEN ==> {
            &&& r is Ok ==> final(dev).contents() == overwrite(
                old(dev).contents(),
                offset as int,
                framed(payload@, old(dev).sector()),
            )
            &&& old(dev).reliable() && offset + rounded_up(
                HEADER_LEN + payload@.len(),
                old(dev).sector() as int,
            ) <= old(dev).capacity() ==> r is Ok
        },
        HEADER_LEN + payload@.len() <= TOC_REGION_LEN ==> exists|d: &mut D, block: &[u8]|
            *d == *old(dev) && *final(d) == *final(dev) && block@ == framed(
                payload@,
                old(dev).sector(),
            ) && #[trigger] call_ensures(D::write_at, (d, offset, block), r),
        same_make(old(dev), final(dev)),
        same_outside(
            old(dev).contents(),
            final(dev).contents(),
            offset as int,
            offset + rounded_up(TOC_REGION_LEN as int, old(dev).sector() as int),
        ),
{
    if payload.len() as u64 > TOC_REGION_LEN - HEADER_LEN as u64 {
        let n = dec_count(payload.len());
        return Err(
            Error::Validation(
                cat3("TOC payload (", &n, " bytes) exceeds the 131072-byte TOC region"),
            ),
        );
    }
    let sector: u64 = dev.sector_size() as u64;
    let used: u64 = HEADER_LEN as u64 + payload.len() as u64;
    proof {
        rounded_up_props(used as int, sector as int);
        rounded_up_monotone(used as int, TOC_REGION_LEN as int, sector as int);
        rounded_up_props(TOC_REGION_LEN as int, sector as int);
    }
    let total: usize = round_up(used, sector) as usize;
    let mut body = header_bytes(payload);
    let mut tail = copy_range(payload, 0, payload.len());
    assert(tail@ =~= payload@);
    body.append(&mut tail);
    let mut buf = AlignedBuf::new(total);
    buf.put(&body);
    assert(buf@ =~= framed(payload@, sector as u32));
    dev.write_at(offset, buf.as_slice())
}

/// The first valid TOC payload at `at` or a whole number of steps behind it,
/// within the capacity.
pub open spec fn payload_from(c: Bytes, capacity: u64, sector: u32, at: int) -> Option<
    (int, Seq<u8>),
>
    decreases capacity + PROBE_STEP - at,
{
    if at < 0 || at + sector > capacity {
        None
    } else if payload_at(c, at) is Some {
        Some((at, payload_at(c, at)->0))
    } else {
        payload_from(c, capacity, sector, at + PROBE_STEP)
    }
}

/// What looks like a TOC at `at`, or a whole number of steps behind it up to the
/// first valid one, leaves room for the region.
pub open spec fn tables_in_reach<D: RawDevice>(dev: &D, at: int) -> bool
    decreases dev.capacity() + PROBE_STEP - at,
{
    if at < 0 || at + dev.sector() > dev.capacity() {
        true
    } else {
        &&& range(dev.contents(), at, 8) == magic() ==> in_reach(
            dev,
            at + rounded_up(TOC_REGION_LEN as int, dev.sector() as int),
        )
        &&& payload_at(dev.contents(), at) is Some || tables_in_reach(dev, at + PROBE_STEP)
    }
}

/// A device that can be searched for a TOC.
pub open spec fn searchable<D: RawDevice>(dev: &D) -> bool {
    &&& 8 <= dev.sector()
    &&& dev.capacity() <= u64::MAX - PROBE_STEP
    &&& rounded_up(TOC_REGION_LEN as int, dev.sector() as int) + BUFFER_ALIGN <= usize::MAX
}

/// Can a card be searched for a TOC?
pub fn can_search<D: RawDevice>(dev: &D) -> (r: bool)
    ensures
        r == searchable(dev),
{
    let sector: u32 = dev.sector_size();
    sector >= 8 && dev.capacity_bytes() <= u64::MAX - PROBE_STEP && round_wide(
        TOC_REGION_LEN,
        sector,
    ) + BUFFER_ALIGN as u128 <= usize::MAX as u128
}

/// Search a card for a TOC with no manifest at hand: probe `from` and each
/// further 1 MiB step for the magic, and return the first valid payload with
/// its offset.
pub fn probe_toc<D: RawDevice>(dev: &mut D, from: u64) -> (r: Result<Option<(u64, Vec<u8>)>>)
    requires
        searchable(old(dev)),
        from <= u64::MAX - PROBE_STEP - old(dev).sector(),
    ensures
        r matches Ok(found) ==> match found {
            None => payload_from(
                old(dev).contents(),
                old(dev).capacity(),
                old(dev).sector(),
                from as int,
            ) is None,
            Some(f) => payload_from(
                old(dev).contents(),
                old(dev).capacity(),
                old(dev).sector(),
                from as int,
            ) == Some((f.0 as int, f.1@)) && f.0 + old(dev).sector() <= old(dev).capacity(),
        },
        untouched(old(dev), final(dev)),
        old(dev).reliable() && tables_in_reach(old(dev), from as int) ==> r is Ok,
{
    let capacity: u64 = dev.capacity_bytes();
    let sector: u64 = dev.sector_size() as u64;
    let ghost c = dev.contents();
    proof {
        rounded_up_props(TOC_REGION_LEN as int, sector as int);
    }
    let mag = toc_magic();
    let mut buf = AlignedBuf::new(sector as usize);
    let mut offset: u64 = from;
    while offset + sector <= capacity
        invariant
            untouched(old(dev), dev),
            searchable(old(dev)),
            capacity == old(dev).capacity(),
            sector == old(dev).sector(),
            c == old(dev).contents(),
            mag@ == magic(),
            buf.wf(),
            buf@.len() == sector,
            offset + sector <= u64::MAX,
            rounded_up(TOC_REGION_LEN as int, sector as int) < TOC_REGION_LEN + sector,
            rounded_up(TOC_REGION_LEN as int, sector as int) >= sector,
            tables_in_reach(old(dev), from as int) ==> tables_in_reach(old(dev), offset as int),
            payload_from(c, capacity, sector as u32, from as int) == payload_from(
                c,
                capacity,
                sector as u32,
                offset as int,
            ),
        decreases capacity + PROBE_STEP - offset,
    {
        match dev.read_at(offset, buf.as_mut_slice()) {
            Ok(_) => {},
            Err(e) => {
                return Err(e);
            },
        }
        let found = copy_range(buf.as_slice(), 0, 8);
        assert(found@ =~= range(c, offset as int, HEADER_LEN as nat).take(8));
        assert(found@ =~= range(c, offset as int, 8));
        if same_bytes(&found, &mag) {
            match read_toc(dev, offset) {
                Ok(Some(p)) => {
                    return Ok(Some((offset, p)));
                },
                Ok(None) => {},
                Err(e) => {
                    return Err(e);
                },
            }
        }
        offset = offset + PROBE_STEP;
    }
    Ok(None)
}

/// Where the search goes on behind a payload at `found` that turns out to be no
/// table; nowhere once the card ends.
pub fn next_probe<D: RawDevice>(dev: &D, found: u64) -> (r: Option<u64>)
    requires
        searchable(dev),
        found + dev.sector() <= dev.capacity(),
    ensures
        r == (if found + PROBE_STEP + dev.sector() <= dev.capacity() {
            Some((found + PROBE_STEP) as u64)
        } else {
            None
        }),
        r is None ==> payload_from(
            dev.contents(),
            dev.capacity(),
            dev.sector(),
            found + PROBE_STEP,
        ) is None,
{
    let next: u64 = found + PROBE_STEP;
    if dev.sector_size() as u64 <= dev.capacity_bytes() && next <= dev.capacity_bytes()
        - dev.sector_size() as u64 {
        Some(next)
    } else {
        None
    }
}

/// `std::time::SystemTime`, a point in time of the host's clock.
#[verifier::external_type_specification]
#[verifier::external_body]
pub struct ExSystemTime(std::time::SystemTime);

/// `SystemTime::now`: the current time, of which nothing is said.
#[verifier::external_body]
fn system_now() -> (r: std::time::SystemTime)
{
    std::time::SystemTime::now()
}

/// `SystemTime::duration_since` the Unix epoch, in whole seconds; nothing where
/// the time lies before the epoch. A time is opaque here, so nothing is said of
/// the value.
#[verifier::external_body]
fn seconds_since_epoch(at: std::time::SystemTime) -> (r: Option<u64>)
{
    at.duration_since(std::time::UNIX_EPOCH).ok().map(|d| d.as_secs())
}

/// The time stamp of a clock reading: 0 where the clock stands before the epoch.
pub fn time_stamp(since_epoch: Option<u64>) -> (r: u64)
    ensures
        r == (match since_epoch {
            Some(s) => s,
            None => 0,
        }),
{
    match since_epoch {
        Some(s) => s,
        None => 0,
    }
}

/// The current time in Unix seconds.
pub fn now_unix() -> (r: u64)
{
    time_stamp(seconds_since_epoch(system_now()))
}

/// Lowercase hex SHA-256 of a byte string.
pub open spec fn sha_hex(data: Seq<u8>) -> Seq<char> {
    hex_bytes(digest(data))
}

pub fn sha256_hex(data: &[u8]) -> (r: String)
    ensures
        r@ == sha_hex(data@),
{
    let d = digest_bytes(data);
    hex(&d)
}

// ---------------------------------------------------------------------------
// What holds of the table and its frame
// ---------------------------------------------------------------------------

/// A record that was put in is found under its slot.
pub proof fn upserted_record_is_found(t: TocView, e: TocEntryView)
    ensures
        t.upserted(e).found(e.bank, e.unit) == Some(e),
{
    let p = entry_of(e.bank, e.unit);
    first_where_props(t.entries, p);
    let k = first_where(t.entries, p) as int;
    let after = t.upserted(e).entries;
    assert forall|j: int| 0 <= j < k implies !p(#[trigger] after[j]) by {
        assert(after[j] == t.entries[j]);
    }
    first_where_is(after, p, k);
}

/// Putting a record in leaves what is found under every other slot.
pub proof fn upserting_keeps_other_slots(t: TocView, e: TocEntryView, bank: Seq<char>, unit: u32)
    requires
        !(e.bank == bank && e.unit == unit),
    ensures
        t.upserted(e).found(bank, unit) == t.found(bank, unit),
{
    let p = entry_of(e.bank, e.unit);
    let q = entry_of(bank, unit);
    first_where_props(t.entries, p);
    first_where_props(t.entries, q);
    let k = first_where(t.entries, p) as int;
    let m = first_where(t.entries, q) as int;
    let after = t.upserted(e).entries;
    if m < t.entries.len() {
        assert forall|j: int| 0 <= j < m implies !q(#[trigger] after[j]) by {
            assert(!q(t.entries[j]));
        }
        assert(k != m);
        first_where_is(after, q, m);
    } else {
        assert forall|j: int| 0 <= j < after.len() implies !q(#[trigger] after[j]) by {
            if j < t.entries.len() {
                assert(!q(t.entries[j]));
            }
        }
        first_where_is(after, q, after.len() as int);
    }
}

/// After its removal a slot has no record, and every other slot has the
/// record it had.
pub proof fn removal_drops_one_slot(t: TocView, bank: Seq<char>, unit: u32)
    ensures
        t.removed(bank, unit).found(bank, unit) is None,
        forall|b: Seq<char>, u: u32|
            !(b == bank && u == unit) ==> #[trigger] t.removed(bank, unit).found(b, u) == t.found(
                b,
                u,
            ),
{
    let p = entry_of(bank, unit);
    let keep = |e: TocEntryView| !p(e);
    let after = t.removed(bank, unit).entries;
    assert forall|j: int| 0 <= j < after.len() implies !p(#[trigger] after[j]) by {
        t.entries.lemma_filter_pred(keep, j);
    }
    first_where_is(after, p, after.len() as int);
    assert forall|b: Seq<char>, u: u32|
        !(b == bank && u == unit) implies #[trigger] t.removed(bank, unit).found(b, u) == t.found(
        b,
        u,
    ) by {
        filter_keeps_first(t.entries, p, entry_of(b, u));
    }
}

proof fn filter_keeps_first(s: Seq<TocEntryView>, p: spec_fn(TocEntryView) -> bool, q: spec_fn(TocEntryView) -> bool)
    requires
        forall|e: TocEntryView| #[trigger] q(e) ==> !p(e),
    ensures
        find_where(s.filter(|e: TocEntryView| !p(e)), q) == find_where(s, q),
    decreases s.len(),
{
    let keep = |e: TocEntryView| !p(e);
    let f = s.filter(keep);
    reveal(Seq::filter);
    if s.len() == 0 {
        assert(f =~= s);
    } else {
        let front = s.drop_last();
        let last = s.last();
        filter_keeps_first(front, p, q);
        let ff = front.filter(keep);
        assert(f == if keep(last) {
            ff.push(last)
        } else {
            ff
        });
        push_first(front, last, q);
        assert(front.push(last) =~= s);
        if keep(last) {
            push_first(ff, last, q);
        }
    }
}

proof fn push_first(s: Seq<TocEntryView>, e: TocEntryView, q: spec_fn(TocEntryView) -> bool)
    ensures
        find_where(s.push(e), q) == if find_where(s, q) is Some {
            find_where(s, q)
        } else if q(e) {
            Some(e)
        } else {
            None
        },
{
    first_where_props(s, q);
    let k = first_where(s, q) as int;
    let t = s.push(e);
    if k < s.len() {
        assert forall|j: int| 0 <= j < k implies !q(#[trigger] t[j]) by {
            assert(!q(s[j]));
        }
        first_where_is(t, q, k);
    } else {
        assert forall|j: int| 0 <= j < s.len() implies !q(#[trigger] t[j]) by {
            assert(!q(s[j]));
        }
        if q(e) {
            first_where_is(t, q, s.len() as int);
        } else {
            first_where_is(t, q, t.len() as int);
        }
    }
}

/// A payload that was framed and written is the payload the card holds.
pub proof fn framed_payload_reads_back(c: Bytes, offset: int, payload: Seq<u8>, sector: u32)
    requires
        sector > 0,
        HEADER_LEN + payload.len() <= TOC_REGION_LEN,
    ensures
        payload_at(overwrite(c, offset, framed(payload, sector)), offset) == Some(payload),
{
    let f = framed(payload, sector);
    let d = overwrite(c, offset, f);
    let n = payload.len();
    rounded_up_props(HEADER_LEN + n, sector as int);
    let h = range(d, offset, HEADER_LEN as nat);
    assert(h =~= header(payload));
    assert(h.take(8) =~= magic());
    assert(h.subrange(8, 12) =~= le32(TOC_VERSION as nat));
    assert(h.subrange(12, 16) =~= le32(n));
    assert(h.skip(16) =~= digest(payload));
    assert(le32_value(le32(n)) == n);
    assert(range(d, offset + HEADER_LEN, n) =~= payload);
}

} // verus!

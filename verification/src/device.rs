//! Raw device access. The engine performs all alignment, chunking and padding,
//! so implementations stay minimal and identical in contract: sector-aligned
//! writes, reads, and queries of capacity and sector size.

use vstd::prelude::*;
use vstd::string::*;

use crate::error::{Error, Result};
use crate::text::{begins_with, starts_with, trim, trimmed};

verus! {

#[derive(Debug, Clone, Copy, PartialEq, Eq, Structural)]
pub enum AccessMode {
    /// Shared access for extraction and status: a concurrent writer is
    /// excluded but other readers are fine.
    Read,
    /// Exclusive access for writes: fails if the device is in use and cannot
    /// be safely claimed.
    Write,
}

/// One enumerated candidate device.
#[derive(Debug, Clone, PartialEq, Eq)]
pub struct DeviceInfo {
    pub path: String,
    pub model: String,
    pub bus: String,
    pub size_bytes: Option<u64>,
    pub sector_size: Option<u32>,
    /// `None` when the removable flag could not be determined (treated as
    /// non-removable by the safety rails).
    pub removable: Option<bool>,
    /// The system or boot disk: refused for writing in any case.
    pub system: bool,
}

/// The bytes of a device by offset.
pub type Bytes = spec_fn(int) -> u8;

/// `c` with `data` in place of what stood at `offset`.
pub open spec fn overwrite(c: Bytes, offset: int, data: Seq<u8>) -> Bytes {
    |at: int|
        if offset <= at < offset + data.len() {
            data[at - offset]
        } else {
            c(at)
        }
}

/// The `len` bytes at `offset`.
pub open spec fn range(c: Bytes, offset: int, len: nat) -> Seq<u8> {
    Seq::new(len, |i: int| c(offset + i))
}

/// `a` and `b` hold the same bytes outside `lo..hi`.
pub open spec fn same_outside(a: Bytes, b: Bytes, lo: int, hi: int) -> bool {
    forall|at: int| !(lo <= at < hi) ==> #[trigger] b(at) == a(at)
}

pub open spec fn all_zero(data: Seq<u8>) -> bool {
    forall|i: int| 0 <= i < data.len() ==> #[trigger] data[i] == 0
}

pub open spec fn zeros(len: nat) -> Seq<u8> {
    Seq::new(len, |i: int| 0u8)
}

/// `len` bytes are whole sectors.
pub open spec fn whole_sectors(sector: u32, len: int) -> bool {
    0 < sector ==> len % (sector as int) == 0
}

/// A write at `offset` of `len` bytes falls on sector boundaries.
pub open spec fn aligned(sector: u32, offset: int, len: int) -> bool {
    whole_sectors(sector, offset) && whole_sectors(sector, len)
}

/// A device that the engine transfers to and from. A verified device gives its
/// own model; the model of one that is not is left at its defaults, of which
/// nothing uses the values.
pub trait RawDevice {
    open spec fn sector(&self) -> u32 {
        0
    }

    open spec fn capacity(&self) -> u64 {
        0
    }

    /// May the device grow on write?
    open spec fn grows(&self) -> bool {
        false
    }

    open spec fn contents(&self) -> Bytes {
        |at: int| 0u8
    }

    /// Does every transfer inside the capacity succeed?
    open spec fn reliable(&self) -> bool {
        false
    }

    /// Logical sector size (held against the manifest by the engine).
    fn sector_size(&self) -> (r: u32)
        ensures
            r == self.sector(),
    ;

    /// Total capacity in bytes (current length for file-backed devices).
    fn capacity_bytes(&self) -> (r: u64)
        ensures
            r == self.capacity(),
    ;

    /// True for file-backed devices, which grow on write and zero-fill reads
    /// past the end; the engine skips fixed-capacity bounds checks for them.
    fn growable(&self) -> (r: bool)
        ensures
            r ==> self.grows(),
            r ==> forall|at: int| at >= self.capacity() ==> #[trigger] self.contents()(at) == 0,
    {
        false
    }

    /// The engine hands over whole sectors at sector boundaries.
    fn write_at(&mut self, offset: u64, buf: &[u8]) -> (r: Result<()>)
        requires
            offset + buf@.len() <= u64::MAX,
            aligned(old(self).sector(), offset as int, buf@.len() as int),
        ensures
            r is Ok ==> final(self).contents() == overwrite(
                old(self).contents(),
                offset as int,
                buf@,
            ),
            same_outside(
                old(self).contents(),
                final(self).contents(),
                offset as int,
                offset + buf@.len(),
            ),
            final(self).sector() == old(self).sector(),
            final(self).grows() == old(self).grows(),
            !old(self).grows() ==> final(self).capacity() == old(self).capacity(),
            final(self).capacity() >= old(self).capacity(),
            final(self).reliable() == old(self).reliable(),
            old(self).reliable() && offset + buf@.len() <= old(self).capacity() ==> r is Ok,
            r is Ok && buf@.len() > 0 ==> offset + buf@.len() <= final(self).capacity(),
    ;

    /// The engine asks for whole sectors.
    fn read_at(&mut self, offset: u64, buf: &mut [u8]) -> (r: Result<()>)
        requires
            offset + old(buf)@.len() <= u64::MAX,
            whole_sectors(old(self).sector(), old(buf)@.len() as int),
        ensures
            final(buf)@.len() == old(buf)@.len(),
            r is Ok ==> final(buf)@ == range(
                old(self).contents(),
                offset as int,
                old(buf)@.len(),
            ),
            final(self).contents() == old(self).contents(),
            final(self).sector() == old(self).sector(),
            final(self).grows() == old(self).grows(),
            final(self).capacity() == old(self).capacity(),
            final(self).reliable() == old(self).reliable(),
            old(self).reliable() && (old(self).grows() || offset + old(buf)@.len()
                <= old(self).capacity()) ==> r is Ok,
    ;

    /// Durable before "done" is reported.
    fn flush(&mut self) -> (r: Result<()>)
        ensures
            final(self).contents() == old(self).contents(),
            final(self).sector() == old(self).sector(),
            final(self).grows() == old(self).grows(),
            final(self).capacity() == old(self).capacity(),
            final(self).reliable() == old(self).reliable(),
            old(self).reliable() ==> r is Ok,
    ;

    /// For growable devices: make the backing store at least `bytes` long, so
    /// a flat image spans the full card layout. Nothing on real block devices.
    fn ensure_len(&mut self, _bytes: u64) -> (r: Result<()>)
        ensures
            final(self).contents() == old(self).contents(),
            final(self).sector() == old(self).sector(),
            final(self).grows() == old(self).grows(),
            final(self).reliable() == old(self).reliable(),
            final(self).capacity() == old(self).capacity() || (old(self).grows()
                && old(self).capacity() < final(self).capacity() == _bytes),
            !old(self).grows() ==> r is Ok,
            old(self).reliable() && _bytes <= old(self).capacity() ==> r is Ok,
    {
        Ok(())
    }
}

/// A read that ends at `end` is one that the device can make: inside it, or past
/// the end of one that grows, where zeros are read.
pub open spec fn in_reach<D: RawDevice>(dev: &D, end: int) -> bool {
    dev.grows() || end <= dev.capacity()
}

/// `b` is the device `a`, untouched.
pub open spec fn untouched<D: RawDevice>(a: &D, b: &D) -> bool {
    &&& b.contents() == a.contents()
    &&& same_make(a, b)
    &&& b.capacity() == a.capacity()
}

/// `b` is the device `a` with perhaps other contents.
pub open spec fn same_make<D: RawDevice>(a: &D, b: &D) -> bool {
    &&& b.sector() == a.sector()
    &&& b.grows() == a.grows()
    &&& b.reliable() == a.reliable()
    &&& !a.grows() ==> b.capacity() == a.capacity()
    &&& b.capacity() >= a.capacity()
}

/// A device kept in memory: a card of fixed size, or an image that grows on
/// write like a file.
#[derive(Debug)]
pub struct MemDevice {
    pub sector: u32,
    pub growing: bool,
    pub data: Vec<u8>,
}

impl MemDevice {
    /// A device of `len` zero bytes.
    pub fn new(sector: u32, growing: bool, len: usize) -> (r: MemDevice)
        ensures
            r.sector == sector,
            r.growing == growing,
            r.data@ == zeros(len as nat),
    {
        let data: Vec<u8> = vec![0u8; len];
        assert(data@ =~= zeros(len as nat));
        MemDevice { sector, growing, data }
    }

    fn grow_to(&mut self, len: usize)
        ensures
            final(self).sector == old(self).sector,
            final(self).growing == old(self).growing,
            final(self).data@ == if old(self).data@.len() < len {
                old(self).data@ + zeros((len - old(self).data@.len()) as nat)
            } else {
                old(self).data@
            },
    {
        let ghost start = self.data@;
        while self.data.len() < len
            invariant
                self.sector == old(self).sector,
                self.growing == old(self).growing,
                start == old(self).data@,
                self.data@.len() >= start.len(),
                start.len() >= len ==> self.data@ == start,
                start.len() < len ==> self.data@.len() <= len,
                self.data@ == start + zeros((self.data@.len() - start.len()) as nat),
            decreases len - self.data@.len(),
        {
            let ghost was = self.data@;
            self.data.push(0);
            assert(self.data@ =~= start + zeros((was.len() + 1 - start.len()) as nat));
        }
        assert(start + zeros(0) =~= start);
    }
}

impl RawDevice for MemDevice {
    open spec fn sector(&self) -> u32 {
        self.sector
    }

    open spec fn capacity(&self) -> u64 {
        self.data@.len() as u64
    }

    open spec fn grows(&self) -> bool {
        self.growing
    }

    /// What lies past the end reads as zeros.
    open spec fn contents(&self) -> Bytes {
        |at: int|
            if 0 <= at < self.data@.len() {
                self.data@[at]
            } else {
                0u8
            }
    }

    open spec fn reliable(&self) -> bool {
        true
    }

    fn sector_size(&self) -> u32 {
        self.sector
    }

    fn capacity_bytes(&self) -> u64 {
        self.data.len() as u64
    }

    fn growable(&self) -> (r: bool)
        ensures
            r == self.growing,
    {
        assert(self.capacity() == self.data.len());
        self.growing
    }

    fn write_at(&mut self, offset: u64, buf: &[u8]) -> (r: Result<()>)
        ensures
            r is Ok && old(self).growing && buf@.len() > 0 ==> final(self).data@.len() == if old(self).data@.len() < offset + buf@.len() {
                offset + buf@.len()
            } else {
                old(self).data@.len() as int
            },
    {
        let end: u64 = offset + buf.len() as u64;
        if end > self.data.len() as u64 {
            if !self.growing {
                return Err(Error::Device("write past the end of the device".to_owned()));
            }
            if end > usize::MAX as u64 {
                return Err(Error::Device("write past the end of memory".to_owned()));
            }
            self.grow_to(end as usize);
        }
        let start: usize = offset as usize;
        let n: usize = buf.len();
        let size: usize = self.data.len();
        let ghost base = self.data@;
        let mut i: usize = 0;
        while i < n
            invariant
                n == buf@.len(),
                start + n <= size,
                size == base.len(),
                start == offset,
                i <= n,
                self.sector == old(self).sector,
                self.growing == old(self).growing,
                self.data@.len() == base.len(),
                forall|k: int|
                    0 <= k < base.len() ==> #[trigger] self.data@[k] == if start <= k < start + i {
                        buf@[k - start]
                    } else {
                        base[k]
                    },
            decreases n - i,
        {
            self.data[start + i] = buf[i];
            i = i + 1;
        }
        assert(self.contents() =~= overwrite(old(self).contents(), offset as int, buf@));
        Ok(())
    }

    fn read_at(&mut self, offset: u64, buf: &mut [u8]) -> Result<()> {
        let n: usize = buf.len();
        if !self.growing && offset + n as u64 > self.data.len() as u64 {
            return Err(Error::Device("read past the end of the device".to_owned()));
        }
        let size: u64 = self.data.len() as u64;
        let mut i: usize = 0;
        while i < n
            invariant
                n == buf@.len() == old(buf)@.len(),
                i <= n,
                size == self.data@.len() <= usize::MAX,
                *self == *old(self),
                offset + n <= u64::MAX,
                forall|k: int| 0 <= k < i ==> #[trigger] buf@[k] == self.contents()(offset + k),
            decreases n - i,
        {
            let at: u64 = offset + i as u64;
            if at < size {
                buf[i] = self.data[at as usize];
            } else {
                buf[i] = 0;
            }
            i = i + 1;
        }
        assert(buf@ =~= range(old(self).contents(), offset as int, old(buf)@.len()));
        Ok(())
    }

    fn flush(&mut self) -> Result<()> {
        Ok(())
    }

    fn ensure_len(&mut self, bytes: u64) -> (r: Result<()>)
        ensures
            r is Ok <==> !old(self).growing || bytes <= usize::MAX,
            final(self).data@ == if r is Ok && old(self).growing && old(self).data@.len() < bytes {
                old(self).data@ + zeros((bytes - old(self).data@.len()) as nat)
            } else {
                old(self).data@
            },
            final(self).sector == old(self).sector,
            final(self).growing == old(self).growing,
    {
        if self.growing {
            assert(self.capacity() == self.data.len());
            if bytes > usize::MAX as u64 {
                return Err(Error::Device("no memory for a device of that length".to_owned()));
            }
            self.grow_to(bytes as usize);
            assert(self.contents() =~= old(self).contents());
        }
        Ok(())
    }
}

// ---------------------------------------------------------------------------
// Device paths
// ---------------------------------------------------------------------------

/// `path` names a platform raw device rather than a regular file.
pub open spec fn names_platform_device(path: Seq<char>) -> bool {
    let p = trim(path);
    ||| starts_with(p, "\\\\.\\"@)
    ||| starts_with(p, "//./"@)
    ||| starts_with(p, "/dev/"@)
}

/// True when `path` names a platform raw device rather than a regular file.
pub fn is_platform_device_path(path: &str) -> (r: bool)
    ensures
        r == names_platform_device(path@),
{
    let p = trimmed(path);
    begins_with(&p, "\\\\.\\") || begins_with(&p, "//./") || begins_with(&p, "/dev/")
}

/// Hint appended to permission errors, by platform.
pub fn elevation_hint(windows: bool) -> (r: &'static str)
    ensures
        r@ == if windows {
            "run from an elevated (Administrator) prompt"@
        } else {
            "re-run with sudo"@
        },
{
    if windows {
        "run from an elevated (Administrator) prompt"
    } else {
        "re-run with sudo"
    }
}

// ---------------------------------------------------------------------------
// Facts about device contents
// ---------------------------------------------------------------------------

/// Two writes back to back are one write of both data.
pub proof fn overwrites_join(c: Bytes, offset: int, a: Seq<u8>, b: Seq<u8>)
    ensures
        overwrite(overwrite(c, offset, a), offset + a.len(), b) == overwrite(c, offset, a + b),
{
    assert(overwrite(overwrite(c, offset, a), offset + a.len(), b) =~= overwrite(c, offset, a + b));
}

/// A read of a range gives back what was last written there.
pub proof fn read_back(c: Bytes, offset: int, data: Seq<u8>)
    ensures
        range(overwrite(c, offset, data), offset, data.len()) == data,
{
    assert(range(overwrite(c, offset, data), offset, data.len()) =~= data);
}

/// A write leaves every range that does not meet it.
pub proof fn write_leaves_others(c: Bytes, offset: int, data: Seq<u8>, other: int, len: nat)
    requires
        other + len <= offset || offset + data.len() <= other,
    ensures
        range(overwrite(c, offset, data), other, len) == range(c, other, len),
{
    assert(range(overwrite(c, offset, data), other, len) =~= range(c, other, len));
}

} // verus!

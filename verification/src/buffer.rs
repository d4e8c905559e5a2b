//! The transfer buffer. Raw device access on several platforms wants buffers
//! at 4 KiB boundaries, so the bytes in use start at the first such boundary
//! of a slightly larger allocation.

use vstd::prelude::*;

use crate::device::zeros;

verus! {

pub const BUFFER_ALIGN: usize = 4096;

/// `<*const u8>::align_offset` of a slice's address: how many bytes lie before
/// the next multiple of `BUFFER_ALIGN`. It depends on where the allocator put
/// the slice, so nothing is said of it.
#[verifier::external_body]
fn bytes_to_boundary(bytes: &[u8]) -> (r: usize)
{
    bytes.as_ptr().align_offset(BUFFER_ALIGN)
}

/// Heap buffer at a 4 KiB boundary, zero-initialized.
#[derive(Debug)]
pub struct AlignedBuf {
    store: Vec<u8>,
    start: usize,
}

impl View for AlignedBuf {
    type V = Seq<u8>;

    closed spec fn view(&self) -> Seq<u8> {
        self.store@.skip(self.start as int)
    }
}

impl AlignedBuf {
    /// The boundary lies inside the allocation.
    pub closed spec fn wf(&self) -> bool {
        self.start <= self.store@.len()
    }

    pub fn new(len: usize) -> (r: AlignedBuf)
        requires
            0 < len <= usize::MAX - BUFFER_ALIGN,
        ensures
            r.wf(),
            r@ == zeros(len as nat),
    {
        let mut store: Vec<u8> = vec![0u8; len + BUFFER_ALIGN];
        let gap: usize = bytes_to_boundary(store.as_slice());
        let start: usize = if gap < BUFFER_ALIGN {
            gap
        } else {
            0
        };
        store.truncate(start + len);
        let r = AlignedBuf { store, start };
        assert(r@ =~= zeros(len as nat));
        r
    }

    pub fn len(&self) -> (r: usize)
        requires
            self.wf(),
        ensures
            r == self@.len(),
    {
        self.store.len() - self.start
    }

    pub fn as_slice(&self) -> (r: &[u8])
        requires
            self.wf(),
        ensures
            r@ == self@,
    {
        let (_, rest) = self.store.as_slice().split_at(self.start);
        assert(rest@ =~= self@);
        rest
    }

    /// The first `n` bytes.
    pub fn front(&self, n: usize) -> (r: &[u8])
        requires
            self.wf(),
            n <= self@.len(),
        ensures
            r@ == self@.take(n as int),
    {
        let (front, _) = self.as_slice().split_at(n);
        assert(front@ =~= self@.take(n as int));
        front
    }

    pub fn as_mut_slice(&mut self) -> (r: &mut [u8])
        requires
            old(self).wf(),
        ensures
            r@ == old(self)@,
            final(self).wf(),
            final(self)@ == final(r)@,
    {
        let at: usize = self.start;
        let (_, rest) = self.store.as_mut_slice().split_at_mut(at);
        rest
    }

    pub fn set(&mut self, i: usize, b: u8)
        requires
            old(self).wf(),
            i < old(self)@.len(),
        ensures
            final(self).wf(),
            final(self)@ == old(self)@.update(i as int, b),
    {
        assert(self.start + i < self.store.len());
        let at: usize = self.start + i;
        self.store[at] = b;
        assert(self@ =~= old(self)@.update(i as int, b));
    }

    /// Zero the bytes from `from` up to `to`.
    pub fn zero_range(&mut self, from: usize, to: usize)
        requires
            old(self).wf(),
            from <= to <= old(self)@.len(),
        ensures
            final(self).wf(),
            final(self)@ == old(self)@.take(from as int) + zeros((to - from) as nat)
                + old(self)@.skip(to as int),
    {
        let mut i: usize = from;
        let ghost before = self@;
        while i < to
            invariant
                self.wf(),
                from <= i <= to <= before.len(),
                self@.len() == before.len(),
                forall|k: int|
                    0 <= k < before.len() ==> #[trigger] self@[k] == if from <= k < i {
                        0u8
                    } else {
                        before[k]
                    },
            decreases to - i,
        {
            self.set(i, 0);
            i = i + 1;
        }
        assert(self@ =~= before.take(from as int) + zeros((to - from) as nat) + before.skip(
            to as int,
        ));
    }

    pub fn zero(&mut self)
        requires
            old(self).wf(),
        ensures
            final(self).wf(),
            final(self)@ == zeros(old(self)@.len()),
    {
        let n: usize = self.len();
        self.zero_range(0, n);
        assert(self@ =~= zeros(n as nat));
    }

    /// Put `data` at the front.
    pub fn put(&mut self, data: &[u8])
        requires
            old(self).wf(),
            data@.len() <= old(self)@.len(),
        ensures
            final(self).wf(),
            final(self)@ == data@ + old(self)@.skip(data@.len() as int),
    {
        let n: usize = data.len();
        let ghost before = self@;
        let mut i: usize = 0;
        while i < n
            invariant
                self.wf(),
                n == data@.len() <= before.len(),
                i <= n,
                self@.len() == before.len(),
                forall|k: int|
                    0 <= k < before.len() ==> #[trigger] self@[k] == if k < i {
                        data@[k]
                    } else {
                        before[k]
                    },
            decreases n - i,
        {
            self.set(i, data[i]);
            i = i + 1;
        }
        assert(self@ =~= data@ + before.skip(n as int));
    }
}

} // verus!

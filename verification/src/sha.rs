//! SHA-256 of byte streams.

use sha2::{Digest, Sha256};
use vstd::prelude::*;

verus! {

/// `sha2::Sha256`, a hasher that takes its input in pieces.
#[verifier::external_type_specification]
#[verifier::external_body]
pub struct ExSha256(sha2::Sha256);

/// The SHA-256 digest of `data`.
pub uninterp spec fn sha256(data: Seq<u8>) -> Seq<u8>;

/// The 32 bytes of the SHA-256 digest of `data`.
pub open spec fn digest(data: Seq<u8>) -> Seq<u8> {
    Seq::new(32, |i: int| sha256(data)[i])
}

/// The bytes that a hasher holds, in the order in which they were fed.
pub uninterp spec fn held(h: Sha256) -> Seq<u8>;

/// `Sha256::new`: a hasher that holds nothing.
#[verifier::external_body]
fn sha_new() -> (h: Sha256)
    ensures
        held(h) == Seq::<u8>::empty(),
{
    Sha256::new()
}

/// `Digest::update`: the hasher holds the new bytes behind the old ones.
#[verifier::external_body]
fn sha_update(h: &mut Sha256, data: &[u8])
    ensures
        held(*final(h)) == held(*old(h)) + data@,
{
    Digest::update(h, data)
}

/// `Digest::finalize`: the digest, 32 bytes, of all that the hasher holds.
#[verifier::external_body]
fn sha_finish(h: Sha256) -> (r: Vec<u8>)
    ensures
        r@ == sha256(held(h)),
        r@.len() == 32,
{
    h.finalize().to_vec()
}

/// A running hash.
pub struct Hasher {
    inner: Sha256,
}

impl View for Hasher {
    type V = Seq<u8>;

    closed spec fn view(&self) -> Seq<u8> {
        held(self.inner)
    }
}

impl Hasher {
    pub fn new() -> (r: Hasher)
        ensures
            r@ == Seq::<u8>::empty(),
    {
        Hasher { inner: sha_new() }
    }

    pub fn update(&mut self, data: &[u8])
        ensures
            final(self)@ == old(self)@ + data@,
    {
        sha_update(&mut self.inner, data)
    }

    pub fn finish(self) -> (r: Vec<u8>)
        ensures
            r@ == digest(self@),
    {
        let r = sha_finish(self.inner);
        assert(r@ =~= digest(self@));
        r
    }
}

/// The digest of a whole byte string.
pub fn digest_bytes(data: &[u8]) -> (r: Vec<u8>)
    ensures
        r@ == digest(data@),
{
    let mut h = Hasher::new();
    h.update(data);
    assert(h@ =~= data@);
    h.finish()
}

} // verus!

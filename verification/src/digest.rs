//! SHA-256 digests: of a whole byte sequence, and of a firmware image absorbed chunk by chunk
//! while it is flashed

use vstd::prelude::*;

verus! {

/// SHA-256 digest of the given bytes
pub uninterp spec fn sha256(data: Seq<u8>) -> Seq<u8>;

/// `sha2::Sha256::digest`. Stated: the result is the name `sha256` of the data; the digest has
/// 32 bytes.
#[verifier::external_body]
pub(crate) fn sha256_digest(data: &[u8]) -> (r: [u8; 32])
    ensures
        r@ == sha256(data@),
{
    <sha2::Sha256 as sha2::Digest>::digest(data).into()
}

/// A running `sha2::Sha256` hasher, opaque to the proofs: what it has absorbed is the name
/// `hasher_absorbed`. The hasher's type is held in a struct whose inside the proofs do not see,
/// since Verus cannot take it as a declared type (its `typenum` size parameters).
#[verifier::external_body]
pub struct Sha256Hasher {
    hasher: sha2::Sha256,
}

/// The bytes a running hasher has absorbed so far, in order
pub uninterp spec fn hasher_absorbed(h: Sha256Hasher) -> Seq<u8>;

/// `sha2::Sha256::new`. Stated: the new hasher has absorbed nothing.
#[verifier::external_body]
fn hasher_new() -> (r: Sha256Hasher)
    ensures
        hasher_absorbed(r) == Seq::<u8>::empty(),
{
    Sha256Hasher { hasher: <sha2::Sha256 as sha2::Digest>::new() }
}

/// `sha2::Digest::update`. Stated: the hasher has absorbed the data after what it had absorbed.
#[verifier::external_body]
fn hasher_update(h: &mut Sha256Hasher, data: &[u8])
    ensures
        hasher_absorbed(*final(h)) == hasher_absorbed(*old(h)) + data@,
{
    <sha2::Sha256 as sha2::Digest>::update(&mut h.hasher, data)
}

/// `sha2::Digest::finalize`. Stated: the digest is the name `sha256` of all the bytes absorbed,
/// the same as `sha2::Sha256::digest` of them at once.
#[verifier::external_body]
fn hasher_finalize(h: Sha256Hasher) -> (r: [u8; 32])
    ensures
        r@ == sha256(hasher_absorbed(h)),
{
    <sha2::Sha256 as sha2::Digest>::finalize(h.hasher).into()
}

/// Digest of a firmware image while it is written to flash chunk by chunk: the running hash and
/// the flash offset reached
pub struct ImageHash {
    hasher: Sha256Hasher,
    offset: u32,
}

impl ImageHash {
    #[verifier::type_invariant]
    closed spec fn inv(self) -> bool {
        self.offset == hasher_absorbed(self.hasher).len()
    }

    /// The image bytes absorbed so far, in order
    pub closed spec fn absorbed(&self) -> Seq<u8> {
        hasher_absorbed(self.hasher)
    }

    /// The flash offset reached: the number of bytes absorbed
    pub closed spec fn offset(&self) -> nat {
        self.offset as nat
    }

    /// The flash offset at which the next chunk is written: the number of bytes absorbed
    pub fn position(&self) -> (r: u32)
        ensures
            r == self.offset(),
            r == self.absorbed().len(),
    {
        proof {
            use_type_invariant(self);
        }
        self.offset
    }

    /// Start hashing an image: nothing absorbed, at offset 0
    pub fn new() -> (r: Self)
        ensures
            r.absorbed() == Seq::<u8>::empty(),
            r.offset() == 0,
    {
        ImageHash { hasher: hasher_new(), offset: 0 }
    }
}

/// Absorb the next chunk of an image that was written to flash at the current offset; returns the
/// offset after it
pub fn flash_step(state: &mut ImageHash, chunk: &[u8]) -> (r: u32)
    requires
        old(state).offset() + chunk@.len() <= u32::MAX,
    ensures
        final(state).absorbed() == old(state).absorbed() + chunk@,
        final(state).offset() == old(state).offset() + chunk@.len(),
        r == final(state).offset(),
{
    proof {
        use_type_invariant(&*state);
    }
    let len = chunk.len() as u32;
    let mut taken = ImageHash::new();
    std::mem::swap(&mut taken, state);
    let ImageHash { mut hasher, offset } = taken;
    hasher_update(&mut hasher, chunk);
    let offset = offset + len;
    *state = ImageHash { hasher, offset };
    offset
}

/// Digest of the image absorbed
pub fn flashed_digest(state: ImageHash) -> (d: [u8; 32])
    ensures
        d@ == sha256(state.absorbed()),
{
    let ImageHash { hasher, offset: _ } = state;
    hasher_finalize(hasher)
}

} // verus!

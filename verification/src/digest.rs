//! BLAKE3 digests, computed by the `blake3` crate.

use vstd::prelude::*;

verus! {

/// A BLAKE3 digest: 32 bytes.
pub type Digest = [u8; 32];

/// `blake3::Hasher`, an incremental BLAKE3 state; opaque here.
#[verifier::external_type_specification]
#[verifier::external_body]
pub struct ExHasher(blake3::Hasher);

/// The 32-byte BLAKE3 digest of `data`: what `blake3::hash(data)` returns,
/// as bytes.
pub uninterp spec fn blake3_hash(data: Seq<u8>) -> [u8; 32];

/// The bytes fed so far into a `blake3::Hasher`.
pub uninterp spec fn hasher_input(h: blake3::Hasher) -> Seq<u8>;

/// A `blake3::Hasher` is plain: it computes the regular (unkeyed, not
/// key-derivation) hash function and has no input offset, as one made by
/// `Hasher::new` and fed only with `update` or `update_rayon`.
pub uninterp spec fn hasher_plain(h: blake3::Hasher) -> bool;

/// Calls `blake3::hash`, the single-threaded one-shot hash function, and
/// hands back the bytes of the `Hash` it returns (`Hash::as_bytes`). The
/// contract only names the result: it is `blake3_hash` of the input.
#[verifier::external_body]
fn hash_once(data: &[u8]) -> (digest: [u8; 32])
    ensures
        digest == blake3_hash(data@),
{
    *blake3::hash(data).as_bytes()
}

/// Calls `blake3::Hasher::new`: a plain hasher (regular hash function,
/// input offset 0) that has been fed nothing.
#[verifier::external_body]
fn hasher_new() -> (h: blake3::Hasher)
    ensures
        hasher_plain(h),
        hasher_input(h) == Seq::<u8>::empty(),
{
    blake3::Hasher::new()
}

/// Calls `blake3::Hasher::update_rayon`, which feeds `input` to the hasher
/// exactly as `update` does, splitting the work over the rayon pool that
/// the calling thread belongs to. Its `&mut Self` result is dropped. It
/// leaves the key, the mode and the input offset as they were. It panics
/// for a hasher with an input offset, which a plain one has not; called
/// from outside every rayon pool it uses rayon's global pool, whose
/// creation panics if the system cannot start its threads (the library
/// calls it only inside its own pool).
#[verifier::external_body]
fn hasher_update_rayon(h: &mut blake3::Hasher, input: &[u8])
    requires
        hasher_plain(*old(h)),
    ensures
        hasher_plain(*final(h)),
        hasher_input(*final(h)) == hasher_input(*old(h)) + input@,
{
    h.update_rayon(input);
}

/// Calls `blake3::Hasher::finalize` and hands back the bytes of the `Hash`
/// it returns. The crate documents that for a hasher made by
/// `Hasher::new` the digest is the one `blake3::hash` gives for all of its
/// input. (`finalize` panics only for a hasher with an input offset, which
/// a plain one has not.)
#[verifier::external_body]
fn hasher_finalize(h: &blake3::Hasher) -> (digest: [u8; 32])
    requires
        hasher_plain(*h),
    ensures
        digest == blake3_hash(hasher_input(*h)),
{
    *h.finalize().as_bytes()
}

/// The BLAKE3 digest of `data`, computed with BLAKE3's tree parallelism on
/// the rayon pool of the calling thread (rayon's global pool when called
/// from outside every pool).
pub fn tree_hash(data: &[u8]) -> (digest: [u8; 32])
    ensures
        digest == blake3_hash(data@),
{
    let mut h = hasher_new();
    hasher_update_rayon(&mut h, data);
    assert(Seq::<u8>::empty() + data@ =~= data@);
    hasher_finalize(&h)
}

/// The single-threaded BLAKE3 digest of `data`.
pub fn serial_hash(data: &[u8]) -> (digest: [u8; 32])
    ensures
        digest == blake3_hash(data@),
{
    hash_once(data)
}

/// What hashing the outcome of reading a file gives: the digest of its
/// contents, or the read's error, unchanged.
pub open spec fn digest_outcome<E>(contents: Result<Vec<u8>, E>) -> Result<[u8; 32], E> {
    match contents {
        Ok(data) => Ok(blake3_hash(data@)),
        Err(e) => Err(e),
    }
}

/// Hashes the outcome of reading one file, single-threaded.
pub fn hash_outcome<E>(contents: Result<Vec<u8>, E>) -> (r: Result<[u8; 32], E>)
    ensures
        r == digest_outcome(contents),
{
    match contents {
        Ok(data) => Ok(serial_hash(data.as_slice())),
        Err(e) => Err(e),
    }
}

} // verus!

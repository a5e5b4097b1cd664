//! The fingerprint engine: a streaming content digest built on BLAKE3.
//!
//! The digest of a file is a function of its content bytes alone; path,
//! name and metadata play no part in it. The engine accepts the content in
//! chunks of any size, so arbitrarily large files never have to be held in
//! memory whole.

use vstd::prelude::*;

use crate::meta::FileMeta;

verus! {

/// The bytes fed so far into a BLAKE3 hash state.
pub uninterp spec fn hasher_fed(h: blake3::Hasher) -> Seq<u8>;

/// The lowercase hex digest BLAKE3 assigns to a byte sequence. A function
/// of the bytes alone, identical across processes and machines.
pub uninterp spec fn blake3_hex(bytes: Seq<u8>) -> Seq<char>;

#[verifier::external_type_specification]
#[verifier::external_body]
pub struct ExHasher(blake3::Hasher);

/// Relies on blake3::Hasher::new: a fresh hash state over no input.
#[verifier::external_body]
fn hasher_new() -> (h: blake3::Hasher)
    ensures
        hasher_fed(h) == Seq::<u8>::empty(),
{
    blake3::Hasher::new()
}

/// Relies on blake3::Hasher::update: appends the input bytes to the hash
/// state. For a hasher made by blake3::Hasher::new the input offset is
/// zero, so update never panics.
#[verifier::external_body]
fn hasher_update(h: &mut blake3::Hasher, chunk: &[u8])
    ensures
        hasher_fed(*final(h)) == hasher_fed(*old(h)) + chunk@,
{
    h.update(chunk);
}

/// Relies on blake3::Hasher::finalize and blake3::Hash::to_hex: the digest
/// of the fed bytes, encoded as 64 lowercase hex digits (two per digest
/// byte), a function of the fed bytes alone.
#[verifier::external_body]
fn hasher_finalize_hex(h: &blake3::Hasher) -> (r: String)
    ensures
        r@ == blake3_hex(hasher_fed(*h)),
        r@.len() == 64,
{
    h.finalize().to_hex().to_string()
}

/// Streaming fingerprint builder: feed the file content in chunks, then
/// close it with the metadata captured before the read.
pub struct FingerprintBuilder {
    hasher: blake3::Hasher,
}

impl FingerprintBuilder {
    /// The content bytes fed so far.
    pub closed spec fn bytes(self) -> Seq<u8> {
        hasher_fed(self.hasher)
    }

    pub fn new() -> (b: Self)
        ensures
            b.bytes() == Seq::<u8>::empty(),
    {
        FingerprintBuilder { hasher: hasher_new() }
    }

    /// Append one chunk of file content.
    pub fn add_chunk(&mut self, chunk: &[u8])
        ensures
            final(self).bytes() == old(self).bytes() + chunk@,
    {
        hasher_update(&mut self.hasher, chunk);
    }

    /// Close the fingerprint: the digest of everything fed, plus the
    /// modification time and size the caller captured from metadata.
    pub fn finish(&self, modified: u64, size: i64) -> (m: FileMeta)
        ensures
            m@.hash == blake3_hex(self.bytes()),
            m@.hash.len() == 64,
            m@.modified == modified,
            m@.size == size,
    {
        FileMeta { hash: hasher_finalize_hex(&self.hasher), modified, size }
    }
}

/// Content addressing: two files with the same content bytes get the same
/// digest, whatever their paths or names, which the digest never sees.
pub proof fn lemma_digest_content_only(a: Seq<u8>, b: Seq<u8>)
    requires
        a == b,
    ensures
        blake3_hex(a) == blake3_hex(b),
{
}

/// Determinism: fingerprinting the same content again, with the same
/// captured metadata, reproduces the identical record value: digest,
/// timestamp and size all alike.
pub proof fn lemma_fingerprint_deterministic(
    first: FingerprintBuilder,
    second: FingerprintBuilder,
    modified: u64,
    size: i64,
)
    requires
        first.bytes() == second.bytes(),
    ensures
        (crate::meta::MetaView { hash: blake3_hex(first.bytes()), modified, size })
            == (crate::meta::MetaView { hash: blake3_hex(second.bytes()), modified, size }),
{
}

} // verus!

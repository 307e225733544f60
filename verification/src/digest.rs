//! SHA-256 digests (through the `sha2` crate) and their lowercase hex
//! renderings: per-file content hashes, the whole-catalog hash, and
//! log-safe key fingerprints.

use vstd::prelude::*;
use vstd::string::*;

use crate::text::{concat2, hex_lower, hex_seq, lemma_hex_seq_len};

verus! {

/// The SHA-256 digest of a byte sequence (FIPS 180-4), as computed by
/// `sha2::Sha256`.
pub uninterp spec fn sha256_of(bytes: Seq<u8>) -> Seq<u8>;

/// `sha2::Sha256::digest`: the 32-byte SHA-256 digest of `bytes`.
/// Trusted: the result is the named digest of the input bytes, and is
/// 32 bytes long (`Sha256`'s fixed output size).
#[verifier::external_body]
pub(crate) fn sha256_digest(bytes: &[u8]) -> (r: Vec<u8>)
    ensures
        r@ == sha256_of(bytes@),
        r@.len() == 32,
{
    <sha2::Sha256 as sha2::Digest>::digest(bytes).to_vec()
}

/// Lowercase hex of the SHA-256 digest of `bytes` (64 characters).
pub fn hex_sha256(bytes: &[u8]) -> (s: String)
    ensures
        s@ == hex_seq(sha256_of(bytes@)),
        s@.len() == 64,
{
    let d = sha256_digest(bytes);
    proof {
        lemma_hex_seq_len(d@);
    }
    hex_lower(d.as_slice())
}

/// Lowercase hex of the first 8 bytes of `bytes`.
pub fn hex_prefix(bytes: &[u8]) -> (s: String)
    requires
        bytes@.len() >= 8,
    ensures
        s@ == hex_seq(bytes@.subrange(0, 8)),
{
    let mut head: Vec<u8> = Vec::new();
    let mut i: usize = 0;
    while i < 8
        invariant
            i <= 8,
            bytes@.len() >= 8,
            head@ == bytes@.subrange(0, i as int),
        decreases 8 - i,
    {
        head.push(bytes[i]);
        i = i + 1;
        assert(head@ =~= bytes@.subrange(0, i as int));
    }
    hex_lower(head.as_slice())
}

/// The log-safe fingerprint `sha256:<hex of the first 8 digest bytes>`.
pub open spec fn fingerprint_of(secret: Seq<char>) -> Seq<char> {
    "sha256:"@ + hex_seq(sha256_of(vstd::utf8::encode_utf8(secret)).subrange(0, 8))
}

/// `sha256:<hex-prefix>` fingerprint for log- and config-safe key display.
pub fn fingerprint(secret: &str) -> (r: String)
    ensures
        r@ == fingerprint_of(secret@),
        r@.len() == 23,
{
    let hash = sha256_digest(secret.as_bytes());
    let p = hex_prefix(hash.as_slice());
    proof {
        lemma_hex_seq_len(hash@.subrange(0, 8));
        reveal_strlit("sha256:");
    }
    concat2("sha256:", p.as_str())
}

} // verus!

//! Software digests of a candidate and their comparison with the target.
//!
//! The digests themselves come from the `md5`, `sha1` and `sha2` crates. The
//! library names what they return and proves the rest: the hex form and the
//! comparison.

use vstd::prelude::*;
use vstd::string::StringSliceAdditionalSpecFns;
use sha1::Digest;
use crate::algo::Algo;

verus! {

/// The MD5 digest of `data`, as `md5::compute` returns it.
pub uninterp spec fn md5_digest(data: Seq<u8>) -> Seq<u8>;

/// The SHA-1 digest of `data`, as `sha1::Sha1` returns it.
pub uninterp spec fn sha1_digest(data: Seq<u8>) -> Seq<u8>;

/// The SHA-256 digest of `data`, as `sha2::Sha256` returns it.
pub uninterp spec fn sha256_digest(data: Seq<u8>) -> Seq<u8>;

/// Calls `md5::compute` on `data` and copies the sixteen bytes of the digest
/// out. Trusted: the result is the MD5 digest of `data`, which depends on
/// `data` alone.
#[verifier::external_body]
fn md5_of(data: &[u8]) -> (d: Vec<u8>)
    ensures
        d@ == md5_digest(data@),
{
    md5::compute(data).0.to_vec()
}

/// Feeds `data` to a fresh `sha1::Sha1` hasher and copies the finalized digest
/// out. Trusted: the result is the SHA-1 digest of `data`, which depends on
/// `data` alone.
#[verifier::external_body]
fn sha1_of(data: &[u8]) -> (d: Vec<u8>)
    ensures
        d@ == sha1_digest(data@),
{
    let mut hasher = sha1::Sha1::new();
    hasher.update(data);
    hasher.finalize().to_vec()
}

/// Feeds `data` to a fresh `sha2::Sha256` hasher and copies the finalized
/// digest out. Trusted: the result is the SHA-256 digest of `data`, which
/// depends on `data` alone.
#[verifier::external_body]
fn sha256_of(data: &[u8]) -> (d: Vec<u8>)
    ensures
        d@ == sha256_digest(data@),
{
    let mut hasher = sha2::Sha256::new();
    hasher.update(data);
    hasher.finalize().to_vec()
}

/// The digest of `data` under `algo`.
pub open spec fn digest_of(algo: Algo, data: Seq<u8>) -> Seq<u8> {
    match algo {
        Algo::MD5 => md5_digest(data),
        Algo::SHA1 => sha1_digest(data),
        Algo::SHA256 => sha256_digest(data),
    }
}

/// The ASCII code of the lower-case hex digit for a value below sixteen.
pub open spec fn hex_digit(nibble: int) -> u8 {
    if nibble < 10 {
        (48 + nibble) as u8
    } else {
        (87 + nibble) as u8
    }
}

/// Lower-case hex text of `bytes`, two ASCII digits per byte, the high half
/// of each byte first.
pub open spec fn hex_lower(bytes: Seq<u8>) -> Seq<u8> {
    Seq::new(
        2 * bytes.len(),
        |i: int|
            if i % 2 == 0 {
                hex_digit(bytes[i / 2] as int / 16)
            } else {
                hex_digit(bytes[i / 2] as int % 16)
            },
    )
}

/// The candidate with bytes `word` matches `target` when the lower-case hex
/// text of its digest is the target, byte for byte.
pub open spec fn candidate_matches(algo: Algo, word: Seq<u8>, target: Seq<u8>) -> bool {
    hex_lower(digest_of(algo, word)) == target
}

fn hex_digit_of(nibble: u8) -> (c: u8)
    requires
        nibble < 16,
    ensures
        c == hex_digit(nibble as int),
{
    if nibble < 10 {
        48 + nibble
    } else {
        87 + nibble
    }
}

/// Writes `bytes` as lower-case hex text.
pub fn to_hex_lower(bytes: &[u8]) -> (text: Vec<u8>)
    ensures
        text@ == hex_lower(bytes@),
{
    let mut text: Vec<u8> = Vec::new();
    let mut i: usize = 0;
    while i < bytes.len()
        invariant
            i <= bytes@.len(),
            text@.len() == 2 * i,
            forall|t: int| 0 <= t < text@.len() ==> text@[t] == hex_lower(bytes@)[t],
        decreases bytes@.len() - i,
    {
        let b: u8 = bytes[i];
        text.push(hex_digit_of(b / 16));
        text.push(hex_digit_of(b % 16));
        i += 1;
    }
    assert(text@ =~= hex_lower(bytes@));
    text
}

/// The digest of `data` under `algo`, as lower-case hex text.
pub fn hex_digest(algo: Algo, data: &[u8]) -> (text: Vec<u8>)
    ensures
        text@ == hex_lower(digest_of(algo, data@)),
{
    let digest: Vec<u8> = match algo {
        Algo::MD5 => md5_of(data),
        Algo::SHA1 => sha1_of(data),
        Algo::SHA256 => sha256_of(data),
    };
    to_hex_lower(digest.as_slice())
}

/// Whether two byte strings are the same.
pub fn bytes_equal(a: &[u8], b: &[u8]) -> (same: bool)
    ensures
        same == (a@ == b@),
{
    if a.len() != b.len() {
        return false;
    }
    let mut i: usize = 0;
    while i < a.len()
        invariant
            i <= a@.len(),
            a@.len() == b@.len(),
            forall|t: int| 0 <= t < i ==> a@[t] == b@[t],
        decreases a@.len() - i,
    {
        if a[i] != b[i] {
            return false;
        }
        i += 1;
    }
    assert(a@ =~= b@);
    true
}

/// Tests one candidate: hashes its bytes under `algo` and compares the hex text
/// with `target`.
pub fn word_matches(algo: Algo, word: &str, target: &str) -> (hit: bool)
    ensures
        hit == candidate_matches(algo, word.spec_bytes(), target.spec_bytes()),
{
    let text: Vec<u8> = hex_digest(algo, word.as_bytes());
    bytes_equal(text.as_slice(), target.as_bytes())
}

} // verus!

//! Tokens and certificate fingerprints.

use sha2::Digest;
use vstd::prelude::*;

use crate::config::hosts;

verus! {

/// The accumulator is zero exactly where every pair of bytes seen so far was equal.
proof fn lemma_fold_step(acc: u8, a: u8, b: u8)
    ensures
        (acc | (a ^ b)) == 0 <==> acc == 0 && a == b,
{
    assert((acc | (a ^ b)) == 0 <==> acc == 0 && a == b) by (bit_vector);
}

/// Whether two byte strings are equal. The loop visits every byte whatever it has already seen.
pub fn constant_time_eq(a: &[u8], b: &[u8]) -> (equal: bool)
    ensures
        equal == (a@ == b@),
{
    if a.len() != b.len() {
        return false;
    }
    let mut acc: u8 = 0;
    let mut i: usize = 0;
    assert(a@.take(0) == b@.take(0));
    while i < a.len()
        invariant
            i <= a.len(),
            a.len() == b.len(),
            acc == 0 <==> a@.take(i as int) == b@.take(i as int),
        decreases a.len() - i,
    {
        proof {
            lemma_fold_step(acc, a[i as int], b[i as int]);
            assert(a@.take(i + 1) == a@.take(i as int).push(a@[i as int]));
            assert(b@.take(i + 1) == b@.take(i as int).push(b@[i as int]));
            assert(a@.take(i + 1) == b@.take(i + 1) ==> a@.take(i as int) == a@.take(i + 1).drop_last());
            assert(a@.take(i + 1) == b@.take(i + 1) ==> b@.take(i as int) == b@.take(i + 1).drop_last());
            assert(a@.take(i + 1).last() == a@[i as int]);
            assert(b@.take(i + 1).last() == b@[i as int]);
        }
        acc = acc | (a[i] ^ b[i]);
        i = i + 1;
    }
    assert(a@.take(i as int) == a@);
    assert(b@.take(i as int) == b@);
    acc == 0
}

/// The SHA-256 of a byte string.
pub uninterp spec fn sha256_of(data: Seq<u8>) -> Seq<u8>;

/// `sha2::Sha256`, fed all of `data` at once: the digest has 32 bytes and is a function of the data
/// alone, here `sha256_of`.
#[verifier::external_body]
fn sha256(data: &[u8]) -> (digest: Vec<u8>)
    ensures
        digest@ == sha256_of(data@),
        digest@.len() == 32,
{
    let mut h = sha2::Sha256::new();
    h.update(data);
    h.finalize().to_vec()
}

/// The lowercase hex digit for a number below 16.
pub open spec fn hex_digit(n: u8) -> char {
    if n < 10 {
        (n + 48) as char
    } else {
        (n + 87) as char
    }
}

/// The bytes in lowercase hex, two digits for each.
pub open spec fn hex_text(bytes: Seq<u8>) -> Seq<char>
    decreases bytes.len(),
{
    if bytes.len() == 0 {
        seq![]
    } else {
        hex_text(bytes.drop_last()) + seq![hex_digit(bytes.last() / 16), hex_digit(bytes.last() % 16)]
    }
}

/// `hex::encode`: two lowercase hex digits for each byte, the greater first.
#[verifier::external_body]
pub(crate) fn hex_encode(bytes: &[u8]) -> (s: String)
    ensures
        s@ == hex_text(bytes@),
{
    hex::encode(bytes)
}

/// The fingerprint of a certificate: the SHA-256 of its DER bytes in lowercase hex.
pub fn cert_fingerprint_hex(cert_der: &[u8]) -> (fp: String)
    ensures
        fp@ == hex_text(sha256_of(cert_der@)),
        fp@.len() == 64,
        hosts::fingerprint_fault(fp@) is None,
{
    let digest = sha256(cert_der);
    proof {
        lemma_hex_text(digest@);
    }
    hex_encode(&digest)
}

/// Hex has two digits for each byte, all of them lowercase.
pub proof fn lemma_hex_text(bytes: Seq<u8>)
    ensures
        hex_text(bytes).len() == 2 * bytes.len(),
        hosts::all_hex(hex_text(bytes)),
    decreases bytes.len(),
{
    if bytes.len() > 0 {
        lemma_hex_text(bytes.drop_last());
    }
}

} // verus!

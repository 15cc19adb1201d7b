//! The content digest embedded in renamed file names: the first eight
//! lowercase hex digits of the SHA-256 hash of the file's bytes.

use sha2::Digest;
use vstd::prelude::*;

verus! {

/// The lowercase hex digit for a value below sixteen.
pub open spec fn hex_digit(n: int) -> char {
    seq!['0', '1', '2', '3', '4', '5', '6', '7', '8', '9', 'a', 'b', 'c', 'd', 'e', 'f'][n]
}

/// The lowercase hex encoding of a byte sequence: two digits per byte,
/// high nibble first.
pub open spec fn hex_of(bytes: Seq<u8>) -> Seq<char>
    decreases bytes.len(),
{
    if bytes.len() == 0 {
        Seq::empty()
    } else {
        seq![
            hex_digit(bytes[0] as int / 16),
            hex_digit(bytes[0] as int % 16),
        ] + hex_of(bytes.skip(1))
    }
}

/// The 32-byte SHA-256 digest of a byte sequence, as the `sha2` crate
/// computes it; it depends on the hashed bytes alone.
pub uninterp spec fn sha256_of(bytes: Seq<u8>) -> Seq<u8>;

/// The digest segment of a renamed file: the first eight hex digits of the
/// SHA-256 hash of the file's bytes. A function of the bytes alone.
pub open spec fn digest_spec(bytes: Seq<u8>) -> Seq<char> {
    hex_of(sha256_of(bytes)).take(8)
}

/// Relies on sha2::Sha256 (`Digest::update`, `Digest::finalize`): the
/// SHA-256 digest is 32 bytes long and is determined by the hashed bytes
/// alone.
#[verifier::external_body]
fn sha256(bytes: &Vec<u8>) -> (r: Vec<u8>)
    ensures
        r@ == sha256_of(bytes@),
        r@.len() == 32,
{
    let mut hasher = sha2::Sha256::new();
    hasher.update(bytes.as_slice());
    hasher.finalize().to_vec()
}

/// Relies on hex::encode: each byte becomes two lowercase hex digits, high
/// nibble first, in byte order.
#[verifier::external_body]
fn hex_encode(bytes: &Vec<u8>) -> (r: String)
    ensures
        r@ == hex_of(bytes@),
{
    hex::encode(bytes.as_slice())
}

/// Hex encoding writes two digits per byte.
pub proof fn lemma_hex_of_len(bytes: Seq<u8>)
    ensures
        hex_of(bytes).len() == 2 * bytes.len(),
    decreases bytes.len(),
{
    if bytes.len() > 0 {
        lemma_hex_of_len(bytes.skip(1));
    }
}

/// Hex encoding distributes over concatenation.
pub proof fn lemma_hex_of_add(a: Seq<u8>, b: Seq<u8>)
    ensures
        hex_of(a + b) == hex_of(a) + hex_of(b),
    decreases a.len(),
{
    if a.len() == 0 {
        assert(a + b =~= b);
        assert(hex_of(a) + hex_of(b) =~= hex_of(b));
    } else {
        assert((a + b).skip(1) =~= a.skip(1) + b);
        lemma_hex_of_add(a.skip(1), b);
        assert(hex_of(a + b) =~= hex_of(a) + hex_of(b));
    }
}

/// Determinism of the digest: it is a function of the file's bytes alone,
/// so equal contents yield equal digests; the file's path or age plays no
/// part.
pub proof fn lemma_digest_deterministic(b1: Seq<u8>, b2: Seq<u8>)
    requires
        b1 == b2,
    ensures
        digest_spec(b1) == digest_spec(b2),
{
}

/// Computes the digest segment for a file's bytes: the first eight hex
/// digits of its SHA-256 hash.
pub fn digest_of(content: &Vec<u8>) -> (r: String)
    ensures
        r@ == digest_spec(content@),
        r@.len() == 8,
{
    let h = sha256(content);
    let mut head: Vec<u8> = Vec::new();
    head.push(h[0]);
    head.push(h[1]);
    head.push(h[2]);
    head.push(h[3]);
    let r = hex_encode(&head);
    proof {
        let full = sha256_of(content@);
        assert(head@ =~= full.take(4));
        assert(full.take(4) + full.skip(4) =~= full);
        lemma_hex_of_add(full.take(4), full.skip(4));
        lemma_hex_of_len(full.take(4));
        assert(hex_of(full.take(4)) =~= hex_of(full).take(8));
    }
    r
}

} // verus!

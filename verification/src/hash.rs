//! Content identity: the BLAKE3 digest of the bytes, written in lowercase hex.
use vstd::prelude::*;

use crate::text::{char_from_nibble, string_of};

verus! {

/// What `blake3::hash` returns for some bytes (the 32 digest bytes).
pub uninterp spec fn blake3_digest(input: Seq<u8>) -> Seq<u8>;

/// `blake3::hash`: the 32-byte BLAKE3 digest of `input`.
#[verifier::external_body]
fn blake3_hash(input: &[u8]) -> (r: Vec<u8>)
    ensures
        r@ == blake3_digest(input@),
        r@.len() == 32,
{
    blake3::hash(input).as_bytes().to_vec()
}

pub open spec fn hex_digit(n: nat) -> char {
    if n < 10 {
        ((n + 48) as u32) as char
    } else {
        ((n + 87) as u32) as char
    }
}

/// Lowercase hexadecimal, two digits per byte, high nibble first.
pub open spec fn hex_lower(bytes: Seq<u8>) -> Seq<char>
    decreases bytes.len(),
{
    if bytes.len() == 0 {
        Seq::empty()
    } else {
        hex_lower(bytes.drop_last()).push(hex_digit((bytes.last() / 16) as nat)).push(
            hex_digit((bytes.last() % 16) as nat),
        )
    }
}

/// The content hash of `bytes` as the library stores it.
pub open spec fn spec_hash_bytes(bytes: Seq<u8>) -> Seq<char> {
    hex_lower(blake3_digest(bytes))
}

pub fn hex_encode(bytes: &[u8]) -> (r: Vec<char>)
    ensures
        r@ == hex_lower(bytes@),
{
    let mut out: Vec<char> = Vec::new();
    let mut i: usize = 0;
    while i < bytes.len()
        invariant
            i <= bytes@.len(),
            out@ == hex_lower(bytes@.take(i as int)),
        decreases bytes@.len() - i,
    {
        let b = bytes[i];
        assert(bytes@.take(i + 1).drop_last() =~= bytes@.take(i as int));
        out.push(char_from_nibble(b / 16));
        out.push(char_from_nibble(b % 16));
        i = i + 1;
    }
    assert(bytes@.take(bytes@.len() as int) =~= bytes@);
    out
}

/// BLAKE3 hex digest of `bytes`. This is content identity.
pub fn hash_bytes(bytes: &[u8]) -> (r: String)
    ensures
        r@ == spec_hash_bytes(bytes@),
{
    let digest = blake3_hash(bytes);
    let hex = hex_encode(digest.as_slice());
    string_of(hex.as_slice())
}

pub proof fn lemma_hex_lower_len(bytes: Seq<u8>)
    ensures
        hex_lower(bytes).len() == 2 * bytes.len(),
    decreases bytes.len(),
{
    if bytes.len() > 0 {
        lemma_hex_lower_len(bytes.drop_last());
    }
}

/// Two contents have the same stored hash exactly when their digests agree:
/// the hex text loses nothing of the digest.
pub proof fn law_hash_text_identifies_digest(a: Seq<u8>, b: Seq<u8>)
    ensures
        spec_hash_bytes(a) == spec_hash_bytes(b) <==> blake3_digest(a) == blake3_digest(b),
{
    if spec_hash_bytes(a) == spec_hash_bytes(b) {
        lemma_hex_lower_injective(blake3_digest(a), blake3_digest(b));
    }
}

/// Every stored content hash is 64 hexadecimal characters.
pub proof fn law_hash_text_length(a: Seq<u8>)
    requires
        blake3_digest(a).len() == 32,
    ensures
        spec_hash_bytes(a).len() == 64,
{
    lemma_hex_lower_len(blake3_digest(a));
}

proof fn lemma_hex_digit_injective(x: nat, y: nat)
    requires
        x < 16,
        y < 16,
        hex_digit(x) == hex_digit(y),
    ensures
        x == y,
{
}

proof fn lemma_hex_lower_injective(a: Seq<u8>, b: Seq<u8>)
    requires
        hex_lower(a) == hex_lower(b),
    ensures
        a == b,
    decreases a.len(),
{
    lemma_hex_lower_len(a);
    lemma_hex_lower_len(b);
    if a.len() > 0 {
        let ha = hex_lower(a);
        let hb = hex_lower(b);
        assert(ha.drop_last().drop_last() =~= hex_lower(a.drop_last()));
        assert(hb.drop_last().drop_last() =~= hex_lower(b.drop_last()));
        lemma_hex_lower_injective(a.drop_last(), b.drop_last());
        assert(ha[ha.len() - 1] == hb[hb.len() - 1]);
        assert(ha[ha.len() - 2] == hb[hb.len() - 2]);
        lemma_hex_digit_injective((a.last() / 16) as nat, (b.last() / 16) as nat);
        lemma_hex_digit_injective((a.last() % 16) as nat, (b.last() % 16) as nat);
        assert(a =~= a.drop_last().push(a.last()));
        assert(b =~= b.drop_last().push(b.last()));
    } else {
        assert(a =~= b);
    }
}

} // verus!

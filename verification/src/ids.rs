//! Identity derivation: a name string is turned into a fixed-size,
//! deterministic 128-bit identifier by hashing its UTF-8 bytes with SHA-256
//! and reading the leftmost 16 digest bytes as a little-endian integer.

use vstd::prelude::*;
use vstd::utf8::encode_utf8;

verus! {

/// The SHA-256 digest of a byte sequence. The digest is a pure function of
/// the input bytes alone; its value is not written out here.
pub uninterp spec fn sha256_of(bytes: Seq<u8>) -> Seq<u8>;

/// Relies on `sha2::Sha256::digest`: SHA-256 is a deterministic function of
/// the input bytes alone, and its output is exactly 32 bytes long.
#[verifier::external_body]
fn sha256(bytes: &[u8]) -> (digest: Vec<u8>)
    ensures
        digest@ == sha256_of(bytes@),
        digest@.len() == 32,
{
    <sha2::Sha256 as sha2::Digest>::digest(bytes).to_vec()
}

/// The value of a byte sequence read as a little-endian unsigned integer.
pub open spec fn le_val(s: Seq<u8>) -> int
    decreases s.len(),
{
    if s.len() == 0 {
        0
    } else {
        s[0] + 256 * le_val(s.skip(1))
    }
}

/// `256^n`, the number of values a sequence of `n` bytes can take.
pub open spec fn pow256(n: nat) -> int
    decreases n,
{
    if n == 0 {
        1
    } else {
        256 * pow256((n - 1) as nat)
    }
}

pub proof fn lemma_pow256_pos(n: nat)
    ensures
        pow256(n) >= 1,
    decreases n,
{
    if n > 0 {
        lemma_pow256_pos((n - 1) as nat);
    }
}

pub proof fn lemma_pow256_mono(a: nat, b: nat)
    requires
        a <= b,
    ensures
        pow256(a) <= pow256(b),
    decreases b,
{
    if a < b {
        lemma_pow256_mono(a, (b - 1) as nat);
        lemma_pow256_pos((b - 1) as nat);
    }
}

/// A sequence of `n` bytes reads as a value below `256^n`.
pub proof fn lemma_le_val_bound(s: Seq<u8>)
    ensures
        0 <= le_val(s) < pow256(s.len()),
    decreases s.len(),
{
    if s.len() > 0 {
        lemma_le_val_bound(s.skip(1));
    }
}

/// The derived identifier of a name: the leftmost 16 bytes of the SHA-256
/// digest of the name's UTF-8 bytes, read as a little-endian integer.
pub open spec fn id_val(name: Seq<char>) -> int {
    le_val(sha256_of(encode_utf8(name)).take(16))
}

/// The derived identifier of a name, as the 128-bit key value under which
/// its record is stored.
pub open spec fn name_id(name: Seq<char>) -> u128 {
    id_val(name) as u128
}

/// `256^16` is exactly one more than `u128::MAX`, so every 16-byte value
/// fits in a `u128`.
proof fn lemma_pow256_16()
    ensures
        pow256(16) == 0x1_0000_0000_0000_0000_0000_0000_0000_0000,
{
    reveal_with_fuel(pow256, 17);
}

/// Calculates the identifier for the given `name`.
///
/// The identifier is calculated by applying SHA-256 to the name's UTF-8
/// bytes and then reading the output's leftmost 16 bytes as a little-endian
/// 128-bit value, which is used as the record key.
pub fn hash_name(name: &str) -> (id: u128)
    ensures
        id == name_id(name@),
{
    let bytes = name.as_bytes();
    let digest = sha256(bytes);
    let ghost t = digest@.take(16);
    proof {
        assert(t =~= sha256_of(encode_utf8(name@)).take(16));
    }
    let mut acc: u128 = 0;
    let mut i: usize = 16;
    while i > 0
        invariant
            i <= 16,
            digest@.len() == 32,
            t == digest@.take(16),
            t.len() == 16,
            acc == le_val(t.skip(i as int)),
        decreases i,
    {
        proof {
            lemma_le_val_bound(t.skip(i - 1));
            lemma_pow256_mono(t.skip(i - 1).len(), 16);
            lemma_pow256_16();
            assert(t.skip(i - 1).skip(1) =~= t.skip(i as int));
            assert(t.skip(i - 1)[0] == t[i - 1]);
            assert(le_val(t.skip(i - 1)) == t[i - 1] + 256 * acc);
        }
        i = i - 1;
        let d = digest[i];
        proof {
            assert(t[i as int] == digest@.take(16)[i as int]);
        }
        acc = acc * 256 + (d as u128);
    }
    proof {
        assert(t.skip(0) =~= t);
        lemma_le_val_bound(t);
        lemma_pow256_16();
        assert(acc == id_val(name@));
    }
    acc
}

} // verus!

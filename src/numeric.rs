//! Fixed-point arithmetic and hashing shared by the consolidator, the
//! vector store and the ledger.
//!
//! Real-valued quantities (scores, credits, vector components) are carried
//! as integers in millionths: the real value `x` is stored as `x * SCALE`.
use vstd::prelude::*;

verus! {

/// One unit (1.0) in fixed-point millionths.
pub const SCALE: i64 = 1_000_000;

/// Largest magnitude accepted for a fixed-point component of a capsule or a
/// query; it keeps every dot product and squared norm inside `i128`.
pub const LIMIT: i64 = 8_796_093_022_208;

/// Largest number of components accepted in a probe vector.
pub const MAX_DIM: usize = 65536;

/// Integer division that rounds toward zero, as Rust's `/` does.
pub open spec fn div_trunc(a: int, b: int) -> int {
    if a >= 0 {
        a / b
    } else {
        -((-a) / b)
    }
}

pub open spec fn abs(a: int) -> int {
    if a < 0 {
        -a
    } else {
        a
    }
}

pub open spec fn min(a: int, b: int) -> int {
    if a <= b {
        a
    } else {
        b
    }
}

/// One step of the multiplicative string hash: `h * 31 + x` modulo 2^64.
pub open spec fn hash_step(h: u64, x: u64) -> u64 {
    ((h as int * 31 + x as int) % 0x1_0000_0000_0000_0000) as u64
}

/// The multiplicative hash of a byte string.
pub open spec fn hash_bytes(b: Seq<u8>) -> u64
    decreases b.len(),
{
    if b.len() == 0 {
        0
    } else {
        hash_step(hash_bytes(b.drop_last()), b.last() as u64)
    }
}

/// The bytes of a string in UTF-8.
pub open spec fn bytes_of(s: Seq<char>) -> Seq<u8> {
    vstd::utf8::encode_utf8(s)
}

pub fn hash_combine(h: u64, x: u64) -> (r: u64)
    ensures
        r == hash_step(h, x),
{
    h.wrapping_mul(31).wrapping_add(x)
}

/// Multiplicative hash of the bytes of `s`.
pub fn simple_hash(s: &str) -> (r: u64)
    ensures
        r == hash_bytes(bytes_of(s@)),
{
    hash_byte_slice(s.as_bytes())
}

pub fn hash_byte_slice(b: &[u8]) -> (r: u64)
    ensures
        r == hash_bytes(b@),
{
    let mut h: u64 = 0;
    let mut i: usize = 0;
    while i < b.len()
        invariant
            0 <= i <= b@.len(),
            h == hash_bytes(b@.subrange(0, i as int)),
        decreases b@.len() - i,
    {
        assert(b@.subrange(0, i as int + 1).drop_last() == b@.subrange(0, i as int));
        h = hash_combine(h, b[i] as u64);
        i += 1;
    }
    assert(b@.subrange(0, b@.len() as int) == b@);
    h
}

} // verus!

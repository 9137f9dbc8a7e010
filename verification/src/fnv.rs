//! FNV-1a (64 bit) hashing shared by every readout, and the little-endian byte
//! encodings that feed it.

use vstd::prelude::*;
use vstd::string::StringSliceAdditionalSpecFns;

verus! {

/// FNV-1a 64-bit offset basis.
pub const FNV_OFFSET: u64 = 0xcbf2_9ce4_8422_2325;

/// FNV-1a 64-bit prime.
pub const FNV_PRIME: u64 = 0x0000_0100_0000_01b3;

/// One FNV-1a round: xor the byte in, multiply by the prime modulo 2^64.
pub open spec fn fnv_step(h: u64, b: u8) -> u64 {
    (h ^ (b as u64)).wrapping_mul(FNV_PRIME)
}

/// FNV-1a folded over `bytes`, starting from the running hash `h`.
pub open spec fn fnv_bytes(h: u64, bytes: Seq<u8>) -> u64
    decreases bytes.len(),
{
    if bytes.len() == 0 {
        h
    } else {
        fnv_step(fnv_bytes(h, bytes.drop_last()), bytes.last())
    }
}

/// The `n` low-order bytes of `v`, least significant first.
pub open spec fn le_bytes(v: nat, n: nat) -> Seq<u8>
    decreases n,
{
    if n == 0 {
        Seq::empty()
    } else {
        seq![(v % 256) as u8] + le_bytes(v / 256, (n - 1) as nat)
    }
}

/// `u32::to_le_bytes`.
pub open spec fn le_u32(v: u32) -> Seq<u8> {
    le_bytes(v as nat, 4)
}

/// `u64::to_le_bytes`.
pub open spec fn le_u64(v: u64) -> Seq<u8> {
    le_bytes(v as nat, 8)
}

/// `i64::to_le_bytes` (two's complement).
pub open spec fn le_i64(v: i64) -> Seq<u8> {
    le_bytes((v as u64) as nat, 8)
}

pub proof fn lemma_le_bytes_len(v: nat, n: nat)
    ensures
        le_bytes(v, n).len() == n,
    decreases n,
{
    if n > 0 {
        lemma_le_bytes_len(v / 256, (n - 1) as nat);
    }
}

/// Hashing a concatenation is hashing the second part from the hash of the first.
pub proof fn lemma_fnv_concat(h: u64, a: Seq<u8>, b: Seq<u8>)
    ensures
        fnv_bytes(h, a + b) == fnv_bytes(fnv_bytes(h, a), b),
    decreases b.len(),
{
    if b.len() == 0 {
        assert(a + b =~= a);
    } else {
        lemma_fnv_concat(h, a, b.drop_last());
        assert((a + b).drop_last() =~= a + b.drop_last());
        assert((a + b).last() == b.last());
    }
}

/// Hashing one more byte.
pub proof fn lemma_fnv_push(h: u64, a: Seq<u8>, b: u8)
    ensures
        fnv_bytes(h, a.push(b)) == fnv_step(fnv_bytes(h, a), b),
{
    assert(a.push(b).drop_last() =~= a);
}

/// The FNV-1a offset basis.
pub fn fnv_offset() -> (h: u64)
    ensures
        h == FNV_OFFSET,
{
    FNV_OFFSET
}

/// Feed one byte into the running hash.
pub fn feed_byte(h: &mut u64, b: u8)
    ensures
        *final(h) == fnv_step(*old(h), b),
{
    *h = *h ^ (b as u64);
    *h = h.wrapping_mul(FNV_PRIME);
}

/// Feed the `n` low-order little-endian bytes of `v`.
pub fn feed_le(h: &mut u64, v: u64, n: usize)
    requires
        n <= 8,
    ensures
        *final(h) == fnv_bytes(*old(h), le_bytes(v as nat, n as nat)),
{
    let ghost h0 = *h;
    let ghost mut done: Seq<u8> = Seq::empty();
    let mut x = v;
    let mut i: usize = 0;
    while i < n
        invariant
            i <= n,
            done + le_bytes(x as nat, (n - i) as nat) == le_bytes(v as nat, n as nat),
            *h == fnv_bytes(h0, done),
        decreases n - i,
    {
        let b = (x % 256) as u8;
        proof {
            let rest = le_bytes(x as nat / 256, (n - i - 1) as nat);
            assert(le_bytes(x as nat, (n - i) as nat) == seq![b] + rest);
            assert(done + (seq![b] + rest) =~= done.push(b) + rest);
            lemma_fnv_push(h0, done, b);
            done = done.push(b);
        }
        feed_byte(h, b);
        x = x / 256;
        i = i + 1;
    }
    assert(done + le_bytes(x as nat, 0) =~= done);
}

/// Feed the little-endian bytes of a `u32`.
pub fn feed_u32(h: &mut u64, value: u32)
    ensures
        *final(h) == fnv_bytes(*old(h), le_u32(value)),
{
    feed_le(h, value as u64, 4);
}

/// Feed the little-endian bytes of a `u64`.
pub fn feed_u64(h: &mut u64, value: u64)
    ensures
        *final(h) == fnv_bytes(*old(h), le_u64(value)),
{
    feed_le(h, value, 8);
}

/// Feed the little-endian two's-complement bytes of an `i64`.
pub fn feed_i64(h: &mut u64, value: i64)
    ensures
        *final(h) == fnv_bytes(*old(h), le_i64(value)),
{
    feed_le(h, value as u64, 8);
}

/// Feed a byte slice, in order.
pub fn feed_bytes(h: &mut u64, bytes: &[u8])
    ensures
        *final(h) == fnv_bytes(*old(h), bytes@),
{
    let ghost h0 = *h;
    let mut i: usize = 0;
    while i < bytes.len()
        invariant
            i <= bytes@.len(),
            *h == fnv_bytes(h0, bytes@.take(i as int)),
        decreases bytes@.len() - i,
    {
        proof {
            assert(bytes@.take(i + 1) =~= bytes@.take(i as int).push(bytes@[i as int]));
            lemma_fnv_push(h0, bytes@.take(i as int), bytes@[i as int]);
        }
        feed_byte(h, bytes[i]);
        i = i + 1;
    }
    assert(bytes@.take(i as int) =~= bytes@);
}

/// Feed the UTF-8 bytes of a string.
pub fn feed_str(h: &mut u64, value: &str)
    ensures
        *final(h) == fnv_bytes(*old(h), value.spec_bytes()),
{
    feed_bytes(h, value.as_bytes());
}

} // verus!

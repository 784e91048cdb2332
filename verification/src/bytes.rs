//! Fixed-width integers in byte strings.
use vstd::prelude::*;

verus! {

/// The 16-bit big-endian value at `at`.
#[verifier::opaque]
pub open spec fn be16(s: Seq<u8>, at: int) -> nat {
    (s[at] as nat) * 256 + (s[at + 1] as nat)
}

/// The 32-bit big-endian value at `at`.
#[verifier::opaque]
pub open spec fn be32(s: Seq<u8>, at: int) -> nat {
    be16(s, at) * 65536 + be16(s, at + 2)
}

/// The 64-bit big-endian value at `at`.
#[verifier::opaque]
pub open spec fn be64(s: Seq<u8>, at: int) -> nat {
    be32(s, at) * 4294967296 + be32(s, at + 4)
}

/// The 16-bit little-endian value at `at`.
#[verifier::opaque]
pub open spec fn le16(s: Seq<u8>, at: int) -> nat {
    (s[at] as nat) + (s[at + 1] as nat) * 256
}

/// The 32-bit little-endian value at `at`.
#[verifier::opaque]
pub open spec fn le32(s: Seq<u8>, at: int) -> nat {
    le16(s, at) + le16(s, at + 2) * 65536
}

/// The 64-bit little-endian value at `at`.
#[verifier::opaque]
pub open spec fn le64(s: Seq<u8>, at: int) -> nat {
    le32(s, at) + le32(s, at + 4) * 4294967296
}

/// Reads the 16-bit big-endian value at `at`.
pub fn read_be16(s: &[u8], at: usize) -> (v: u16)
    requires
        at + 2 <= s@.len(),
    ensures
        v == be16(s@, at as int),
{
    proof {
        reveal(be16);
    }
    (s[at] as u16) * 256 + (s[at + 1] as u16)
}

/// Reads the 32-bit big-endian value at `at`.
pub fn read_be32(s: &[u8], at: usize) -> (v: u32)
    requires
        at + 4 <= s@.len(),
    ensures
        v == be32(s@, at as int),
{
    proof {
        reveal(be32);
    }
    assert(s@.len() == s.len());
    (read_be16(s, at) as u32) * 65536 + (read_be16(s, at + 2) as u32)
}

/// Reads the 64-bit big-endian value at `at`.
pub fn read_be64(s: &[u8], at: usize) -> (v: u64)
    requires
        at + 8 <= s@.len(),
    ensures
        v == be64(s@, at as int),
{
    proof {
        reveal(be64);
    }
    assert(s@.len() == s.len());
    (read_be32(s, at) as u64) * 4294967296 + (read_be32(s, at + 4) as u64)
}

/// Reads the 16-bit little-endian value at `at`.
pub fn read_le16(s: &[u8], at: usize) -> (v: u16)
    requires
        at + 2 <= s@.len(),
    ensures
        v == le16(s@, at as int),
{
    proof {
        reveal(le16);
    }
    (s[at] as u16) + (s[at + 1] as u16) * 256
}

/// Reads the 32-bit little-endian value at `at`.
pub fn read_le32(s: &[u8], at: usize) -> (v: u32)
    requires
        at + 4 <= s@.len(),
    ensures
        v == le32(s@, at as int),
{
    proof {
        reveal(le32);
    }
    assert(s@.len() == s.len());
    (read_le16(s, at) as u32) + (read_le16(s, at + 2) as u32) * 65536
}

/// Reads the 64-bit little-endian value at `at`.
pub fn read_le64(s: &[u8], at: usize) -> (v: u64)
    requires
        at + 8 <= s@.len(),
    ensures
        v == le64(s@, at as int),
{
    proof {
        reveal(le64);
    }
    assert(s@.len() == s.len());
    (read_le32(s, at) as u64) + (read_le32(s, at + 4) as u64) * 4294967296
}

/// A 64-bit pattern read as a two's-complement number.
pub open spec fn signed64(n: nat) -> int {
    if n < 0x8000_0000_0000_0000 {
        n as int
    } else {
        n - 0x1_0000_0000_0000_0000
    }
}

/// A 32-bit pattern read as a two's-complement number.
pub open spec fn signed32(n: nat) -> int {
    if n < 0x8000_0000 {
        n as int
    } else {
        n - 0x1_0000_0000
    }
}

/// Reads a 64-bit pattern as a two's-complement number.
pub fn to_signed64(n: u64) -> (v: i64)
    ensures
        v == signed64(n as nat),
{
    if n < 0x8000_0000_0000_0000 {
        n as i64
    } else {
        -((u64::MAX - n) as i64) - 1
    }
}

/// Reads a 32-bit pattern as a two's-complement number.
pub fn to_signed32(n: u32) -> (v: i64)
    ensures
        v == signed32(n as nat),
{
    if n < 0x8000_0000 {
        n as i64
    } else {
        n as i64 - 0x1_0000_0000
    }
}

/// The low 64 bits of `x`.
pub fn low64(x: u128) -> (r: u64)
    ensures
        r == x % 0x1_0000_0000_0000_0000,
{
    assert((x as u64) as u128 == x % 0x1_0000_0000_0000_0000u128) by (bit_vector);
    x as u64
}

/// The low byte of `n`.
pub open spec fn low_byte(n: nat) -> u8 {
    (n % 256) as u8
}

/// `n` modulo `2^16`, most significant byte first.
pub open spec fn be16_bytes(n: nat) -> Seq<u8> {
    seq![low_byte(n / 256), low_byte(n)]
}

/// `n` modulo `2^32`, most significant byte first.
pub open spec fn be32_bytes(n: nat) -> Seq<u8> {
    seq![low_byte(n / 0x100_0000), low_byte(n / 0x1_0000), low_byte(n / 0x100), low_byte(n)]
}

/// `n` modulo `2^64`, most significant byte first.
pub open spec fn be64_bytes(n: nat) -> Seq<u8> {
    be32_bytes(n / 0x1_0000_0000) + be32_bytes(n % 0x1_0000_0000)
}

/// `n` modulo `2^16`, least significant byte first.
pub open spec fn le16_bytes(n: nat) -> Seq<u8> {
    seq![low_byte(n), low_byte(n / 0x100)]
}

/// `n` modulo `2^32`, least significant byte first.
pub open spec fn le32_bytes(n: nat) -> Seq<u8> {
    seq![low_byte(n), low_byte(n / 0x100), low_byte(n / 0x1_0000), low_byte(n / 0x100_0000)]
}

/// `n` modulo `2^64`, least significant byte first.
pub open spec fn le64_bytes(n: nat) -> Seq<u8> {
    le32_bytes(n % 0x1_0000_0000) + le32_bytes(n / 0x1_0000_0000)
}

/// `n` zero bytes.
pub open spec fn zeros(n: nat) -> Seq<u8> {
    Seq::new(n, |i: int| 0u8)
}

/// Reading back a 32-bit value that was written big-endian gives the value.
pub proof fn lemma_be32_round_trip(n: nat)
    requires
        n < 0x1_0000_0000,
    ensures
        be32(be32_bytes(n), 0) == n,
{
    reveal(be16);
    reveal(be32);
}

/// Reading back a 64-bit value that was written big-endian gives the value.
pub proof fn lemma_be64_round_trip(n: nat)
    requires
        n < 0x1_0000_0000_0000_0000,
    ensures
        be64(be64_bytes(n), 0) == n,
{
    reveal(be16);
    reveal(be32);
    reveal(be64);
    let s = be64_bytes(n);
    let hi = n / 0x1_0000_0000;
    let lo = n % 0x1_0000_0000;
    lemma_be32_round_trip(hi);
    lemma_be32_round_trip(lo);
    let first = be32_bytes(hi);
    let second = be32_bytes(lo);
    assert(s[0] == first[0] && s[1] == first[1] && s[2] == first[2] && s[3] == first[3]);
    assert(s[4] == second[0] && s[5] == second[1] && s[6] == second[2] && s[7] == second[3]);
    assert(be32(s, 0) == be32(first, 0));
    assert(be32(s, 4) == be32(second, 0));
}

/// Reading back a 16-bit value that was written little-endian gives the value.
pub proof fn lemma_le16_round_trip(n: nat)
    requires
        n < 0x1_0000,
    ensures
        le16(le16_bytes(n), 0) == n,
{
    reveal(le16);
}

/// Reading back a 32-bit value that was written little-endian gives the value.
pub proof fn lemma_le32_round_trip(n: nat)
    requires
        n < 0x1_0000_0000,
    ensures
        le32(le32_bytes(n), 0) == n,
{
    reveal(le16);
    reveal(le32);
}

/// Reading back a 64-bit value that was written little-endian gives the value.
pub proof fn lemma_le64_round_trip(n: nat)
    requires
        n < 0x1_0000_0000_0000_0000,
    ensures
        le64(le64_bytes(n), 0) == n,
{
    reveal(le16);
    reveal(le32);
    reveal(le64);
    let s = le64_bytes(n);
    let hi = n / 0x1_0000_0000;
    let lo = n % 0x1_0000_0000;
    lemma_le32_round_trip(hi);
    lemma_le32_round_trip(lo);
    let first = le32_bytes(lo);
    let second = le32_bytes(hi);
    assert(s[0] == first[0] && s[1] == first[1] && s[2] == first[2] && s[3] == first[3]);
    assert(s[4] == second[0] && s[5] == second[1] && s[6] == second[2] && s[7] == second[3]);
    assert(le32(s, 0) == le32(first, 0));
    assert(le32(s, 4) == le32(second, 0));
}

/// Appends all of `part`.
pub fn push_all(out: &mut Vec<u8>, part: &[u8])
    ensures
        final(out)@ == old(out)@ + part@,
{
    let mut i: usize = 0;
    let ghost before = out@;
    assert(out@ =~= before + part@.take(0));
    while i < part.len()
        invariant
            i <= part@.len(),
            out@ == before + part@.take(i as int),
        decreases part@.len() - i,
    {
        out.push(part[i]);
        i = i + 1;
        assert(out@ =~= before + part@.take(i as int));
    }
    assert(part@.take(part@.len() as int) =~= part@);
}

/// Appends `n` zero bytes.
pub fn push_zeros(out: &mut Vec<u8>, n: usize)
    ensures
        final(out)@ == old(out)@ + zeros(n as nat),
{
    let mut i: usize = 0;
    let ghost before = out@;
    assert(out@ =~= before + zeros(0));
    while i < n
        invariant
            i <= n,
            out@ == before + zeros(i as nat),
        decreases n - i,
    {
        out.push(0);
        i = i + 1;
        assert(out@ =~= before + zeros(i as nat));
    }
}

/// Appends a 16-bit value, most significant byte first.
pub fn push_be16(out: &mut Vec<u8>, n: u16)
    ensures
        final(out)@ == old(out)@ + be16_bytes(n as nat),
{
    out.push((n / 256) as u8);
    out.push((n % 256) as u8);
    assert(out@ =~= old(out)@ + be16_bytes(n as nat));
}

/// Appends a 32-bit value, most significant byte first.
pub fn push_be32(out: &mut Vec<u8>, n: u32)
    ensures
        final(out)@ == old(out)@ + be32_bytes(n as nat),
{
    out.push((n / 0x100_0000) as u8);
    out.push((n / 0x1_0000 % 256) as u8);
    out.push((n / 0x100 % 256) as u8);
    out.push((n % 256) as u8);
    assert(out@ =~= old(out)@ + be32_bytes(n as nat));
}

/// Appends a 64-bit value, most significant byte first.
pub fn push_be64(out: &mut Vec<u8>, n: u64)
    ensures
        final(out)@ == old(out)@ + be64_bytes(n as nat),
{
    push_be32(out, (n / 0x1_0000_0000) as u32);
    push_be32(out, (n % 0x1_0000_0000) as u32);
    assert(out@ =~= old(out)@ + be64_bytes(n as nat));
}

/// Appends a 16-bit value, least significant byte first.
pub fn push_le16(out: &mut Vec<u8>, n: u16)
    ensures
        final(out)@ == old(out)@ + le16_bytes(n as nat),
{
    out.push((n % 256) as u8);
    out.push((n / 256) as u8);
    assert(out@ =~= old(out)@ + le16_bytes(n as nat));
}

/// Appends a 32-bit value, least significant byte first.
pub fn push_le32(out: &mut Vec<u8>, n: u32)
    ensures
        final(out)@ == old(out)@ + le32_bytes(n as nat),
{
    out.push((n % 256) as u8);
    out.push((n / 0x100 % 256) as u8);
    out.push((n / 0x1_0000 % 256) as u8);
    out.push((n / 0x100_0000) as u8);
    assert(out@ =~= old(out)@ + le32_bytes(n as nat));
}

/// Appends a 64-bit value, least significant byte first.
pub fn push_le64(out: &mut Vec<u8>, n: u64)
    ensures
        final(out)@ == old(out)@ + le64_bytes(n as nat),
{
    push_le32(out, (n % 0x1_0000_0000) as u32);
    push_le32(out, (n / 0x1_0000_0000) as u32);
    assert(out@ =~= old(out)@ + le64_bytes(n as nat));
}

/// Where the little-endian bytes of a 16-bit value stand, that value is read.
pub proof fn lemma_le16_at(s: Seq<u8>, at: int, n: nat)
    requires
        0 <= at,
        at + 2 <= s.len(),
        s.subrange(at, at + 2) == le16_bytes(n),
        n < 0x1_0000,
    ensures
        le16(s, at) == n,
{
    reveal(le16);
    let t = s.subrange(at, at + 2);
    assert(t[0] == s[at] && t[1] == s[at + 1]);
}

/// Where the little-endian bytes of a 32-bit value stand, that value is read.
pub proof fn lemma_le32_at(s: Seq<u8>, at: int, n: nat)
    requires
        0 <= at,
        at + 4 <= s.len(),
        s.subrange(at, at + 4) == le32_bytes(n),
        n < 0x1_0000_0000,
    ensures
        le32(s, at) == n,
{
    reveal(le16);
    reveal(le32);
    let t = s.subrange(at, at + 4);
    assert(t[0] == s[at] && t[1] == s[at + 1] && t[2] == s[at + 2] && t[3] == s[at + 3]);
}

/// Where the little-endian bytes of a 64-bit value stand, that value is read.
pub proof fn lemma_le64_at(s: Seq<u8>, at: int, n: nat)
    requires
        0 <= at,
        at + 8 <= s.len(),
        s.subrange(at, at + 8) == le64_bytes(n),
        n < 0x1_0000_0000_0000_0000,
    ensures
        le64(s, at) == n,
{
    reveal(le64);
    let t = s.subrange(at, at + 8);
    let lo = n % 0x1_0000_0000;
    let hi = n / 0x1_0000_0000;
    assert(s.subrange(at, at + 4) =~= t.take(4));
    assert(t.take(4) =~= le32_bytes(lo));
    assert(s.subrange(at + 4, at + 8) =~= t.skip(4));
    assert(t.skip(4) =~= le32_bytes(hi));
    lemma_le32_at(s, at, lo);
    lemma_le32_at(s, at + 4, hi);
}

/// A signed number is the one in its range that its pattern gives, modulo the number of
/// patterns.
pub proof fn signed_numbers_wrap_around(n: nat)
    ensures
        n < 0x1_0000_0000 ==> -0x8000_0000 <= signed32(n) < 0x8000_0000 && (signed32(n) - n)
            % 0x1_0000_0000 == 0,
        n < 0x1_0000_0000_0000_0000 ==> -0x8000_0000_0000_0000 <= signed64(n)
            < 0x8000_0000_0000_0000 && (signed64(n) - n) % 0x1_0000_0000_0000_0000 == 0,
{
}

/// Big-endian numbers have their highest byte first, little-endian ones their lowest.
pub proof fn numbers_stand_in_their_bytes(s: Seq<u8>, at: int)
    ensures
        be16(s, at) == 256 * s[at] + s[at + 1],
        be32(s, at) == 16_777_216 * s[at] + 65_536 * s[at + 1] + 256 * s[at + 2] + s[at + 3],
        be64(s, at) == 4_294_967_296 * be32(s, at) + be32(s, at + 4),
        le16(s, at) == s[at] + 256 * s[at + 1],
        le32(s, at) == s[at] + 256 * s[at + 1] + 65_536 * s[at + 2] + 16_777_216 * s[at + 3],
        le64(s, at) == le32(s, at) + 4_294_967_296 * le32(s, at + 4),
{
    reveal(be16);
    reveal(be32);
    reveal(be64);
    reveal(le16);
    reveal(le32);
    reveal(le64);
}

} // verus!

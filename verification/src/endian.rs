//! Big-endian numbers: what a run of bytes spells, unsigned or in two's
//! complement, and the bytes that spell a number.

use byteorder::{BigEndian, ByteOrder};
use vstd::prelude::*;

verus! {

/// 256 to the power of `n`.
pub open spec fn pow256(n: nat) -> nat
    decreases n,
{
    if n == 0 {
        1
    } else {
        256 * pow256((n - 1) as nat)
    }
}

/// The natural number that `bytes` spell in base 256, most significant byte
/// first.
pub open spec fn be_nat(bytes: Seq<u8>) -> nat
    decreases bytes.len(),
{
    if bytes.len() == 0 {
        0
    } else {
        be_nat(bytes.drop_last()) * 256 + bytes.last() as nat
    }
}

/// Whether `bytes`, read in two's complement, spell a negative number: the
/// high bit of the first byte. No bytes spell zero.
pub open spec fn sign_bit(bytes: Seq<u8>) -> bool {
    bytes.len() > 0 && bytes[0] >= 0x80
}

/// The integer that `bytes` spell in two's complement, most significant byte
/// first.
pub open spec fn be_int(bytes: Seq<u8>) -> int {
    if sign_bit(bytes) {
        be_nat(bytes) - pow256(bytes.len())
    } else {
        be_nat(bytes) as int
    }
}

/// The `n` low bytes of `v` in two's complement, most significant byte first.
pub open spec fn be_bytes(v: int, n: nat) -> Seq<u8>
    decreases n,
{
    if n == 0 {
        seq![]
    } else {
        be_bytes(v / 256, (n - 1) as nat).push((v % 256) as u8)
    }
}

/// Whether `v` can be written in two's complement with `n` bytes.
pub open spec fn fits_bytes(v: int, n: nat) -> bool {
    -(pow256(n) as int) <= 2 * v < pow256(n)
}

/// The powers of 256 are positive, and all but the first are multiples of
/// 256.
pub proof fn lemma_pow256_positive(n: nat)
    ensures
        pow256(n) >= 1,
        n >= 1 ==> pow256(n) >= 256 && pow256(n) % 256 == 0,
    decreases n,
{
    if n > 0 {
        lemma_pow256_positive((n - 1) as nat);
    }
}

/// The powers of 256 rise.
pub proof fn lemma_pow256_monotonic(m: nat, n: nat)
    requires
        m <= n,
    ensures
        pow256(m) <= pow256(n),
    decreases n,
{
    if m < n {
        lemma_pow256_monotonic(m, (n - 1) as nat);
        lemma_pow256_positive((n - 1) as nat);
    }
}

/// The powers of 256 up to the sixteenth.
pub proof fn lemma_pow256_values()
    ensures
        pow256(0) == 1,
        pow256(1) == 0x100,
        pow256(2) == 0x1_0000,
        pow256(3) == 0x100_0000,
        pow256(4) == 0x1_0000_0000,
        pow256(5) == 0x100_0000_0000,
        pow256(6) == 0x1_0000_0000_0000,
        pow256(7) == 0x100_0000_0000_0000,
        pow256(8) == 0x1_0000_0000_0000_0000,
        pow256(9) == 0x100_0000_0000_0000_0000,
        pow256(10) == 0x1_0000_0000_0000_0000_0000,
        pow256(11) == 0x100_0000_0000_0000_0000_0000,
        pow256(12) == 0x1_0000_0000_0000_0000_0000_0000,
        pow256(13) == 0x100_0000_0000_0000_0000_0000_0000,
        pow256(14) == 0x1_0000_0000_0000_0000_0000_0000_0000,
        pow256(15) == 0x100_0000_0000_0000_0000_0000_0000_0000,
        pow256(16) == 0x1_0000_0000_0000_0000_0000_0000_0000_0000,
{
    reveal_with_fuel(pow256, 18);
}

/// A number of `n` bytes is below the `n`-th power of 256.
pub proof fn lemma_be_nat_bound(bytes: Seq<u8>)
    ensures
        be_nat(bytes) < pow256(bytes.len()),
    decreases bytes.len(),
{
    if bytes.len() > 0 {
        lemma_be_nat_bound(bytes.drop_last());
    }
}

/// The number that two runs of bytes spell together.
pub proof fn lemma_be_nat_concat(a: Seq<u8>, b: Seq<u8>)
    ensures
        be_nat(a + b) == be_nat(a) * pow256(b.len()) + be_nat(b),
    decreases b.len(),
{
    if b.len() == 0 {
        assert(a + b =~= a);
        assert(pow256(b.len()) == 1);
        assert(be_nat(a) * 1 == be_nat(a)) by (nonlinear_arith);
    } else {
        lemma_be_nat_concat(a, b.drop_last());
        assert((a + b).drop_last() =~= a + b.drop_last());
        assert((a + b).last() == b.last());
        let x = be_nat(a) as int;
        let p = pow256(b.drop_last().len()) as int;
        let c = be_nat(b.drop_last()) as int;
        assert(pow256(b.len()) == 256 * p);
        assert((x * p + c) * 256 == x * (256 * p) + c * 256) by (nonlinear_arith);
        assert(be_nat(a + b) == be_nat(a + b.drop_last()) * 256 + b.last());
        assert(be_nat(b) == c * 256 + b.last());
    }
}

/// The number that `bytes` spell, by the first byte and the rest.
pub proof fn lemma_be_nat_first(bytes: Seq<u8>)
    requires
        bytes.len() > 0,
    ensures
        be_nat(bytes) == bytes[0] * pow256((bytes.len() - 1) as nat) + be_nat(bytes.drop_first()),
        be_nat(bytes.drop_first()) < pow256((bytes.len() - 1) as nat),
{
    let first = seq![bytes[0]];
    assert(first + bytes.drop_first() =~= bytes);
    lemma_be_nat_concat(first, bytes.drop_first());
    assert(first.drop_last() =~= Seq::<u8>::empty());
    assert(be_nat(first) == bytes[0]) by {
        reveal_with_fuel(be_nat, 2);
    }
    lemma_be_nat_bound(bytes.drop_first());
}

/// The range of the numbers that `n` bytes spell in two's complement, and the
/// sign that the first byte gives them.
pub proof fn lemma_be_int_range(bytes: Seq<u8>)
    ensures
        fits_bytes(be_int(bytes), bytes.len()),
        sign_bit(bytes) <==> be_int(bytes) < 0,
{
    lemma_be_nat_bound(bytes);
    lemma_pow256_positive(bytes.len());
    if bytes.len() > 0 {
        lemma_be_nat_first(bytes);
        let p = pow256((bytes.len() - 1) as nat) as int;
        let b = bytes[0] as int;
        if b >= 0x80 {
            assert(b * p >= 0x80 * p) by (nonlinear_arith)
                requires
                    b >= 0x80,
                    p >= 0,
            ;
        } else {
            assert(b * p <= 0x7f * p) by (nonlinear_arith)
                requires
                    b <= 0x7f,
                    p >= 0,
            ;
        }
    }
}

/// Dropping a first byte that only repeats the sign leaves the number as it
/// was.
pub proof fn lemma_be_int_strip(bytes: Seq<u8>)
    requires
        bytes.len() > 0,
        bytes[0] == (if sign_bit(bytes) { 0xFFu8 } else { 0u8 }),
        sign_bit(bytes.drop_first()) == sign_bit(bytes),
    ensures
        be_int(bytes.drop_first()) == be_int(bytes),
{
    lemma_be_nat_first(bytes);
    let p = pow256((bytes.len() - 1) as nat) as int;
    assert(0xFF * p == 256 * p - p) by (nonlinear_arith);
}

/// Bytes behind a zero spell, in two's complement, the number that they
/// spell unsigned.
pub proof fn lemma_be_int_leading_zero(bytes: Seq<u8>)
    requires
        bytes.len() > 0,
        bytes[0] == 0,
    ensures
        be_int(bytes) == be_nat(bytes.drop_first()),
{
    lemma_be_nat_first(bytes);
    let p = pow256((bytes.len() - 1) as nat) as int;
    assert(0 * p == 0) by (nonlinear_arith);
}

/// The `n` low bytes of a number are `n` bytes.
pub proof fn lemma_be_bytes_len(v: int, n: nat)
    ensures
        be_bytes(v, n).len() == n,
    decreases n,
{
    if n > 0 {
        lemma_be_bytes_len(v / 256, (n - 1) as nat);
    }
}

/// `v` divided by the `n`-th power of 256, rounded down.
pub open spec fn shifted(v: int, n: nat) -> int
    decreases n,
{
    if n == 0 {
        v
    } else {
        shifted(v / 256, (n - 1) as nat)
    }
}

/// The `n` low bytes of a number spell what is left of it when the higher
/// bytes are taken away.
pub proof fn lemma_be_nat_of_bytes(v: int, n: nat)
    ensures
        be_nat(be_bytes(v, n)) == v - shifted(v, n) * pow256(n),
    decreases n,
{
    if n > 0 {
        let rest = be_bytes(v / 256, (n - 1) as nat);
        lemma_be_nat_of_bytes(v / 256, (n - 1) as nat);
        assert(be_bytes(v, n).drop_last() =~= rest);
        assert(be_bytes(v, n).last() == (v % 256) as u8);
        let p = pow256((n - 1) as nat) as int;
        let s = shifted(v, n);
        assert(s * p * 256 == s * (256 * p)) by (nonlinear_arith);
    } else {
        assert(shifted(v, n) * 1 == shifted(v, n)) by (nonlinear_arith);
    }
}

/// A natural number below the `n`-th power of 256 is the number that its `n`
/// bytes spell.
pub proof fn lemma_be_nat_of_small(v: int, n: nat)
    requires
        0 <= v < pow256(n),
    ensures
        be_nat(be_bytes(v, n)) == v,
{
    lemma_be_nat_of_bytes(v, n);
    lemma_be_bytes_len(v, n);
    lemma_be_nat_bound(be_bytes(v, n));
    let s = shifted(v, n);
    let p = pow256(n) as int;
    assert(s == 0) by (nonlinear_arith)
        requires
            0 <= v < p,
            0 <= v - s * p < p,
    ;
}

/// The bytes of the number that `bytes` spell are `bytes`.
pub proof fn lemma_be_bytes_of_nat(bytes: Seq<u8>)
    ensures
        be_bytes(be_nat(bytes) as int, bytes.len()) == bytes,
    decreases bytes.len(),
{
    if bytes.len() > 0 {
        lemma_be_bytes_of_nat(bytes.drop_last());
        let v = be_nat(bytes) as int;
        assert(v / 256 == be_nat(bytes.drop_last()));
        assert(v % 256 == bytes.last());
        assert(be_bytes(v, bytes.len()) =~= bytes);
    }
}

/// Numbers that differ by a multiple of the `n`-th power of 256 have the same
/// `n` low bytes.
pub proof fn lemma_be_bytes_congruent(v: int, k: int, n: nat)
    ensures
        be_bytes(v + k * pow256(n), n) == be_bytes(v, n),
    decreases n,
{
    if n > 0 {
        let p = pow256((n - 1) as nat) as int;
        let m = k * p;
        assert(k * (256 * p) == 256 * m) by (nonlinear_arith)
            requires
                m == k * p,
        ;
        let w = v + k * pow256(n);
        assert(w == v + 256 * m);
        assert(w % 256 == v % 256);
        assert(w / 256 == v / 256 + m);
        lemma_be_bytes_congruent(v / 256, k, (n - 1) as nat);
    }
}

/// The bytes of the integer that `bytes` spell in two's complement are
/// `bytes`.
pub proof fn lemma_be_bytes_of_int(bytes: Seq<u8>)
    ensures
        be_bytes(be_int(bytes), bytes.len()) == bytes,
{
    lemma_be_bytes_of_nat(bytes);
    let p = pow256(bytes.len()) as int;
    assert(-1 * p == -p) by (nonlinear_arith);
    lemma_be_bytes_congruent(be_nat(bytes) as int, -1, bytes.len());
}

/// A number that fits in `n` bytes is the number that its `n` bytes spell in
/// two's complement.
pub proof fn lemma_be_int_of_bytes(v: int, n: nat)
    requires
        fits_bytes(v, n),
    ensures
        be_int(be_bytes(v, n)) == v,
{
    let bytes = be_bytes(v, n);
    let p = pow256(n) as int;
    lemma_be_bytes_len(v, n);
    lemma_be_nat_of_bytes(v, n);
    lemma_be_nat_bound(bytes);
    lemma_be_int_range(bytes);
    lemma_pow256_positive(n);
    let s = shifted(v, n);
    assert(s == 0 || s == -1) by (nonlinear_arith)
        requires
            p > 0,
            -p <= 2 * v < p,
            0 <= v - s * p < p,
    ;
    assert(s * p == 0 || s * p == -p) by (nonlinear_arith)
        requires
            s == 0 || s == -1,
    ;
}

/// The bytes of a number are the bytes of its high part and then those of
/// its low part.
pub proof fn lemma_be_bytes_join(high: int, low: int, a: nat, b: nat)
    requires
        0 <= low < pow256(b),
    ensures
        be_bytes(high * pow256(b) + low, a + b) == be_bytes(high, a) + be_bytes(low, b),
    decreases b,
{
    let v = high * pow256(b) + low;
    if b == 0 {
        assert(high * 1 == high) by (nonlinear_arith);
        assert(be_bytes(high, a) + be_bytes(low, b) =~= be_bytes(high, a));
    } else {
        let p = pow256((b - 1) as nat) as int;
        let m = high * p;
        assert(high * (256 * p) == 256 * m) by (nonlinear_arith)
            requires
                m == high * p,
        ;
        assert(v == 256 * m + low);
        assert(v % 256 == low % 256);
        assert(v / 256 == m + low / 256);
        lemma_be_bytes_join(high, low / 256, a, (b - 1) as nat);
        assert(be_bytes(v, a + b) =~= be_bytes(high, a) + be_bytes(low, b));
    }
}

/// The low bytes of a number are the last of any more of its bytes.
pub proof fn lemma_be_bytes_suffix(v: int, m: nat, n: nat)
    requires
        n <= m,
    ensures
        be_bytes(v, m).len() == m,
        be_bytes(v, m).subrange(m - n, m as int) == be_bytes(v, n),
    decreases n,
{
    lemma_be_bytes_len(v, m);
    lemma_be_bytes_len(v, n);
    if n > 0 {
        lemma_be_bytes_suffix(v / 256, (m - 1) as nat, (n - 1) as nat);
        lemma_be_bytes_len(v / 256, (m - 1) as nat);
        assert(be_bytes(v, m).subrange(m - n, m as int) =~= be_bytes(v, n));
    } else {
        assert(be_bytes(v, m).subrange(m - n, m as int) =~= be_bytes(v, n));
    }
}

/// Reads the big-endian number in the first four bytes of `buf`.
///
/// Calls `byteorder::BigEndian::read_u32`, which panics on fewer than four
/// bytes. The contract restates its documentation and is not proved.
#[verifier::external_body]
pub(crate) fn read_u32(buf: &[u8]) -> (r: u32)
    requires
        buf.len() >= 4,
    ensures
        r == be_nat(buf@.subrange(0, 4)),
{
    BigEndian::read_u32(buf)
}

/// Reads the big-endian number in the first eight bytes of `buf`.
///
/// Calls `byteorder::BigEndian::read_u64`, which panics on fewer than eight
/// bytes. The contract restates its documentation and is not proved.
#[verifier::external_body]
pub(crate) fn read_u64(buf: &[u8]) -> (r: u64)
    requires
        buf.len() >= 8,
    ensures
        r == be_nat(buf@.subrange(0, 8)),
{
    BigEndian::read_u64(buf)
}

/// Reads the big-endian number in the first `nbytes` bytes of `buf`.
///
/// Calls `byteorder::BigEndian::read_uint`, which panics unless `nbytes` is
/// between one and eight and `buf` has that many bytes. The contract restates
/// its documentation and is not proved.
#[verifier::external_body]
pub(crate) fn read_uint(buf: &[u8], nbytes: usize) -> (r: u64)
    requires
        1 <= nbytes <= 8,
        nbytes <= buf.len(),
    ensures
        r == be_nat(buf@.subrange(0, nbytes as int)),
{
    BigEndian::read_uint(buf, nbytes)
}

/// Reads the two's-complement big-endian number in the first `nbytes` bytes of
/// `buf`.
///
/// Calls `byteorder::BigEndian::read_int`, which panics unless `nbytes` is
/// between one and eight and `buf` has that many bytes; it extends the sign of
/// what it read. The contract restates its documentation and is not proved.
#[verifier::external_body]
pub(crate) fn read_int(buf: &[u8], nbytes: usize) -> (r: i64)
    requires
        1 <= nbytes <= 8,
        nbytes <= buf.len(),
    ensures
        r == be_int(buf@.subrange(0, nbytes as int)),
{
    BigEndian::read_int(buf, nbytes)
}

/// Reads the two's-complement big-endian number in the first `nbytes` bytes of
/// `buf`.
///
/// Calls `byteorder::BigEndian::read_int128`, which panics unless `nbytes` is
/// between one and sixteen and `buf` has that many bytes; it extends the sign
/// of what it read. The contract restates its documentation and is not proved.
#[verifier::external_body]
pub(crate) fn read_int128(buf: &[u8], nbytes: usize) -> (r: i128)
    requires
        1 <= nbytes <= 16,
        nbytes <= buf.len(),
    ensures
        r == be_int(buf@.subrange(0, nbytes as int)),
{
    BigEndian::read_int128(buf, nbytes)
}

/// The four bytes of `n`, most significant first.
///
/// Calls `byteorder::BigEndian::write_u32` on a buffer of four bytes. The
/// contract restates its documentation and is not proved.
#[verifier::external_body]
pub(crate) fn u32_bytes(n: u32) -> (b: [u8; 4])
    ensures
        b@ == be_bytes(n as int, 4),
{
    let mut b = [0u8; 4];
    BigEndian::write_u32(&mut b, n);
    b
}

/// The four bytes of `n` in two's complement, most significant first.
///
/// Calls `byteorder::BigEndian::write_i32` on a buffer of four bytes. The
/// contract restates its documentation and is not proved.
#[verifier::external_body]
pub(crate) fn i32_bytes(n: i32) -> (b: [u8; 4])
    ensures
        b@ == be_bytes(n as int, 4),
{
    let mut b = [0u8; 4];
    BigEndian::write_i32(&mut b, n);
    b
}

/// The eight bytes of `n`, most significant first.
///
/// Calls `byteorder::BigEndian::write_u64` on a buffer of eight bytes. The
/// contract restates its documentation and is not proved.
#[verifier::external_body]
pub(crate) fn u64_bytes(n: u64) -> (b: [u8; 8])
    ensures
        b@ == be_bytes(n as int, 8),
{
    let mut b = [0u8; 8];
    BigEndian::write_u64(&mut b, n);
    b
}

/// Appends `bytes` to `out`.
pub fn append(out: &mut Vec<u8>, bytes: &[u8])
    ensures
        final(out)@ == old(out)@ + bytes@,
{
    out.extend_from_slice(bytes);
    assert(out@ =~= old(out)@ + bytes@);
}

} // verus!

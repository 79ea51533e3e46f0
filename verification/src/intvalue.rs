//! Signed integers of any size.

use crate::endian::{
    append, be_bytes, be_int, be_nat, fits_bytes, lemma_be_bytes_len, lemma_be_bytes_of_int,
    lemma_be_int_leading_zero, lemma_be_int_of_bytes, lemma_be_int_range, lemma_be_int_strip,
    lemma_be_nat_bound, lemma_be_nat_concat, lemma_be_nat_first, lemma_pow256_monotonic,
    lemma_pow256_positive, lemma_pow256_values, pow256, read_int, read_uint, sign_bit,
};
use std::cmp::Ordering;
use vstd::prelude::*;
use crate::try_from::TryFrom;
use vstd::std_specs::cmp::{PartialEqSpecImpl, PartialOrdSpecImpl};
use vstd::std_specs::convert::FromSpecImpl;

verus! {

/// The least number of bytes, but at least one, that spell `v` in two's
/// complement.
pub open spec fn signed_len(v: int) -> nat
    decreases (if v >= 0 { v } else { -v }),
{
    if -128 <= v < 128 {
        1
    } else {
        1 + signed_len(v / 256)
    }
}

/// The number of bytes in the encoding of `v`: none for zero, and else the
/// least number that keeps the sign.
pub open spec fn minimal_length(v: int) -> nat {
    if v == 0 {
        0
    } else {
        signed_len(v)
    }
}

/// The encoding of `v`: its shortest spelling in two's complement, most
/// significant byte first.
pub open spec fn int_bytes(v: int) -> Seq<u8> {
    be_bytes(v, minimal_length(v))
}

/// Whether `bytes` are the shortest spelling of their number: the first byte
/// does not merely repeat the sign of the second, and zero has no bytes.
pub open spec fn is_minimal(bytes: Seq<u8>) -> bool {
    &&& bytes.len() == 1 ==> bytes[0] != 0
    &&& bytes.len() >= 2 ==> !(bytes[0] == 0 && bytes[1] < 0x80) && !(bytes[0] == 0xFF
        && bytes[1] >= 0x80)
}

/// Whether `v` fits neither a signed nor an unsigned integer of 64 bits.
pub open spec fn beyond_64_bits(v: int) -> bool {
    v < -0x8000_0000_0000_0000 || v > 0xFFFF_FFFF_FFFF_FFFF
}

/// `signed_len` is the least number of bytes that keeps the sign: a number
/// fits in `n` bytes exactly when `n` is at least that.
pub proof fn lemma_signed_len_least(v: int, n: nat)
    requires
        n >= 1,
    ensures
        fits_bytes(v, n) <==> signed_len(v) <= n,
    decreases n,
{
    lemma_pow256_values();
    if -128 <= v < 128 {
        lemma_pow256_monotonic(1, n);
        assert(signed_len(v) == 1);
        assert(fits_bytes(v, n));
    } else if n == 1 {
        assert(signed_len(v) == 1 + signed_len(v / 256));
        assert(!fits_bytes(v, 1));
    } else {
        assert(signed_len(v) == 1 + signed_len(v / 256));
        lemma_signed_len_least(v / 256, (n - 1) as nat);
        lemma_pow256_positive((n - 1) as nat);
        let p = pow256((n - 1) as nat) as int;
        let k = p / 2;
        let q = v / 256;
        assert(p == 2 * k);
        assert(pow256(n) == 256 * p);
        assert(fits_bytes(v, n) <==> -128 * p <= v < 128 * p);
        assert(-128 * p <= v <==> -k <= q);
        assert(v < 128 * p <==> q < k);
    }
}

/// A negative number and its complement take the same number of bytes.
pub proof fn lemma_signed_len_complement(v: int)
    requires
        v < 0,
    ensures
        signed_len(v) == signed_len(-v - 1),
    decreases -v,
{
    if v < -128 {
        assert(v / 256 == -((-v - 1) / 256) - 1);
        lemma_signed_len_complement(v / 256);
    }
}

proof fn lemma_be_int_drop_last(bytes: Seq<u8>)
    requires
        bytes.len() >= 2,
    ensures
        be_int(bytes) / 256 == be_int(bytes.drop_last()),
{
    lemma_pow256_positive((bytes.len() - 1) as nat);
    assert(bytes.drop_last()[0] == bytes[0]);
}

/// Shortest spellings have the length of the encoding of their number.
pub proof fn lemma_minimal_has_minimal_length(bytes: Seq<u8>)
    requires
        is_minimal(bytes),
    ensures
        bytes.len() == minimal_length(be_int(bytes)),
    decreases bytes.len(),
{
    let v = be_int(bytes);
    if bytes.len() == 0 {
    } else if bytes.len() == 1 {
        reveal_with_fuel(be_nat, 2);
        lemma_pow256_values();
    } else {
        lemma_be_int_drop_last(bytes);
        let head = bytes.drop_last();
        if bytes.len() == 2 {
            reveal_with_fuel(be_nat, 3);
            lemma_pow256_values();
            assert(head[0] == bytes[0]);
            assert(head.drop_last() =~= Seq::<u8>::empty());
            assert(be_nat(head) == bytes[0]);
            assert(be_nat(bytes) == bytes[0] * 256 + bytes[1]);
            assert(-128 <= be_int(head) < 128);
            assert(!(-128 <= v < 128));
            assert(signed_len(v) == 1 + signed_len(v / 256));
        } else {
            assert(head[0] == bytes[0] && head[1] == bytes[1]);
            lemma_minimal_has_minimal_length(head);
            assert(signed_len(v / 256) >= 2);
            assert(!(-128 <= v / 256 < 128));
            assert(!(-128 <= v < 128));
            assert(signed_len(v) == 1 + signed_len(v / 256));
        }
    }
}

/// Shortest spellings of nine bytes or more, but for a zero in front of
/// eight, are beyond 64 bits.
pub proof fn lemma_long_is_beyond_64_bits(bytes: Seq<u8>)
    requires
        is_minimal(bytes),
        bytes.len() >= 9,
        !(bytes.len() == 9 && bytes[0] == 0),
    ensures
        beyond_64_bits(be_int(bytes)),
{
    let v = be_int(bytes);
    lemma_minimal_has_minimal_length(bytes);
    lemma_signed_len_least(v, 8);
    lemma_pow256_values();
    if v >= 0 {
        if bytes.len() == 9 {
            lemma_be_nat_first(bytes);
            lemma_be_int_range(bytes);
            let b = bytes[0] as int;
            let p = pow256(8) as int;
            assert(b * p >= p) by (nonlinear_arith)
                requires
                    b >= 1,
                    p >= 0,
            ;
        } else {
            lemma_signed_len_least(v, 9);
        }
    }
}

/// The encoding of a number spells the number, and is its shortest spelling.
pub proof fn lemma_int_bytes_roundtrip(v: int)
    ensures
        be_int(int_bytes(v)) == v,
        int_bytes(v).len() == minimal_length(v),
        is_minimal(int_bytes(v)),
{
    let n = minimal_length(v);
    let bytes = int_bytes(v);
    lemma_be_bytes_len(v, n);
    lemma_pow256_values();
    if v != 0 {
        lemma_signed_len_least(v, n);
        lemma_be_int_of_bytes(v, n);
        if n == 1 {
            reveal_with_fuel(be_nat, 2);
        } else {
            lemma_signed_len_least(v, (n - 1) as nat);
            lemma_be_nat_first(bytes);
            lemma_be_nat_first(bytes.drop_first());
            lemma_be_int_range(bytes);
            lemma_pow256_positive((n - 2) as nat);
            let p = pow256((n - 2) as nat) as int;
            let b = bytes[1] as int;
            assert(bytes.drop_first()[0] == bytes[1]);
            assert(pow256((n - 1) as nat) == 256 * p);
            assert(pow256(n) == 256 * (256 * p));
            if bytes[0] == 0 && bytes[1] < 0x80 {
                assert(b * p <= 0x7f * p) by (nonlinear_arith)
                    requires
                        b <= 0x7f,
                        p >= 0,
                ;
                assert(0 * (256 * p) == 0) by (nonlinear_arith);
            }
            if bytes[0] == 0xFF && bytes[1] >= 0x80 {
                assert(b * p >= 0x80 * p) by (nonlinear_arith)
                    requires
                        b >= 0x80,
                        p >= 0,
                ;
                assert(0xFF * (256 * p) == 65280 * p) by (nonlinear_arith);
            }
        }
    }
}

/// A shortest spelling is the encoding of its number.
pub proof fn lemma_minimal_is_int_bytes(bytes: Seq<u8>)
    requires
        is_minimal(bytes),
    ensures
        int_bytes(be_int(bytes)) == bytes,
{
    lemma_minimal_has_minimal_length(bytes);
    lemma_be_bytes_of_int(bytes);
}

/// Of two shortest spellings of numbers of one sign, the longer is further
/// from zero.
pub proof fn lemma_longer_is_further(a: Seq<u8>, b: Seq<u8>)
    requires
        is_minimal(a),
        is_minimal(b),
        1 <= a.len() < b.len(),
        sign_bit(a) == sign_bit(b),
    ensures
        sign_bit(a) ==> be_int(b) < be_int(a),
        !sign_bit(a) ==> be_int(a) < be_int(b),
{
    lemma_minimal_has_minimal_length(a);
    lemma_minimal_has_minimal_length(b);
    lemma_be_int_range(a);
    lemma_be_int_range(b);
    lemma_signed_len_least(be_int(b), (b.len() - 1) as nat);
    lemma_pow256_monotonic(a.len(), (b.len() - 1) as nat);
}

/// Two runs of bytes of one length that agree up to `i` and differ there are
/// ordered, as numbers, as their bytes at `i`; two that agree throughout are
/// equal.
pub proof fn lemma_first_difference_orders(a: Seq<u8>, b: Seq<u8>, at: usize)
    requires
        a.len() == b.len(),
        at <= a.len(),
        a.subrange(0, at as int) == b.subrange(0, at as int),
        at < a.len() ==> a[at as int] != b[at as int],
    ensures
        at == a.len() ==> a == b,
        at < a.len() && a[at as int] < b[at as int] ==> be_nat(a) < be_nat(b),
        at < a.len() && a[at as int] > b[at as int] ==> be_nat(a) > be_nat(b),
{
    let i = at as int;
    if i == a.len() {
        assert(a.subrange(0, i) =~= a);
        assert(b.subrange(0, i) =~= b);
    } else {
        let n = a.len() as int;
        let head = a.subrange(0, i);
        let ta = a.subrange(i, n);
        let tb = b.subrange(i, n);
        assert(head + ta =~= a);
        assert(head + tb =~= b);
        lemma_be_nat_concat(head, ta);
        lemma_be_nat_concat(head, tb);
        lemma_be_nat_first(ta);
        lemma_be_nat_first(tb);
        let p = pow256((n - i - 1) as nat) as int;
        let x = a[i] as int;
        let y = b[i] as int;
        assert(ta[0] == a[i] && tb[0] == b[i]);
        if x < y {
            assert(x * p + p <= y * p) by (nonlinear_arith)
                requires
                    x < y,
                    p >= 0,
            ;
        } else {
            assert(y * p + p <= x * p) by (nonlinear_arith)
                requires
                    y < x,
                    p >= 0,
            ;
        }
    }
}

/// The number of bytes, but at least one, that spell `m` in two's complement.
pub(crate) fn signed_len_of(m: u128) -> (n: usize)
    ensures
        n == signed_len(m as int),
        1 <= n <= 17,
{
    proof {
        lemma_pow256_values();
        assert(pow256(17) == 256 * pow256(16));
        lemma_signed_len_least(m as int, 17);
    }
    let mut n: usize = 1;
    let mut x: u128 = m;
    while x >= 128
        invariant
            n >= 1,
            signed_len(x as int) + n - 1 == signed_len(m as int),
            signed_len(m as int) <= 17,
        decreases x,
    {
        x = x / 256;
        n += 1;
    }
    n
}

/// Appends to `out` the `n` low bytes of `m`, or of the complement of `m`.
pub(crate) fn write_be(m: u128, n: usize, flip: bool, out: &mut Vec<u8>)
    ensures
        final(out)@ == old(out)@ + be_bytes(if flip { -(m as int) - 1 } else { m as int }, n as nat),
    decreases n,
{
    let ghost v = if flip { -(m as int) - 1 } else { m as int };
    if n > 0 {
        write_be(m / 256, n - 1, flip, out);
        let digit = (m % 256) as u8;
        proof {
            assert((-(m as int) - 1) / 256 == -((m / 256) as int) - 1);
            assert((-(m as int) - 1) % 256 == 255 - (m % 256) as int);
        }
        out.push(if flip { 255 - digit } else { digit });
        assert(out@ =~= old(out)@ + be_bytes(v, n as nat));
    } else {
        assert(out@ =~= old(out)@ + be_bytes(v, n as nat));
    }
}

/// The index at which `a` and `b` first differ, or their length if they do
/// not.
fn first_difference(a: &[u8], b: &[u8]) -> (i: usize)
    requires
        a.len() == b.len(),
    ensures
        i <= a.len(),
        a@.subrange(0, i as int) == b@.subrange(0, i as int),
        i < a.len() ==> a@[i as int] != b@[i as int],
{
    let mut i: usize = 0;
    while i < a.len() && a[i] == b[i]
        invariant
            i <= a.len() == b.len(),
            a@.subrange(0, i as int) =~= b@.subrange(0, i as int),
        decreases a.len() - i,
    {
        assert(a@.subrange(0, i + 1) =~= a@.subrange(0, i as int).push(a@[i as int]));
        assert(b@.subrange(0, i + 1) =~= b@.subrange(0, i as int).push(b@[i as int]));
        i += 1;
    }
    i
}

/// How `a` stands to `b`.
pub open spec fn int_order(a: int, b: int) -> Ordering {
    if a < b {
        Ordering::Less
    } else if a == b {
        Ordering::Equal
    } else {
        Ordering::Greater
    }
}

/// Orders two integers beyond 64 bits of one sign, given by their shortest
/// spellings: by length, the longer being further from zero, and then byte by
/// byte.
pub fn cmp_same_sign_bigint(a: &[u8], b: &[u8]) -> (o: Ordering)
    requires
        is_minimal(a@),
        is_minimal(b@),
        a@.len() >= 1,
        b@.len() >= 1,
        sign_bit(a@) == sign_bit(b@),
    ensures
        o == int_order(be_int(a@), be_int(b@)),
{
    let negative = sign(a);
    if a.len() < b.len() {
        proof {
            lemma_longer_is_further(a@, b@);
        }
        if negative {
            Ordering::Greater
        } else {
            Ordering::Less
        }
    } else if a.len() > b.len() {
        proof {
            lemma_longer_is_further(b@, a@);
        }
        if negative {
            Ordering::Less
        } else {
            Ordering::Greater
        }
    } else {
        let i = first_difference(a, b);
        proof {
            lemma_first_difference_orders(a@, b@, i);
        }
        if i == a.len() {
            Ordering::Equal
        } else if a[i] < b[i] {
            Ordering::Less
        } else {
            Ordering::Greater
        }
    }
}

/// A signed integer of any size.
///
/// An integer that fits in 64 bits, signed or unsigned, is held as such. A
/// larger one is held as the borrowed bytes of its shortest spelling in two's
/// complement, most significant byte first.
#[derive(Clone, Copy, Debug)]
pub struct IntValue<'a> {
    inner: Inner<'a>,
}

#[derive(Clone, Copy, Debug)]
enum Inner<'a> {
    Unsigned(u64),
    Signed(i64),
    Big(&'a [u8]),
}

impl<'a> View for IntValue<'a> {
    type V = int;

    /// The integer that the value holds.
    closed spec fn view(&self) -> int {
        match self.inner {
            Inner::Unsigned(v) => v as int,
            Inner::Signed(v) => v as int,
            Inner::Big(bytes) => be_int(bytes@),
        }
    }
}

/// Whether the first byte of `v` has its high bit set: the sign of a number in
/// two's complement.
pub fn sign(v: &[u8]) -> (s: bool)
    ensures
        s == sign_bit(v@),
{
    v.len() > 0 && v[0] >= 0x80
}

impl<'a> IntValue<'a> {
    /// What every value holds: negative numbers alone are held as signed, and
    /// borrowed bytes are a shortest spelling that is beyond 64 bits.
    #[verifier::type_invariant]
    pub closed spec fn wf(self) -> bool {
        match self.inner {
            Inner::Unsigned(_) => true,
            Inner::Signed(v) => v < 0,
            Inner::Big(bytes) => {
                &&& is_minimal(bytes@)
                &&& bytes@.len() >= 9
                &&& !(bytes@.len() == 9 && bytes@[0] == 0)
            },
        }
    }

    /// Whether the value is held as borrowed bytes.
    pub closed spec fn is_big(&self) -> bool {
        self.inner is Big
    }

    /// A value is held as borrowed bytes exactly when it is beyond 64 bits.
    pub proof fn lemma_big_iff_beyond_64_bits(self)
        requires
            self.wf(),
        ensures
            self.is_big() <==> beyond_64_bits(self@),
    {
        if let Inner::Big(bytes) = self.inner {
            lemma_long_is_beyond_64_bits(bytes@);
        }
    }

    /// The integer that `data` spell in two's complement, most significant
    /// byte first.
    ///
    /// Bytes in front that only repeat the sign are left out of what is held.
    pub fn from_bigint(data: &'a [u8]) -> (r: IntValue<'a>)
        ensures
            r@ == be_int(data@),
            r.is_big() <==> beyond_64_bits(be_int(data@)),
    {
        let negative = sign(data);
        let fill: u8 = if negative {
            0xFF
        } else {
            0
        };
        let end = data.len();
        let mut start: usize = 0;
        assert(data@.subrange(0, end as int) =~= data@);
        // Leave out the bytes in front that only repeat the sign.
        while start < end && data[start] == fill && ((start + 1 < end && data[start + 1] >= 0x80)
            == negative)
            invariant
                start <= end == data.len(),
                fill == (if negative { 0xFFu8 } else { 0u8 }),
                be_int(data@.subrange(start as int, end as int)) == be_int(data@),
                sign_bit(data@.subrange(start as int, end as int)) == negative,
            decreases end - start,
        {
            proof {
                let rest = data@.subrange(start as int, end as int);
                assert(rest.drop_first() =~= data@.subrange(start + 1, end as int));
                lemma_be_int_strip(rest);
            }
            start += 1;
        }
        let ghost stripped = data@.subrange(start as int, end as int);
        let mut rest = &data[start..end];
        // Eight bytes with the high bit set need a zero in front of them to
        // spell a positive number. Held as an unsigned integer of 64 bits,
        // they need it no more.
        if rest.len() == 9 && rest[0] == 0 {
            proof {
                lemma_be_int_leading_zero(stripped);
                assert(stripped.drop_first() =~= stripped.subrange(1, 9));
            }
            rest = &rest[1..9];
        }
        let len = rest.len();
        let r = if len == 0 {
            IntValue { inner: Inner::Unsigned(0) }
        } else if len <= 8 {
            proof {
                assert(rest@.subrange(0, len as int) =~= rest@);
                lemma_be_int_range(rest@);
                lemma_be_nat_bound(rest@);
                lemma_pow256_values();
                lemma_pow256_monotonic(len as nat, 8);
            }
            if negative {
                IntValue { inner: Inner::Signed(read_int(rest, len)) }
            } else {
                IntValue { inner: Inner::Unsigned(read_uint(rest, len)) }
            }
        } else {
            proof {
                lemma_long_is_beyond_64_bits(rest@);
            }
            IntValue { inner: Inner::Big(rest) }
        };
        r
    }

    /// Whether the integer is below zero.
    pub fn is_negative(&self) -> (negative: bool)
        ensures
            negative == (self@ < 0),
    {
        proof {
            use_type_invariant(self);
        }
        match self.inner {
            Inner::Unsigned(_) => false,
            Inner::Signed(_) => true,
            Inner::Big(v) => {
                proof {
                    lemma_be_int_range(v@);
                }
                sign(v)
            },
        }
    }
}

impl<'a> IntValue<'a> {
    /// The number of bytes in the encoding of the integer: none for zero, and
    /// else the least number that keeps the sign.
    pub fn serialized_length(&self) -> (n: usize)
        ensures
            n == minimal_length(self@),
    {
        proof {
            use_type_invariant(self);
        }
        match self.inner {
            Inner::Unsigned(v) => {
                if v == 0 {
                    0
                } else {
                    signed_len_of(v as u128)
                }
            },
            Inner::Signed(v) => {
                proof {
                    lemma_signed_len_complement(v as int);
                }
                signed_len_of((-(v + 1)) as u128)
            },
            Inner::Big(bytes) => {
                proof {
                    lemma_minimal_has_minimal_length(bytes@);
                }
                bytes.len()
            },
        }
    }

    /// Appends to `out` the encoding of the integer: its shortest spelling in
    /// two's complement, most significant byte first.
    pub fn serialize(&self, out: &mut Vec<u8>)
        ensures
            final(out)@ == old(out)@ + int_bytes(self@),
    {
        proof {
            use_type_invariant(self);
        }
        match self.inner {
            Inner::Unsigned(v) => {
                let n = self.serialized_length();
                write_be(v as u128, n, false, out);
            },
            Inner::Signed(v) => {
                let n = self.serialized_length();
                write_be((-(v + 1)) as u128, n, true, out);
            },
            Inner::Big(bytes) => {
                proof {
                    lemma_minimal_is_int_bytes(bytes@);
                }
                append(out, bytes);
            },
        }
    }

    /// How the integer stands to `other`.
    pub fn cmp(&self, other: &IntValue<'a>) -> (o: Ordering)
        ensures
            o == int_order(self@, other@),
    {
        proof {
            use_type_invariant(self);
            use_type_invariant(other);
            self.lemma_big_iff_beyond_64_bits();
            other.lemma_big_iff_beyond_64_bits();
        }
        match (self.inner, other.inner) {
            (Inner::Unsigned(a), Inner::Unsigned(b)) => {
                if a < b {
                    Ordering::Less
                } else if a == b {
                    Ordering::Equal
                } else {
                    Ordering::Greater
                }
            },
            (Inner::Unsigned(_), Inner::Big(b)) => {
                proof {
                    lemma_be_int_range(b@);
                }
                if sign(b) {
                    Ordering::Greater
                } else {
                    Ordering::Less
                }
            },
            (Inner::Unsigned(_), Inner::Signed(_)) => Ordering::Greater,
            (Inner::Signed(a), Inner::Signed(b)) => {
                if a < b {
                    Ordering::Less
                } else if a == b {
                    Ordering::Equal
                } else {
                    Ordering::Greater
                }
            },
            (Inner::Signed(_), Inner::Big(b)) => {
                proof {
                    lemma_be_int_range(b@);
                }
                if sign(b) {
                    Ordering::Greater
                } else {
                    Ordering::Less
                }
            },
            (Inner::Signed(_), Inner::Unsigned(_)) => Ordering::Less,
            (Inner::Big(a), Inner::Big(b)) => {
                proof {
                    lemma_be_int_range(a@);
                    lemma_be_int_range(b@);
                }
                if sign(a) == sign(b) {
                    cmp_same_sign_bigint(a, b)
                } else if sign(a) {
                    Ordering::Less
                } else {
                    Ordering::Greater
                }
            },
            (Inner::Big(a), _) => {
                proof {
                    lemma_be_int_range(a@);
                }
                if sign(a) {
                    Ordering::Less
                } else {
                    Ordering::Greater
                }
            },
        }
    }
}

/// Two values are equal when they hold the same integer.
impl<'a> PartialEq for IntValue<'a> {
    fn eq(&self, other: &IntValue<'a>) -> (r: bool) {
        proof {
            use_type_invariant(self);
            use_type_invariant(other);
            self.lemma_big_iff_beyond_64_bits();
            other.lemma_big_iff_beyond_64_bits();
        }
        match (self.inner, other.inner) {
            (Inner::Unsigned(a), Inner::Unsigned(b)) => a == b,
            (Inner::Signed(a), Inner::Signed(b)) => a == b,
            (Inner::Big(a), Inner::Big(b)) => {
                proof {
                    lemma_minimal_has_minimal_length(a@);
                    lemma_minimal_has_minimal_length(b@);
                    lemma_be_int_range(a@);
                    lemma_be_int_range(b@);
                }
                if a.len() != b.len() {
                    false
                } else {
                    let i = first_difference(a, b);
                    proof {
                        lemma_first_difference_orders(a@, b@, i);
                    }
                    i == a.len()
                }
            },
            _ => false,
        }
    }
}

impl<'a> PartialEqSpecImpl for IntValue<'a> {
    open spec fn obeys_eq_spec() -> bool {
        true
    }

    open spec fn eq_spec(&self, other: &IntValue<'a>) -> bool {
        self@ == other@
    }
}

impl<'a> Eq for IntValue<'a> {

}

impl<'a> PartialOrd for IntValue<'a> {
    fn partial_cmp(&self, other: &IntValue<'a>) -> (o: Option<Ordering>) {
        Some(self.cmp(other))
    }
}

impl<'a> PartialOrdSpecImpl for IntValue<'a> {
    open spec fn obeys_partial_cmp_spec() -> bool {
        true
    }

    open spec fn partial_cmp_spec(&self, other: &IntValue<'a>) -> Option<Ordering> {
        Some(int_order(self@, other@))
    }
}

impl<'a> IntValue<'a> {
    /// The encoding of an integer of 64 bits has nine bytes at most.
    pub proof fn lemma_machine_length(self)
        requires
            self.wf(),
            !self.is_big(),
        ensures
            minimal_length(self@) <= 9,
    {
        lemma_pow256_values();
        lemma_signed_len_least(self@, 9);
    }

    /// The value that holds the integer `v` of 64 bits, signed or unsigned.
    pub closed spec fn of_machine(v: int) -> IntValue<'a> {
        if v < 0 {
            IntValue { inner: Inner::Signed(v as i64) }
        } else {
            IntValue { inner: Inner::Unsigned(v as u64) }
        }
    }

    /// The value of an integer of 64 bits holds that integer.
    pub proof fn lemma_of_machine(v: int)
        requires
            !beyond_64_bits(v),
        ensures
            Self::of_machine(v)@ == v,
            Self::of_machine(v).wf(),
            !Self::of_machine(v).is_big(),
    {
    }
}

/// An integer of a fixed width, which an [`IntValue`] can hold.
pub trait Integer: Copy {
    /// The integer.
    spec fn as_int(self) -> int;

    /// The integer as an [`IntValue`].
    fn int_value(self) -> (r: IntValue<'static>)
        ensures
            r@ == self.as_int(),
            !r.is_big(),
    ;
}

impl<'a> From<i8> for IntValue<'a> {
    fn from(value: i8) -> (r: IntValue<'a>)
        ensures
            r@ == value,
    {
        if value < 0 {
            IntValue { inner: Inner::Signed(value as i64) }
        } else {
            IntValue { inner: Inner::Unsigned(value as u64) }
        }
    }
}

impl<'a> FromSpecImpl<i8> for IntValue<'a> {
    open spec fn obeys_from_spec() -> bool {
        true
    }

    open spec fn from_spec(value: i8) -> IntValue<'a> {
        IntValue::of_machine(value as int)
    }
}

impl Integer for i8 {
    open spec fn as_int(self) -> int {
        self as int
    }

    fn int_value(self) -> (r: IntValue<'static>) {
        IntValue::from(self)
    }
}

impl<'a> TryFrom<IntValue<'a>> for i8 {
    type Error = ();

    open spec fn try_from_spec(value: IntValue<'a>) -> Result<i8, ()> {
        if i8::MIN <= value@ <= i8::MAX {
            Ok(value@ as i8)
        } else {
            Err(())
        }
    }

    fn try_from(value: IntValue<'a>) -> (r: Result<i8, ()>) {
        proof {
            use_type_invariant(value);
            value.lemma_big_iff_beyond_64_bits();
        }
        match value.inner {
            Inner::Unsigned(v) => if v <= i8::MAX as u64 {
                Ok(v as i8)
            } else {
                Err(())
            },
            Inner::Signed(v) => if v >= i8::MIN as i64 {
                Ok(v as i8)
            } else {
                Err(())
            },
            Inner::Big(_) => Err(()),
        }
    }
}

impl<'a> From<i16> for IntValue<'a> {
    fn from(value: i16) -> (r: IntValue<'a>)
        ensures
            r@ == value,
    {
        if value < 0 {
            IntValue { inner: Inner::Signed(value as i64) }
        } else {
            IntValue { inner: Inner::Unsigned(value as u64) }
        }
    }
}

impl<'a> FromSpecImpl<i16> for IntValue<'a> {
    open spec fn obeys_from_spec() -> bool {
        true
    }

    open spec fn from_spec(value: i16) -> IntValue<'a> {
        IntValue::of_machine(value as int)
    }
}

impl Integer for i16 {
    open spec fn as_int(self) -> int {
        self as int
    }

    fn int_value(self) -> (r: IntValue<'static>) {
        IntValue::from(self)
    }
}

impl<'a> TryFrom<IntValue<'a>> for i16 {
    type Error = ();

    open spec fn try_from_spec(value: IntValue<'a>) -> Result<i16, ()> {
        if i16::MIN <= value@ <= i16::MAX {
            Ok(value@ as i16)
        } else {
            Err(())
        }
    }

    fn try_from(value: IntValue<'a>) -> (r: Result<i16, ()>) {
        proof {
            use_type_invariant(value);
            value.lemma_big_iff_beyond_64_bits();
        }
        match value.inner {
            Inner::Unsigned(v) => if v <= i16::MAX as u64 {
                Ok(v as i16)
            } else {
                Err(())
            },
            Inner::Signed(v) => if v >= i16::MIN as i64 {
                Ok(v as i16)
            } else {
                Err(())
            },
            Inner::Big(_) => Err(()),
        }
    }
}

impl<'a> From<i32> for IntValue<'a> {
    fn from(value: i32) -> (r: IntValue<'a>)
        ensures
            r@ == value,
    {
        if value < 0 {
            IntValue { inner: Inner::Signed(value as i64) }
        } else {
            IntValue { inner: Inner::Unsigned(value as u64) }
        }
    }
}

impl<'a> FromSpecImpl<i32> for IntValue<'a> {
    open spec fn obeys_from_spec() -> bool {
        true
    }

    open spec fn from_spec(value: i32) -> IntValue<'a> {
        IntValue::of_machine(value as int)
    }
}

impl Integer for i32 {
    open spec fn as_int(self) -> int {
        self as int
    }

    fn int_value(self) -> (r: IntValue<'static>) {
        IntValue::from(self)
    }
}

impl<'a> TryFrom<IntValue<'a>> for i32 {
    type Error = ();

    open spec fn try_from_spec(value: IntValue<'a>) -> Result<i32, ()> {
        if i32::MIN <= value@ <= i32::MAX {
            Ok(value@ as i32)
        } else {
            Err(())
        }
    }

    fn try_from(value: IntValue<'a>) -> (r: Result<i32, ()>) {
        proof {
            use_type_invariant(value);
            value.lemma_big_iff_beyond_64_bits();
        }
        match value.inner {
            Inner::Unsigned(v) => if v <= i32::MAX as u64 {
                Ok(v as i32)
            } else {
                Err(())
            },
            Inner::Signed(v) => if v >= i32::MIN as i64 {
                Ok(v as i32)
            } else {
                Err(())
            },
            Inner::Big(_) => Err(()),
        }
    }
}

impl<'a> From<i64> for IntValue<'a> {
    fn from(value: i64) -> (r: IntValue<'a>)
        ensures
            r@ == value,
    {
        if value < 0 {
            IntValue { inner: Inner::Signed(value as i64) }
        } else {
            IntValue { inner: Inner::Unsigned(value as u64) }
        }
    }
}

impl<'a> FromSpecImpl<i64> for IntValue<'a> {
    open spec fn obeys_from_spec() -> bool {
        true
    }

    open spec fn from_spec(value: i64) -> IntValue<'a> {
        IntValue::of_machine(value as int)
    }
}

impl Integer for i64 {
    open spec fn as_int(self) -> int {
        self as int
    }

    fn int_value(self) -> (r: IntValue<'static>) {
        IntValue::from(self)
    }
}

impl<'a> TryFrom<IntValue<'a>> for i64 {
    type Error = ();

    open spec fn try_from_spec(value: IntValue<'a>) -> Result<i64, ()> {
        if i64::MIN <= value@ <= i64::MAX {
            Ok(value@ as i64)
        } else {
            Err(())
        }
    }

    fn try_from(value: IntValue<'a>) -> (r: Result<i64, ()>) {
        proof {
            use_type_invariant(value);
            value.lemma_big_iff_beyond_64_bits();
        }
        match value.inner {
            Inner::Unsigned(v) => if v <= i64::MAX as u64 {
                Ok(v as i64)
            } else {
                Err(())
            },
            Inner::Signed(v) => Ok(v),
            Inner::Big(_) => Err(()),
        }
    }
}

impl<'a> From<u8> for IntValue<'a> {
    fn from(value: u8) -> (r: IntValue<'a>)
        ensures
            r@ == value,
    {
        IntValue { inner: Inner::Unsigned(value as u64) }
    }
}

impl<'a> FromSpecImpl<u8> for IntValue<'a> {
    open spec fn obeys_from_spec() -> bool {
        true
    }

    open spec fn from_spec(value: u8) -> IntValue<'a> {
        IntValue::of_machine(value as int)
    }
}

impl Integer for u8 {
    open spec fn as_int(self) -> int {
        self as int
    }

    fn int_value(self) -> (r: IntValue<'static>) {
        IntValue::from(self)
    }
}

impl<'a> TryFrom<IntValue<'a>> for u8 {
    type Error = ();

    open spec fn try_from_spec(value: IntValue<'a>) -> Result<u8, ()> {
        if u8::MIN <= value@ <= u8::MAX {
            Ok(value@ as u8)
        } else {
            Err(())
        }
    }

    fn try_from(value: IntValue<'a>) -> (r: Result<u8, ()>) {
        proof {
            use_type_invariant(value);
            value.lemma_big_iff_beyond_64_bits();
        }
        match value.inner {
            Inner::Unsigned(v) => if v <= u8::MAX as u64 {
                Ok(v as u8)
            } else {
                Err(())
            },
            _ => Err(()),
        }
    }
}

impl<'a> From<u16> for IntValue<'a> {
    fn from(value: u16) -> (r: IntValue<'a>)
        ensures
            r@ == value,
    {
        IntValue { inner: Inner::Unsigned(value as u64) }
    }
}

impl<'a> FromSpecImpl<u16> for IntValue<'a> {
    open spec fn obeys_from_spec() -> bool {
        true
    }

    open spec fn from_spec(value: u16) -> IntValue<'a> {
        IntValue::of_machine(value as int)
    }
}

impl Integer for u16 {
    open spec fn as_int(self) -> int {
        self as int
    }

    fn int_value(self) -> (r: IntValue<'static>) {
        IntValue::from(self)
    }
}

impl<'a> TryFrom<IntValue<'a>> for u16 {
    type Error = ();

    open spec fn try_from_spec(value: IntValue<'a>) -> Result<u16, ()> {
        if u16::MIN <= value@ <= u16::MAX {
            Ok(value@ as u16)
        } else {
            Err(())
        }
    }

    fn try_from(value: IntValue<'a>) -> (r: Result<u16, ()>) {
        proof {
            use_type_invariant(value);
            value.lemma_big_iff_beyond_64_bits();
        }
        match value.inner {
            Inner::Unsigned(v) => if v <= u16::MAX as u64 {
                Ok(v as u16)
            } else {
                Err(())
            },
            _ => Err(()),
        }
    }
}

impl<'a> From<u32> for IntValue<'a> {
    fn from(value: u32) -> (r: IntValue<'a>)
        ensures
            r@ == value,
    {
        IntValue { inner: Inner::Unsigned(value as u64) }
    }
}

impl<'a> FromSpecImpl<u32> for IntValue<'a> {
    open spec fn obeys_from_spec() -> bool {
        true
    }

    open spec fn from_spec(value: u32) -> IntValue<'a> {
        IntValue::of_machine(value as int)
    }
}

impl Integer for u32 {
    open spec fn as_int(self) -> int {
        self as int
    }

    fn int_value(self) -> (r: IntValue<'static>) {
        IntValue::from(self)
    }
}

impl<'a> TryFrom<IntValue<'a>> for u32 {
    type Error = ();

    open spec fn try_from_spec(value: IntValue<'a>) -> Result<u32, ()> {
        if u32::MIN <= value@ <= u32::MAX {
            Ok(value@ as u32)
        } else {
            Err(())
        }
    }

    fn try_from(value: IntValue<'a>) -> (r: Result<u32, ()>) {
        proof {
            use_type_invariant(value);
            value.lemma_big_iff_beyond_64_bits();
        }
        match value.inner {
            Inner::Unsigned(v) => if v <= u32::MAX as u64 {
                Ok(v as u32)
            } else {
                Err(())
            },
            _ => Err(()),
        }
    }
}

impl<'a> From<u64> for IntValue<'a> {
    fn from(value: u64) -> (r: IntValue<'a>)
        ensures
            r@ == value,
    {
        IntValue { inner: Inner::Unsigned(value as u64) }
    }
}

impl<'a> FromSpecImpl<u64> for IntValue<'a> {
    open spec fn obeys_from_spec() -> bool {
        true
    }

    open spec fn from_spec(value: u64) -> IntValue<'a> {
        IntValue::of_machine(value as int)
    }
}

impl Integer for u64 {
    open spec fn as_int(self) -> int {
        self as int
    }

    fn int_value(self) -> (r: IntValue<'static>) {
        IntValue::from(self)
    }
}

impl<'a> TryFrom<IntValue<'a>> for u64 {
    type Error = ();

    open spec fn try_from_spec(value: IntValue<'a>) -> Result<u64, ()> {
        if u64::MIN <= value@ <= u64::MAX {
            Ok(value@ as u64)
        } else {
            Err(())
        }
    }

    fn try_from(value: IntValue<'a>) -> (r: Result<u64, ()>) {
        proof {
            use_type_invariant(value);
            value.lemma_big_iff_beyond_64_bits();
        }
        match value.inner {
            Inner::Unsigned(v) => Ok(v),
            _ => Err(()),
        }
    }
}

} // verus!

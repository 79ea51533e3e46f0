//! The framing of the subfields of a map or a sequence.
//!
//! Every subfield is preceded by its length, written in base 128 with the most
//! significant digit first. Each byte of the length holds one digit in its low
//! seven bits; the high bit is set in the last byte and in no other.

use crate::errors::ReadError;
use vstd::prelude::*;

verus! {

/// The number that the low seven bits of `digits` spell in base 128, most
/// significant digit first.
pub open spec fn prefix_value(digits: Seq<u8>) -> nat
    decreases digits.len(),
{
    if digits.len() == 0 {
        0
    } else {
        prefix_value(digits.drop_last()) * 128 + (digits.last() % 128) as nat
    }
}

/// The index of the first byte at or after `from` that has its high bit set,
/// or the length of `data` if there is none.
pub open spec fn terminator_from(data: Seq<u8>, from: int) -> int
    decreases data.len() - from,
{
    if from < 0 || from >= data.len() || data[from] >= 0x80 {
        from
    } else {
        terminator_from(data, from + 1)
    }
}

/// What the start of `data` holds, read as a subfield, and the number of bytes
/// that the subfield takes up.
///
/// Empty data holds no subfield. Data whose length prefix is cut off, or whose
/// length prefix asks for more bytes than follow it, is invalid as a whole.
pub open spec fn parse_subfield(data: Seq<u8>) -> (Option<Result<Seq<u8>, ReadError>>, nat) {
    let last = terminator_from(data, 0);
    let length = prefix_value(data.subrange(0, last + 1));
    if data.len() == 0 {
        (None, 0)
    } else if last >= data.len() || length > data.len() - (last + 1) {
        (Some(Err(ReadError::InvalidSubfield)), data.len())
    } else {
        (Some(Ok(data.subrange(last + 1, last + 1 + length))), (last + 1 + length) as nat)
    }
}

/// The digits of `n` in base 128, most significant first; none for zero.
pub open spec fn leading_digits(n: nat) -> Seq<u8>
    decreases n,
{
    if n == 0 {
        seq![]
    } else {
        leading_digits(n / 128).push((n % 128) as u8)
    }
}

/// The length prefix of a subfield of `n` bytes.
pub open spec fn length_prefix(n: nat) -> Seq<u8> {
    leading_digits(n / 128).push((128 + n % 128) as u8)
}

/// The number of binary digits of `n`.
pub open spec fn bit_length(n: nat) -> nat
    decreases n,
{
    if n == 0 {
        0
    } else {
        1 + bit_length(n / 2)
    }
}

/// A subfield: `body` behind the prefix that gives its length.
pub open spec fn framed(body: Seq<u8>) -> Seq<u8> {
    length_prefix(body.len()) + body
}

proof fn lemma_prefix_value_push(digits: Seq<u8>, d: u8)
    ensures
        prefix_value(digits.push(d)) == prefix_value(digits) * 128 + (d % 128) as nat,
{
    assert(digits.push(d).drop_last() =~= digits);
}

proof fn lemma_prefix_value_grows(data: Seq<u8>, i: int, j: int)
    requires
        0 <= i <= j <= data.len(),
    ensures
        prefix_value(data.subrange(0, i)) <= prefix_value(data.subrange(0, j)),
        i < j ==> prefix_value(data.subrange(0, i)) * 128 <= prefix_value(data.subrange(0, j)),
    decreases j - i,
{
    if i < j {
        lemma_prefix_value_grows(data, i, j - 1);
        assert(data.subrange(0, j).drop_last() =~= data.subrange(0, j - 1));
    }
}

proof fn lemma_terminator_bounds(data: Seq<u8>, from: int)
    requires
        0 <= from <= data.len(),
    ensures
        from <= terminator_from(data, from) <= data.len(),
        terminator_from(data, from) < data.len() ==> data[terminator_from(data, from)] >= 0x80,
        forall|j: int| from <= j < terminator_from(data, from) ==> data[j] < 0x80,
    decreases data.len() - from,
{
    if from < data.len() && data[from] < 0x80 {
        lemma_terminator_bounds(data, from + 1);
    }
}

proof fn lemma_terminator_is(data: Seq<u8>, from: int, k: int)
    requires
        0 <= from <= k < data.len(),
        data[k] >= 0x80,
        forall|j: int| from <= j < k ==> data[j] < 0x80,
    ensures
        terminator_from(data, from) == k,
    decreases k - from,
{
    if from < k {
        lemma_terminator_is(data, from + 1, k);
    }
}

/// A subfield takes up at least one byte, and no more than there are; its body
/// lies within the bytes that it takes up.
pub proof fn lemma_parse_subfield_bounds(data: Seq<u8>)
    ensures
        parse_subfield(data).1 <= data.len(),
        data.len() > 0 ==> parse_subfield(data).1 > 0,
        parse_subfield(data).0 matches Some(Ok(body)) ==> {
            &&& body.len() < parse_subfield(data).1
            &&& body == data.subrange(
                parse_subfield(data).1 - body.len(),
                parse_subfield(data).1 as int,
            )
        },
{
    lemma_terminator_bounds(data, 0);
}

/// A subfield stays where it is, and takes up as much, when its body gives
/// way to another of the same length, whatever follows then.
pub proof fn lemma_parse_subfield_replace(data: Seq<u8>, body: Seq<u8>, rest: Seq<u8>)
    requires
        parse_subfield(data).0 matches Some(Ok(field)) && field.len() == body.len(),
    ensures
        parse_subfield(
            data.subrange(0, parse_subfield(data).1 - body.len()) + body + rest,
        ) == (Some(Ok::<Seq<u8>, ReadError>(body)), parse_subfield(data).1),
{
    let last = terminator_from(data, 0);
    let used = parse_subfield(data).1 as int;
    let prefix = data.subrange(0, used - body.len());
    let replaced = prefix + body + rest;
    lemma_terminator_bounds(data, 0);
    assert(prefix.len() == last + 1);
    assert(replaced[last] == data[last]);
    assert forall|j: int| 0 <= j < last implies replaced[j] < 0x80 by {
        assert(replaced[j] == data[j]);
    }
    lemma_terminator_is(replaced, 0, last);
    assert(replaced.subrange(0, last + 1) =~= data.subrange(0, last + 1));
    assert(replaced.subrange(last + 1, last + 1 + body.len()) =~= body);
}

proof fn lemma_leading_digits(n: nat)
    ensures
        prefix_value(leading_digits(n)) == n,
        forall|j: int| 0 <= j < leading_digits(n).len() ==> leading_digits(n)[j] < 0x80,
    decreases n,
{
    if n > 0 {
        lemma_leading_digits(n / 128);
        lemma_prefix_value_push(leading_digits(n / 128), (n % 128) as u8);
    }
}

/// A length prefix spells the length that it was written for, and ends at its
/// first byte with the high bit set.
pub proof fn lemma_length_prefix(n: nat)
    ensures
        prefix_value(length_prefix(n)) == n,
        length_prefix(n).len() >= 1,
        length_prefix(n).last() >= 0x80,
        forall|j: int| 0 <= j < length_prefix(n).len() - 1 ==> length_prefix(n)[j] < 0x80,
{
    lemma_leading_digits(n / 128);
    lemma_prefix_value_push(leading_digits(n / 128), (128 + n % 128) as u8);
}

/// Reading back a subfield gives its body and takes up the prefix and the
/// body, whatever follows.
pub proof fn lemma_parse_framed(body: Seq<u8>, rest: Seq<u8>)
    ensures
        parse_subfield(framed(body) + rest) == (
            Some(Ok::<Seq<u8>, ReadError>(body)),
            framed(body).len(),
        ),
{
    let n = body.len();
    let prefix = length_prefix(n);
    let data = framed(body) + rest;
    let k = prefix.len() - 1;
    lemma_length_prefix(n);
    assert(data[k] == prefix[k]);
    assert forall|j: int| 0 <= j < k implies data[j] < 0x80 by {
        assert(data[j] == prefix[j]);
    }
    lemma_terminator_is(data, 0, k);
    assert(data.subrange(0, k + 1) =~= prefix);
    assert(data.subrange(k + 1, k + 1 + n) =~= body);
}

/// The length that a length prefix spells, read back, is the length that was
/// written; the prefix of a subfield is followed by that many bytes.
pub proof fn lemma_length_roundtrip(n: nat)
    ensures
        prefix_value(length_prefix(n)) == n,
        terminator_from(length_prefix(n), 0) == length_prefix(n).len() - 1,
{
    lemma_length_prefix(n);
    lemma_terminator_is(length_prefix(n), 0, length_prefix(n).len() - 1);
}

proof fn lemma_bit_length_shift7(n: nat)
    requires
        n >= 128,
    ensures
        bit_length(n) == 7 + bit_length(n / 128),
{
    assert(n / 2 / 2 / 2 / 2 / 2 / 2 / 2 == n / 128);
    reveal_with_fuel(bit_length, 8);
}

proof fn lemma_bit_length_small(n: nat)
    requires
        1 <= n < 128,
    ensures
        1 <= bit_length(n) <= 7,
{
    reveal_with_fuel(bit_length, 9);
}

/// A length prefix has one byte for every seven binary digits of the length,
/// and one byte for length zero.
pub proof fn lemma_length_prefix_len(n: nat)
    ensures
        length_prefix(n).len() == (bit_length(if n == 0 { 1 } else { n }) + 6) / 7,
    decreases n,
{
    if n < 128 {
        assert(leading_digits(0) =~= seq![]);
        if n > 0 {
            lemma_bit_length_small(n);
        } else {
            lemma_bit_length_small(1);
        }
    } else {
        lemma_length_prefix_len(n / 128);
        lemma_bit_length_shift7(n);
        assert(leading_digits(n / 128).len() == length_prefix(n / 128).len());
    }
}

/// Reads the subfield at the start of `data`.
///
/// Returns what was read and the number of bytes that were taken up: nothing
/// and zero at the end of the data, the body of the subfield and its full
/// length where the subfield is complete, and `InvalidSubfield` with the length
/// of the data otherwise.
pub fn read_subfield(data: &[u8]) -> (r: (Option<Result<&[u8], ReadError>>, usize))
    ensures
        r.1 == parse_subfield(data@).1,
        match r.0 {
            None => parse_subfield(data@).0 is None,
            Some(Err(e)) => parse_subfield(data@).0 == Some(Err::<Seq<u8>, ReadError>(e)),
            Some(Ok(body)) => parse_subfield(data@).0 == Some(Ok::<Seq<u8>, ReadError>(body@)),
        },
{
    if data.len() == 0 {
        return (None, 0);
    }
    let mut len_bytes: usize = 0;
    let mut len: usize = 0;
    proof {
        lemma_terminator_bounds(data@, 0);
    }
    loop
        invariant_except_break
            len_bytes <= data.len(),
            len == prefix_value(data@.subrange(0, len_bytes as int)),
            terminator_from(data@, len_bytes as int) == terminator_from(data@, 0),
        invariant
            data.len() > 0,
            terminator_from(data@, 0) <= data.len(),
        ensures
            len_bytes == terminator_from(data@, 0) + 1,
            len_bytes <= data.len(),
            len == prefix_value(data@.subrange(0, len_bytes as int)),
        decreases data.len() - len_bytes,
    {
        if len_bytes >= data.len() {
            return (Some(Err(ReadError::InvalidSubfield)), data.len());
        }
        let byte = data[len_bytes];
        if len > usize::MAX / 128 {
            proof {
                let last = terminator_from(data@, 0);
                if last < data.len() {
                    lemma_terminator_bounds(data@, len_bytes as int);
                    lemma_prefix_value_grows(data@, len_bytes as int, last + 1);
                }
            }
            return (Some(Err(ReadError::InvalidSubfield)), data.len());
        }
        proof {
            assert(data@.subrange(0, len_bytes + 1) =~= data@.subrange(0, len_bytes as int).push(
                byte,
            ));
            lemma_prefix_value_push(data@.subrange(0, len_bytes as int), byte);
        }
        len = len * 128 + (byte % 128) as usize;
        len_bytes += 1;
        if byte >= 0x80 {
            break ;
        }
    }
    if len > data.len() - len_bytes {
        return (Some(Err(ReadError::InvalidSubfield)), data.len());
    }
    let field = &data[len_bytes..len_bytes + len];
    (Some(Ok(field)), len_bytes + len)
}

/// The number of bytes in the length prefix of a subfield of `length` bytes.
pub fn subfield_length_length(length: usize) -> (n: usize)
    ensures
        n == length_prefix(length as nat).len(),
        1 <= n <= 10,
{
    let mut n: usize = 1;
    let mut rest: usize = length / 128;
    assert(leading_digits(0) =~= seq![]);
    while rest > 0
        invariant
            1 <= n <= 10,
            n + leading_digits(rest as nat).len() == length_prefix(length as nat).len(),
            rest < 0x200_0000_0000_0000,
            n >= 2 ==> rest < 0x4_0000_0000_0000,
            n >= 3 ==> rest < 0x800_0000_0000,
            n >= 4 ==> rest < 0x10_0000_0000,
            n >= 5 ==> rest < 0x2000_0000,
            n >= 6 ==> rest < 0x40_0000,
            n >= 7 ==> rest < 0x8000,
            n >= 8 ==> rest < 0x100,
            n >= 9 ==> rest < 2,
            n >= 10 ==> rest < 1,
        decreases rest,
    {
        rest = rest / 128;
        n += 1;
    }
    n
}

/// The number of bytes that a subfield of `length` bytes takes up, with its
/// prefix.
pub fn subfield_length(length: usize) -> (n: usize)
    requires
        length + length_prefix(length as nat).len() <= usize::MAX,
    ensures
        n == length_prefix(length as nat).len() + length,
{
    subfield_length_length(length) + length
}

fn write_leading_digits(rest: usize, out: &mut Vec<u8>)
    ensures
        final(out)@ == old(out)@ + leading_digits(rest as nat),
    decreases rest,
{
    if rest > 0 {
        write_leading_digits(rest / 128, out);
        out.push((rest % 128) as u8);
        assert(out@ =~= old(out)@ + leading_digits(rest as nat));
    } else {
        assert(out@ =~= old(out)@ + leading_digits(rest as nat));
    }
}

/// Appends to `out` the length prefix of a subfield of `length` bytes.
pub fn write_subfield_length(length: usize, out: &mut Vec<u8>)
    ensures
        final(out)@ == old(out)@ + length_prefix(length as nat),
{
    write_leading_digits(length / 128, out);
    out.push((128 + length % 128) as u8);
    assert(out@ =~= old(out)@ + length_prefix(length as nat));
}

} // verus!

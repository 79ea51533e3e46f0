//! The encoding of argdata values, as functions of the encoded bytes.
//!
//! An encoded value is a tag of one byte and a body; the value null has no
//! bytes at all.

use crate::endian::{
    be_bytes, be_int, be_nat, lemma_be_bytes_len, lemma_be_bytes_of_nat, lemma_be_nat_bound,
    lemma_be_nat_of_small, lemma_pow256_values,
};
use crate::errors::{NoFit, NotRead, ReadError};
use crate::fd::{register, register_all, ConvertFd, Fd, FdMapping, INVALID_FD_NUMBER};
use crate::intvalue::{int_bytes, is_minimal, lemma_int_bytes_roundtrip, lemma_minimal_is_int_bytes};
use crate::mapiterator::map_step;
use crate::seqiterator::seq_step;
use crate::subfield::{
    framed, lemma_parse_framed, lemma_parse_subfield_bounds, lemma_parse_subfield_replace,
    parse_subfield,
};
use crate::timespec::{lemma_timestamp_roundtrip, parse_timestamp_body, timestamp_body, Timespec};
use crate::value::Type;
use vstd::prelude::*;

verus! {

/// The type of the value that `wire` encodes.
pub open spec fn type_of(wire: Seq<u8>) -> Result<Type, ReadError> {
    if wire.len() == 0 {
        Ok(Type::Null)
    } else if wire[0] == 1 {
        Ok(Type::Binary)
    } else if wire[0] == 2 {
        Ok(Type::Bool)
    } else if wire[0] == 3 {
        Ok(Type::Fd)
    } else if wire[0] == 4 {
        Ok(Type::Float)
    } else if wire[0] == 5 {
        Ok(Type::Int)
    } else if wire[0] == 6 {
        Ok(Type::Mapping)
    } else if wire[0] == 7 {
        Ok(Type::Sequence)
    } else if wire[0] == 8 {
        Ok(Type::Str)
    } else if wire[0] == 9 {
        Ok(Type::Timestamp)
    } else {
        Err(ReadError::InvalidTag(wire[0]))
    }
}

/// Whether `wire` starts with `tag`.
pub open spec fn tagged(wire: Seq<u8>, tag: u8) -> bool {
    wire.len() > 0 && wire[0] == tag
}

/// What follows the tag.
pub open spec fn body(wire: Seq<u8>) -> Seq<u8> {
    wire.skip(1)
}

/// The value is of another type than the one asked for.
pub open spec fn different_type<T>() -> Result<T, NotRead> {
    Err(NotRead::NoFit(NoFit::DifferentType))
}

/// What `wire` gives when read as null.
pub open spec fn parse_null(wire: Seq<u8>) -> Result<(), NotRead> {
    if wire.len() == 0 {
        Ok(())
    } else {
        different_type()
    }
}

/// What `wire` gives when read as a binary blob.
pub open spec fn parse_binary(wire: Seq<u8>) -> Result<Seq<u8>, NotRead> {
    if tagged(wire, 1) {
        Ok(body(wire))
    } else {
        different_type()
    }
}

/// What `wire` gives when read as a boolean.
pub open spec fn parse_bool(wire: Seq<u8>) -> Result<bool, NotRead> {
    if !tagged(wire, 2) {
        different_type()
    } else if wire.len() == 1 {
        Ok(false)
    } else if wire.len() == 2 && wire[1] == 1 {
        Ok(true)
    } else {
        Err(NotRead::Error(ReadError::InvalidBoolValue))
    }
}

/// What `wire` gives when read as a file descriptor: the encoded number.
pub open spec fn parse_fd(wire: Seq<u8>) -> Result<u32, NotRead> {
    if !tagged(wire, 3) {
        different_type()
    } else if wire.len() == 5 {
        Ok(be_nat(body(wire)) as u32)
    } else {
        Err(NotRead::Error(ReadError::InvalidFdLength))
    }
}

/// What `wire` gives when read as a float: the bits of the float.
pub open spec fn parse_float(wire: Seq<u8>) -> Result<u64, NotRead> {
    if !tagged(wire, 4) {
        different_type()
    } else if wire.len() == 9 {
        Ok(be_nat(body(wire)) as u64)
    } else {
        Err(NotRead::Error(ReadError::InvalidFloatLength))
    }
}

/// What `wire` gives when read as an integer.
pub open spec fn parse_int(wire: Seq<u8>) -> Result<int, NotRead> {
    if tagged(wire, 5) {
        Ok(be_int(body(wire)))
    } else {
        different_type()
    }
}

/// What `wire` gives when read as a string: the bytes of the string, without
/// the nul byte that ends them.
pub open spec fn parse_str(wire: Seq<u8>) -> Result<Seq<u8>, NotRead> {
    if !tagged(wire, 8) {
        different_type()
    } else if wire.len() >= 2 && wire.last() == 0 {
        Ok(body(wire).drop_last())
    } else {
        Err(NotRead::Error(ReadError::MissingNullTerminator))
    }
}

/// What `wire` gives when read as a timestamp.
pub open spec fn parse_timestamp(wire: Seq<u8>) -> Result<Timespec, NotRead> {
    if !tagged(wire, 9) {
        different_type()
    } else {
        match parse_timestamp_body(body(wire)) {
            Ok(value) => Ok(value),
            Err(e) => Err(NotRead::Error(e)),
        }
    }
}

/// The encoding of a binary blob.
pub open spec fn binary_wire(bytes: Seq<u8>) -> Seq<u8> {
    seq![1u8] + bytes
}

/// The encoding of a boolean.
pub open spec fn bool_wire(value: bool) -> Seq<u8> {
    if value {
        seq![2u8, 1u8]
    } else {
        seq![2u8]
    }
}

/// The encoding of a file descriptor with the encoded number `raw`.
pub open spec fn fd_wire(raw: u32) -> Seq<u8> {
    seq![3u8] + be_bytes(raw as int, 4)
}

/// The encoding of the float with the bits `bits`.
pub open spec fn float_wire(bits: u64) -> Seq<u8> {
    seq![4u8] + be_bytes(bits as int, 8)
}

/// The encoding of an integer.
pub open spec fn int_wire(value: int) -> Seq<u8> {
    seq![5u8] + int_bytes(value)
}

/// The encoding of the string with the bytes `bytes`.
pub open spec fn str_wire(bytes: Seq<u8>) -> Seq<u8> {
    seq![8u8] + bytes + seq![0u8]
}

/// The encoding of a timestamp.
pub open spec fn timestamp_wire(value: Timespec) -> Seq<u8> {
    seq![9u8] + timestamp_body(value)
}

/// The subfields of `children`, one after the other.
pub open spec fn framed_all(children: Seq<Seq<u8>>) -> Seq<u8>
    decreases children.len(),
{
    if children.len() == 0 {
        seq![]
    } else {
        framed_all(children.drop_last()) + framed(children.last())
    }
}

/// The encoding of the sequence of the values with the encodings `children`.
pub open spec fn seq_wire(children: Seq<Seq<u8>>) -> Seq<u8> {
    seq![7u8] + framed_all(children)
}

/// The encoding of the map with the keys and values of which `children` holds
/// the encodings, each key before its value.
pub open spec fn map_wire(children: Seq<Seq<u8>>) -> Seq<u8> {
    seq![6u8] + framed_all(children)
}

/// The subfields of values and of one more are those of the values and then
/// that of the one more.
pub proof fn lemma_framed_all_push(children: Seq<Seq<u8>>, child: Seq<u8>)
    ensures
        framed_all(children.push(child)) == framed_all(children) + framed(child),
{
    assert(children.push(child).drop_last() =~= children);
}

/// The subfields of two runs of values are those of the first and then those
/// of the second.
pub proof fn lemma_framed_all_append(first: Seq<Seq<u8>>, rest: Seq<Seq<u8>>)
    ensures
        framed_all(first + rest) == framed_all(first) + framed_all(rest),
    decreases rest.len(),
{
    if rest.len() == 0 {
        assert(first + rest =~= first);
        assert(framed_all(first) + framed_all(rest) =~= framed_all(first));
    } else {
        lemma_framed_all_append(first, rest.drop_last());
        assert((first + rest).drop_last() =~= first + rest.drop_last());
        assert(framed_all(first + rest) =~= framed_all(first) + framed_all(rest));
    }
}

/// The subfields of values are those of the first `i` of them, then that of
/// the value at `i`, then those of the rest.
pub proof fn lemma_framed_all_at(children: Seq<Seq<u8>>, i: int)
    requires
        0 <= i <= children.len(),
    ensures
        framed_all(children) == framed_all(children.take(i)) + framed_all(children.skip(i)),
        framed_all(children.take(i)).len() <= framed_all(children).len(),
        i < children.len() ==> framed_all(children.skip(i)) == framed(children[i]) + framed_all(
            children.skip(i + 1),
        ),
        i < children.len() ==> framed_all(children.take(i + 1)) == framed_all(children.take(i))
            + framed(children[i]),
{
    assert(children.take(i) + children.skip(i) =~= children);
    lemma_framed_all_append(children.take(i), children.skip(i));
    if i < children.len() {
        let one = seq![children[i]];
        assert(one + children.skip(i + 1) =~= children.skip(i));
        lemma_framed_all_append(one, children.skip(i + 1));
        assert(one.drop_last() =~= Seq::<Seq<u8>>::empty());
        assert(framed_all(one) =~= framed(children[i])) by {
            reveal_with_fuel(framed_all, 2);
        }
        assert(children.take(i + 1) =~= children.take(i).push(children[i]));
        lemma_framed_all_push(children.take(i), children[i]);
    }
}

/// A binary blob, encoded and read back, is the same blob.
pub proof fn lemma_binary_roundtrip(bytes: Seq<u8>)
    ensures
        parse_binary(binary_wire(bytes)) == Ok::<Seq<u8>, NotRead>(bytes),
        type_of(binary_wire(bytes)) == Ok::<Type, ReadError>(Type::Binary),
{
    assert(body(binary_wire(bytes)) =~= bytes);
}

/// A boolean, encoded and read back, is the same boolean.
pub proof fn lemma_bool_roundtrip(value: bool)
    ensures
        parse_bool(bool_wire(value)) == Ok::<bool, NotRead>(value),
        type_of(bool_wire(value)) == Ok::<Type, ReadError>(Type::Bool),
{
}

/// The number of a file descriptor, encoded and read back, is the same
/// number.
pub proof fn lemma_fd_roundtrip(raw: u32)
    ensures
        parse_fd(fd_wire(raw)) == Ok::<u32, NotRead>(raw),
        type_of(fd_wire(raw)) == Ok::<Type, ReadError>(Type::Fd),
        fd_wire(raw).len() == 5,
{
    lemma_be_bytes_len(raw as int, 4);
    lemma_pow256_values();
    lemma_be_nat_of_small(raw as int, 4);
    assert(body(fd_wire(raw)) =~= be_bytes(raw as int, 4));
}

/// The bits of a float, encoded and read back, are the same bits.
pub proof fn lemma_float_roundtrip(bits: u64)
    ensures
        parse_float(float_wire(bits)) == Ok::<u64, NotRead>(bits),
        type_of(float_wire(bits)) == Ok::<Type, ReadError>(Type::Float),
        float_wire(bits).len() == 9,
{
    lemma_be_bytes_len(bits as int, 8);
    lemma_pow256_values();
    lemma_be_nat_of_small(bits as int, 8);
    assert(body(float_wire(bits)) =~= be_bytes(bits as int, 8));
}

/// An integer, encoded and read back, is the same integer.
pub proof fn lemma_int_roundtrip(value: int)
    ensures
        parse_int(int_wire(value)) == Ok::<int, NotRead>(value),
        type_of(int_wire(value)) == Ok::<Type, ReadError>(Type::Int),
{
    lemma_int_bytes_roundtrip(value);
    assert(body(int_wire(value)) =~= int_bytes(value));
}

/// A string, encoded and read back, is the same string.
pub proof fn lemma_str_roundtrip(bytes: Seq<u8>)
    ensures
        parse_str(str_wire(bytes)) == Ok::<Seq<u8>, NotRead>(bytes),
        type_of(str_wire(bytes)) == Ok::<Type, ReadError>(Type::Str),
{
    assert(body(str_wire(bytes)).drop_last() =~= bytes);
}

/// A timestamp, encoded and read back, is the same timestamp.
pub proof fn lemma_timestamp_wire_roundtrip(value: Timespec)
    requires
        value.wf(),
    ensures
        parse_timestamp(timestamp_wire(value)) == Ok::<Timespec, NotRead>(value),
        type_of(timestamp_wire(value)) == Ok::<Type, ReadError>(Type::Timestamp),
{
    lemma_timestamp_roundtrip(value);
    assert(body(timestamp_wire(value)) =~= timestamp_body(value));
}

/// A binary blob that was read encodes to what it was read from.
pub proof fn lemma_binary_reencode(wire: Seq<u8>)
    requires
        parse_binary(wire) is Ok,
    ensures
        binary_wire(parse_binary(wire)->Ok_0) == wire,
{
    assert(binary_wire(body(wire)) =~= wire);
}

/// A boolean that was read encodes to what it was read from.
pub proof fn lemma_bool_reencode(wire: Seq<u8>)
    requires
        parse_bool(wire) is Ok,
    ensures
        bool_wire(parse_bool(wire)->Ok_0) == wire,
{
    assert(bool_wire(parse_bool(wire)->Ok_0) =~= wire);
}

/// The number of a file descriptor that was read encodes to what it was read
/// from.
pub proof fn lemma_fd_reencode(wire: Seq<u8>)
    requires
        parse_fd(wire) is Ok,
    ensures
        fd_wire(parse_fd(wire)->Ok_0) == wire,
{
    lemma_be_nat_bound(body(wire));
    lemma_pow256_values();
    lemma_be_bytes_of_nat(body(wire));
    assert(fd_wire(parse_fd(wire)->Ok_0) =~= wire);
}

/// The bits of a float that was read encode to what they were read from.
pub proof fn lemma_float_reencode(wire: Seq<u8>)
    requires
        parse_float(wire) is Ok,
    ensures
        float_wire(parse_float(wire)->Ok_0) == wire,
{
    lemma_be_nat_bound(body(wire));
    lemma_pow256_values();
    lemma_be_bytes_of_nat(body(wire));
    assert(float_wire(parse_float(wire)->Ok_0) =~= wire);
}

/// An integer that was read from its shortest spelling encodes to what it was
/// read from.
pub proof fn lemma_int_reencode(wire: Seq<u8>)
    requires
        parse_int(wire) is Ok,
        is_minimal(body(wire)),
    ensures
        int_wire(parse_int(wire)->Ok_0) == wire,
{
    lemma_minimal_is_int_bytes(body(wire));
    assert(int_wire(be_int(body(wire))) =~= wire);
}

/// A string that was read encodes to what it was read from.
pub proof fn lemma_str_reencode(wire: Seq<u8>)
    requires
        parse_str(wire) is Ok,
    ensures
        str_wire(parse_str(wire)->Ok_0) == wire,
{
    assert(str_wire(body(wire).drop_last()) =~= wire);
}

/// A timestamp that was read from the shortest spelling of its nanoseconds
/// encodes to what it was read from.
pub proof fn lemma_timestamp_reencode(wire: Seq<u8>)
    requires
        parse_timestamp(wire) is Ok,
        is_minimal(body(wire)),
    ensures
        timestamp_wire(parse_timestamp(wire)->Ok_0) == wire,
        parse_timestamp(wire)->Ok_0.wf(),
{
    lemma_minimal_is_int_bytes(body(wire));
    let value = parse_timestamp(wire)->Ok_0;
    assert(value.nanos() == be_int(body(wire)));
    assert(timestamp_wire(value) =~= wire);
}

/// The values of a sequence, encoded and read back one after the other, are
/// the same values: behind the first `i` of them stands the value at `i`,
/// and behind all of them nothing more.
pub proof fn lemma_seq_wire_step(children: Seq<Seq<u8>>, i: int)
    requires
        0 <= i <= children.len(),
    ensures
        i < children.len() ==> seq_step(
            seq_wire(children),
            1int + framed_all(children.take(i)).len(),
        ) == (
            Some(Ok::<Seq<u8>, ReadError>(children[i])),
            1int + framed_all(children.take(i + 1)).len(),
        ),
        i == children.len() ==> seq_step(
            seq_wire(children),
            1int + framed_all(children.take(i)).len(),
        ) == (None::<Result<Seq<u8>, ReadError>>, 1int + framed_all(children.take(i)).len()),
{
    let wire = seq_wire(children);
    let offset = 1int + framed_all(children.take(i)).len();
    lemma_framed_all_at(children, i);
    assert(wire.skip(offset) =~= framed_all(children.skip(i)));
    if i < children.len() {
        lemma_parse_framed(children[i], framed_all(children.skip(i + 1)));
    } else {
        assert(children.skip(i) =~= Seq::<Seq<u8>>::empty());
    }
}

/// The keys and values of a map, encoded and read back one pair after the
/// other, are the same keys and values.
pub proof fn lemma_map_wire_step(children: Seq<Seq<u8>>, i: int)
    requires
        0 <= i,
        2 * i + 1 < children.len(),
    ensures
        map_step(map_wire(children), 1int + framed_all(children.take(2 * i)).len()) == (
            Some(Ok::<(Seq<u8>, Seq<u8>), ReadError>((children[2 * i], children[2 * i + 1]))),
            1int + framed_all(children.take(2 * i + 2)).len(),
        ),
{
    let wire = map_wire(children);
    let offset = 1int + framed_all(children.take(2 * i)).len();
    lemma_framed_all_at(children, 2 * i);
    lemma_framed_all_at(children, 2 * i + 1);
    let key = framed(children[2 * i]);
    let value = framed(children[2 * i + 1]);
    let rest = framed_all(children.skip(2 * i + 2));
    assert(wire.skip(offset) =~= key + (value + rest));
    lemma_parse_framed(children[2 * i], value + rest);
    assert(wire.skip(offset + key.len()) =~= value + rest);
    lemma_parse_framed(children[2 * i + 1], rest);
}

/// Whether `numbers` gives every file descriptor that `mapping` has registered
/// the number that `mapping` gives it.
pub open spec fn numbers_agree<M: FdMapping>(numbers: spec_fn(Fd) -> u32, mapping: &M) -> bool {
    forall|fd: Fd| #[trigger] mapping.registered().contains(fd) ==> numbers(fd) == mapping.number(fd)
}

/// The encoding of a file descriptor, rewritten: the number under which
/// `numbers` encodes the file descriptor that `convert` finds for the encoded
/// number, and the invalid number where it finds none.
///
/// A file descriptor whose body is not of four bytes holds no number, and is
/// kept as it is.
pub open spec fn rewritten_fd<C: ConvertFd>(
    source: Seq<u8>,
    convert: C,
    numbers: spec_fn(Fd) -> u32,
) -> Seq<u8> {
    match parse_fd(source) {
        Ok(raw) => match convert.fd_of(raw) {
            Ok(fd) => fd_wire(numbers(fd)),
            Err(_) => fd_wire(INVALID_FD_NUMBER),
        },
        Err(_) => source,
    }
}

/// The encoding `source`, rewritten for another table of file descriptors:
/// each file descriptor in it, at any depth of maps and sequences, is encoded
/// anew, and all else is kept as it is.
pub open spec fn rewritten<C: ConvertFd>(
    source: Seq<u8>,
    convert: C,
    numbers: spec_fn(Fd) -> u32,
) -> Seq<u8>
    decreases source.len(), 1int,
{
    if tagged(source, 6) || tagged(source, 7) {
        seq![source[0]] + rewritten_fields(body(source), convert, numbers)
    } else if tagged(source, 3) {
        rewritten_fd(source, convert, numbers)
    } else {
        source
    }
}

/// The subfields at the start of `data`, each rewritten, and what follows the
/// last complete subfield, as it is.
pub open spec fn rewritten_fields<C: ConvertFd>(
    data: Seq<u8>,
    convert: C,
    numbers: spec_fn(Fd) -> u32,
) -> Seq<u8>
    decreases data.len(), 0int,
{
    match parse_subfield(data) {
        (Some(Ok(field)), used) => {
            if 0 < used <= data.len() && field.len() < used {
                data.subrange(0, used - field.len()) + rewritten(field, convert, numbers)
                    + rewritten_fields(data.skip(used as int), convert, numbers)
            } else {
                data
            }
        },
        _ => data,
    }
}

/// The file descriptors of this process that `convert` finds for the file
/// descriptors in `source`, at any depth of maps and sequences, in the order
/// of the encoding.
pub open spec fn local_fds_in<C: ConvertFd>(source: Seq<u8>, convert: C) -> Seq<Fd>
    decreases source.len(), 1int,
{
    if tagged(source, 6) || tagged(source, 7) {
        local_fds_in_fields(body(source), convert)
    } else {
        match parse_fd(source) {
            Ok(raw) => match convert.fd_of(raw) {
                Ok(fd) => seq![fd],
                Err(_) => seq![],
            },
            Err(_) => seq![],
        }
    }
}

/// The file descriptors of this process that `convert` finds for the file
/// descriptors in the subfields at the start of `data`.
pub open spec fn local_fds_in_fields<C: ConvertFd>(data: Seq<u8>, convert: C) -> Seq<Fd>
    decreases data.len(), 0int,
{
    match parse_subfield(data) {
        (Some(Ok(field)), used) => {
            if 0 < used <= data.len() && field.len() < used {
                local_fds_in(field, convert) + local_fds_in_fields(data.skip(used as int), convert)
            } else {
                seq![]
            }
        },
        _ => seq![],
    }
}

/// Registering a run of file descriptors is registering its first part and
/// then the rest.
pub proof fn lemma_register_all_append(table: Seq<Fd>, first: Seq<Fd>, rest: Seq<Fd>)
    ensures
        register_all(table, first + rest) == register_all(register_all(table, first), rest),
    decreases first.len(),
{
    if first.len() == 0 {
        assert(first + rest =~= rest);
    } else {
        assert((first + rest).drop_first() =~= first.drop_first() + rest);
        lemma_register_all_append(register(table, first[0]), first.drop_first(), rest);
    }
}

/// A table holds what it held before file descriptors were registered, and
/// holds every one of them.
pub proof fn lemma_register_all_grows(table: Seq<Fd>, fds: Seq<Fd>)
    ensures
        forall|g: Fd| table.contains(g) ==> register_all(table, fds).contains(g),
        forall|i: int| 0 <= i < fds.len() ==> register_all(table, fds).contains(fds[i]),
    decreases fds.len(),
{
    if fds.len() > 0 {
        let t = register(table, fds[0]);
        let all = register_all(table, fds);
        lemma_register_all_grows(t, fds.drop_first());
        assert(all == register_all(t, fds.drop_first()));
        assert(t.contains(fds[0])) by {
            if !table.contains(fds[0]) {
                assert(t[table.len() as int] == fds[0]);
            }
        }
        assert forall|g: Fd| table.contains(g) implies all.contains(g) by {
            let k = choose|k: int| 0 <= k < table.len() && table[k] == g;
            assert(t[k] == g);
            assert(t.contains(g));
        }
        assert forall|i: int| 0 <= i < fds.len() implies all.contains(fds[i]) by {
            if i > 0 {
                assert(fds.drop_first()[i - 1] == fds[i]);
            }
        }
    }
}

/// Rewriting keeps the length of every encoding, and its tag.
pub proof fn lemma_rewritten_len<C: ConvertFd>(
    source: Seq<u8>,
    convert: C,
    numbers: spec_fn(Fd) -> u32,
)
    ensures
        rewritten(source, convert, numbers).len() == source.len(),
        source.len() > 0 ==> rewritten(source, convert, numbers)[0] == source[0],
    decreases source.len(), 1int,
{
    if tagged(source, 6) || tagged(source, 7) {
        lemma_rewritten_fields_len(body(source), convert, numbers);
    } else if tagged(source, 3) {
        lemma_be_bytes_len(INVALID_FD_NUMBER as int, 4);
        match parse_fd(source) {
            Ok(raw) => match convert.fd_of(raw) {
                Ok(fd) => lemma_be_bytes_len(numbers(fd) as int, 4),
                Err(_) => {},
            },
            Err(_) => {},
        }
    }
}

/// Rewriting keeps the length of subfields.
pub proof fn lemma_rewritten_fields_len<C: ConvertFd>(
    data: Seq<u8>,
    convert: C,
    numbers: spec_fn(Fd) -> u32,
)
    ensures
        rewritten_fields(data, convert, numbers).len() == data.len(),
    decreases data.len(), 0int,
{
    match parse_subfield(data) {
        (Some(Ok(field)), used) => {
            if 0 < used <= data.len() && field.len() < used {
                lemma_rewritten_len(field, convert, numbers);
                lemma_rewritten_fields_len(data.skip(used as int), convert, numbers);
            }
        },
        _ => {},
    }
}

/// Rewriting keeps the frames: where the subfields hold a subfield, what is
/// rewritten holds the subfield rewritten, of the same length at the same
/// place; and what holds no complete subfield is kept as it is.
pub proof fn lemma_rewritten_fields_frames<C: ConvertFd>(
    data: Seq<u8>,
    convert: C,
    numbers: spec_fn(Fd) -> u32,
)
    ensures
        match parse_subfield(data).0 {
            Some(Ok(field)) => parse_subfield(rewritten_fields(data, convert, numbers)) == (
                Some(Ok::<Seq<u8>, ReadError>(rewritten(field, convert, numbers))),
                parse_subfield(data).1,
            ),
            _ => rewritten_fields(data, convert, numbers) == data,
        },
{
    match parse_subfield(data) {
        (Some(Ok(field)), used) => {
            lemma_parse_subfield_bounds(data);
            lemma_rewritten_len(field, convert, numbers);
            let inner = rewritten(field, convert, numbers);
            let rest = rewritten_fields(data.skip(used as int), convert, numbers);
            lemma_parse_subfield_replace(data, inner, rest);
        },
        _ => {},
    }
}

/// An encoding without file descriptors is rewritten as it is.
pub proof fn lemma_rewritten_leaf<C: ConvertFd>(
    source: Seq<u8>,
    convert: C,
    numbers: spec_fn(Fd) -> u32,
)
    requires
        !tagged(source, 3),
        !tagged(source, 6),
        !tagged(source, 7),
    ensures
        rewritten(source, convert, numbers) == source,
        local_fds_in(source, convert) == Seq::<Fd>::empty(),
{
}

} // verus!

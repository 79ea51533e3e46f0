//! Argdata values, whatever holds them.

use crate::errors::{NoFit, NotRead, ReadError};
use crate::fd::{register_all, ConvertFd, EncodedFd, Fd, FdMapping, InvalidFd};
use crate::intvalue::IntValue;
use crate::mapiterator::MapIterator;
use crate::seqiterator::SeqIterator;
use crate::strvalue::StrValue;
use crate::timespec::Timespec;
use crate::try_from::TryFrom;
use crate::value::{Type, Value};
use crate::wire::{
    numbers_agree, parse_binary, parse_bool, parse_fd, parse_float, parse_int, parse_null,
    parse_str, parse_timestamp, tagged, type_of,
};
use std::marker::PhantomData;
use vstd::prelude::*;
use vstd::string::StringSliceAdditionalSpecFns;
use vstd::utf8::valid_utf8;

verus! {

/// The error in `r`, if `r` holds one.
pub open spec fn error_of<T>(r: Result<T, NotRead>) -> Option<ReadError> {
    match r {
        Err(NotRead::Error(e)) => Some(e),
        _ => None,
    }
}

/// The error that reading the value with the encoding `wire` gives: that of
/// an unknown tag, or that of a body that is malformed for its tag.
pub open spec fn read_error(wire: Seq<u8>) -> Option<ReadError> {
    match type_of(wire) {
        Err(e) => Some(e),
        Ok(Type::Bool) => error_of(parse_bool(wire)),
        Ok(Type::Fd) => error_of(parse_fd(wire)),
        Ok(Type::Float) => error_of(parse_float(wire)),
        Ok(Type::Str) => error_of(parse_str(wire)),
        Ok(Type::Timestamp) => error_of(parse_timestamp(wire)),
        Ok(_) => None,
    }
}

/// Whether `v` is the value that `this` holds, where `this` has the encoding
/// `wire`, converts file descriptor numbers as `fd_of` does, and has its
/// cookies at the offsets that `offset_of` gives.
///
/// An iterator in `v` stands at the first subfield of `this`.
pub open spec fn value_matches<'a, 'd, R, C: ConvertFd>(
    v: Value<'a, 'd, R, C>,
    this: &R,
    wire: Seq<u8>,
    fd_of: spec_fn(u32) -> Result<Fd, InvalidFd>,
    offset_of: spec_fn(usize) -> Option<int>,
) -> bool {
    match v {
        Value::Null => wire.len() == 0,
        Value::Binary(bytes) => parse_binary(wire) == Ok::<Seq<u8>, NotRead>(bytes@),
        Value::Bool(value) => parse_bool(wire) == Ok::<bool, NotRead>(value),
        Value::Fd(fd) => parse_fd(wire) == Ok::<u32, NotRead>(fd.raw) && fd.convert_fd.fd_of(fd.raw)
            == fd_of(fd.raw),
        Value::Float(bits) => parse_float(wire) == Ok::<u64, NotRead>(bits),
        Value::Int(value) => parse_int(wire) == Ok::<int, NotRead>(value@),
        Value::Str(value) => parse_str(wire) == Ok::<Seq<u8>, NotRead>(value@),
        Value::Timestamp(value) => parse_timestamp(wire) == Ok::<Timespec, NotRead>(value),
        Value::Mapping(it) => tagged(wire, 6) && it.map == this && offset_of(it.cookie) == Some(
            1int,
        ),
        Value::Sequence(it) => tagged(wire, 7) && it.seq == this && offset_of(it.cookie) == Some(
            1int,
        ),
    }
}

/// Whether two values are the same but for what holds them: they are of one
/// type, and hold the same bytes, boolean, number or point in time.
///
/// Two file descriptors are the same when they have the same number, two
/// floats when they have the same bits. Maps and sequences are compared no
/// further than by their type: what they hold is read from their iterators.
pub open spec fn same_value<'a, 'b, 'd, A, B, C, D>(
    v: Value<'a, 'd, A, C>,
    w: Value<'b, 'd, B, D>,
) -> bool {
    match (v, w) {
        (Value::Null, Value::Null) => true,
        (Value::Binary(x), Value::Binary(y)) => x@ == y@,
        (Value::Bool(x), Value::Bool(y)) => x == y,
        (Value::Fd(x), Value::Fd(y)) => x.raw == y.raw,
        (Value::Float(x), Value::Float(y)) => x == y,
        (Value::Int(x), Value::Int(y)) => x@ == y@,
        (Value::Str(x), Value::Str(y)) => x@ == y@,
        (Value::Timestamp(x), Value::Timestamp(y)) => x == y,
        (Value::Mapping(_), Value::Mapping(_)) => true,
        (Value::Sequence(_), Value::Sequence(_)) => true,
        _ => false,
    }
}

/// Values with the same encoding read as the same value, whatever holds
/// them: so does a value that was built and the encoding of it, decoded.
pub proof fn lemma_same_encoding_same_value<'a, 'b, 'd, A: Argdata<'d>, B: Argdata<'d>>(
    a: &A,
    b: &B,
    v: Value<'a, 'd, A, A::Convert>,
    w: Value<'b, 'd, B, B::Convert>,
)
    requires
        a.wire() == b.wire(),
        value_matches(
            v,
            a,
            a.wire(),
            |raw: u32| a.fd_of(raw),
            |cookie: usize| a.offset_of(cookie),
        ),
        value_matches(
            w,
            b,
            b.wire(),
            |raw: u32| b.fd_of(raw),
            |cookie: usize| b.offset_of(cookie),
        ),
    ensures
        same_value(v, w),
        read_error(a.wire()) is None,
{
}

/// Whether the mapping `after` is the mapping `before` with the file
/// descriptors `fds` registered in it, in turn: it numbers those that `before`
/// had registered as `before` did.
pub open spec fn registered_in<M: FdMapping>(before: &M, after: &M, fds: Seq<Fd>) -> bool {
    &&& after.registered() == register_all(before.registered(), fds)
    &&& forall|fd: Fd| #[trigger]
        before.registered().contains(fd) ==> after.number(fd) == before.number(fd)
}

/// An argdata value.
///
/// Whatever holds the value, it reads as its encoding does: every method that
/// reads returns what [`crate::wire`] gives for the bytes of
/// [`Argdata::wire`].
pub trait Argdata<'d>: Sized {
    /// What converts the file descriptor numbers in the value to file
    /// descriptors of this process.
    type Convert: ConvertFd;

    /// The encoding of the value, with the file descriptors in it under the
    /// numbers that they have.
    spec fn wire(&self) -> Seq<u8>;

    /// The file descriptors of this process that the file descriptors in the
    /// value stand for, in the order of the encoding.
    spec fn local_fds(&self) -> Seq<Fd>;

    /// The encoding of the value with every file descriptor in it under the
    /// number that `numbers` gives to what it stands for, and under the
    /// invalid number if it stands for nothing. All else is as in
    /// [`Argdata::wire`], and the length is the same.
    spec fn remapped(&self, numbers: spec_fn(Fd) -> u32) -> Seq<u8>;

    /// The file descriptor of this process that the number `raw` stands for,
    /// where the value is a file descriptor.
    spec fn fd_of(&self, raw: u32) -> Result<Fd, InvalidFd>;

    /// The offset in the encoding at which an iterator with the cookie
    /// `cookie` stands, if it stands anywhere.
    spec fn offset_of(&self, cookie: usize) -> Option<int>;

    /// Reads the value.
    fn read<'a>(&'a self) -> (r: Result<Value<'a, 'd, Self, Self::Convert>, ReadError>) where
        'd: 'a,

        ensures
            match r {
                Ok(v) => value_matches(
                    v,
                    self,
                    self.wire(),
                    |raw: u32| self.fd_of(raw),
                    |cookie: usize| self.offset_of(cookie),
                ),
                Err(e) => read_error(self.wire()) == Some(e),
            },
    {
        match self.get_type() {
            Err(e) => Err(e),
            Ok(Type::Null) => Ok(Value::Null),
            Ok(Type::Binary) => match self.read_binary() {
                Ok(v) => Ok(Value::Binary(v)),
                Err(NotRead::Error(e)) => Err(e),
                Err(NotRead::NoFit(_)) => vstd::pervasive::unreached(),
            },
            Ok(Type::Bool) => match self.read_bool() {
                Ok(v) => Ok(Value::Bool(v)),
                Err(NotRead::Error(e)) => Err(e),
                Err(NotRead::NoFit(_)) => vstd::pervasive::unreached(),
            },
            Ok(Type::Fd) => match self.read_encoded_fd() {
                Ok(v) => Ok(Value::Fd(v)),
                Err(NotRead::Error(e)) => Err(e),
                Err(NotRead::NoFit(_)) => vstd::pervasive::unreached(),
            },
            Ok(Type::Float) => match self.read_float() {
                Ok(v) => Ok(Value::Float(v)),
                Err(NotRead::Error(e)) => Err(e),
                Err(NotRead::NoFit(_)) => vstd::pervasive::unreached(),
            },
            Ok(Type::Int) => match self.read_int_value() {
                Ok(v) => Ok(Value::Int(v)),
                Err(NotRead::Error(e)) => Err(e),
                Err(NotRead::NoFit(_)) => vstd::pervasive::unreached(),
            },
            Ok(Type::Str) => match self.read_str_value() {
                Ok(v) => Ok(Value::Str(v)),
                Err(NotRead::Error(e)) => Err(e),
                Err(NotRead::NoFit(_)) => vstd::pervasive::unreached(),
            },
            Ok(Type::Timestamp) => match self.read_timestamp() {
                Ok(v) => Ok(Value::Timestamp(v)),
                Err(NotRead::Error(e)) => Err(e),
                Err(NotRead::NoFit(_)) => vstd::pervasive::unreached(),
            },
            Ok(Type::Mapping) => match self.read_map() {
                Ok(v) => Ok(Value::Mapping(v)),
                Err(NotRead::Error(e)) => Err(e),
                Err(NotRead::NoFit(_)) => vstd::pervasive::unreached(),
            },
            Ok(Type::Sequence) => match self.read_seq() {
                Ok(v) => Ok(Value::Sequence(v)),
                Err(NotRead::Error(e)) => Err(e),
                Err(NotRead::NoFit(_)) => vstd::pervasive::unreached(),
            },
        }
    }

    /// Reads the type of the value.
    fn get_type(&self) -> (r: Result<Type, ReadError>)
        ensures
            r == type_of(self.wire()),
    ;

    /// Checks that the value is null.
    fn read_null(&self) -> (r: Result<(), NotRead>)
        ensures
            r == parse_null(self.wire()),
    ;

    /// Reads the value if it is a binary blob.
    fn read_binary(&self) -> (r: Result<&'d [u8], NotRead>)
        ensures
            match r {
                Ok(bytes) => parse_binary(self.wire()) == Ok::<Seq<u8>, NotRead>(bytes@),
                Err(e) => parse_binary(self.wire()) == Err::<Seq<u8>, NotRead>(e),
            },
    ;

    /// Reads the value if it is a boolean.
    fn read_bool(&self) -> (r: Result<bool, NotRead>)
        ensures
            r == parse_bool(self.wire()),
    ;

    /// Reads the value if it is a file descriptor.
    ///
    /// What is returned holds the number as it is encoded; converting it to a
    /// file descriptor of this process may still fail.
    fn read_encoded_fd<'a>(&'a self) -> (r: Result<EncodedFd<&'a Self::Convert>, NotRead>) where
        'd: 'a,

        ensures
            match r {
                Ok(fd) => parse_fd(self.wire()) == Ok::<u32, NotRead>(fd.raw)
                    && fd.convert_fd.fd_of(fd.raw) == self.fd_of(fd.raw),
                Err(e) => parse_fd(self.wire()) == Err::<u32, NotRead>(e),
            },
    ;

    /// Reads the value if it is a float, and returns the bits of the float.
    fn read_float(&self) -> (r: Result<u64, NotRead>)
        ensures
            r == parse_float(self.wire()),
    ;

    /// Reads the value if it is an integer.
    fn read_int_value(&self) -> (r: Result<IntValue<'d>, NotRead>)
        ensures
            match r {
                Ok(value) => parse_int(self.wire()) == Ok::<int, NotRead>(value@),
                Err(e) => parse_int(self.wire()) == Err::<int, NotRead>(e),
            },
    ;

    /// Gives an iterator over the value if it is a map.
    fn read_map<'a>(&'a self) -> (r: Result<MapIterator<'a, 'd, Self>, NotRead>) where 'd: 'a
        ensures
            match r {
                Ok(it) => tagged(self.wire(), 6) && it.map == self && self.offset_of(it.cookie)
                    == Some(1int),
                Err(e) => !tagged(self.wire(), 6) && e == NotRead::NoFit(NoFit::DifferentType),
            },
    ;

    /// Gives an iterator over the value if it is a sequence.
    fn read_seq<'a>(&'a self) -> (r: Result<SeqIterator<'a, 'd, Self>, NotRead>) where 'd: 'a
        ensures
            match r {
                Ok(it) => tagged(self.wire(), 7) && it.seq == self && self.offset_of(it.cookie)
                    == Some(1int),
                Err(e) => !tagged(self.wire(), 7) && e == NotRead::NoFit(NoFit::DifferentType),
            },
    ;

    /// Reads the value if it is a string.
    fn read_str_value(&self) -> (r: Result<StrValue<'d>, NotRead>)
        ensures
            match r {
                Ok(value) => parse_str(self.wire()) == Ok::<Seq<u8>, NotRead>(value@),
                Err(e) => parse_str(self.wire()) == Err::<Seq<u8>, NotRead>(e),
            },
    ;

    /// Reads the value if it is a timestamp.
    fn read_timestamp(&self) -> (r: Result<Timespec, NotRead>)
        ensures
            r == parse_timestamp(self.wire()),
    ;

    /// The number of bytes that [`Argdata::serialize`] appends, with a
    /// mapping or without.
    fn serialized_length(&self) -> (n: usize)
        ensures
            n == self.wire().len(),
    ;

    /// Appends the encoding of the value to `out`.
    ///
    /// Without a mapping, file descriptors are written under the numbers that
    /// they have. With one, each file descriptor is converted to one of this
    /// process, registered in the mapping, and written under the number that
    /// the mapping gives it; one that cannot be converted is written under
    /// the invalid number. The numbers take the place of numbers: as many
    /// bytes are written with a mapping as without.
    fn serialize<M: FdMapping>(&self, out: &mut Vec<u8>, fd_map: Option<&mut M>)
        ensures
            final(out)@.len() == old(out)@.len() + self.wire().len(),
            fd_map is None ==> final(out)@ == old(out)@ + self.wire(),
            fd_map matches Some(mapping) ==> {
                &&& registered_in(mapping, final(mapping), self.local_fds())
                &&& forall|numbers: spec_fn(Fd) -> u32| #[trigger]
                    numbers_agree(numbers, final(mapping)) ==> final(out)@ == old(out)@
                        + self.remapped(numbers)
            },
    ;
}

/// An argdata value that is held in memory, so that reading it cannot fail.
///
/// Such a value gives what it holds all at once, with [`Built::read_value`],
/// and is an [`Argdata`] by that: the methods that read by type are derived
/// from it.
pub trait Built<'d>: Sized {
    /// What converts the file descriptor numbers in the value to file
    /// descriptors of this process.
    type Convert: ConvertFd;

    /// The encoding of the value: see [`Argdata::wire`].
    spec fn encoding(&self) -> Seq<u8>;

    /// The file descriptors of this process in the value: see
    /// [`Argdata::local_fds`].
    spec fn fds(&self) -> Seq<Fd>;

    /// The encoding of the value with its file descriptors under other
    /// numbers: see [`Argdata::remapped`].
    spec fn encoding_with(&self, numbers: spec_fn(Fd) -> u32) -> Seq<u8>;

    /// The file descriptor of this process that a number stands for: see
    /// [`Argdata::fd_of`].
    spec fn converts(&self, raw: u32) -> Result<Fd, InvalidFd>;

    /// The offset in the encoding at which an iterator stands: see
    /// [`Argdata::offset_of`].
    spec fn place_of(&self, cookie: usize) -> Option<int>;

    /// What the value holds.
    fn read_value<'a>(&'a self) -> (v: Value<'a, 'd, Self, Self::Convert>) where 'd: 'a
        ensures
            value_matches(
                v,
                self,
                self.encoding(),
                |raw: u32| self.converts(raw),
                |cookie: usize| self.place_of(cookie),
            ),
    ;

    /// The number of bytes of the encoding.
    fn encoded_length(&self) -> (n: usize)
        ensures
            n == self.encoding().len(),
    ;

    /// Appends the encoding of the value to `out`: see
    /// [`Argdata::serialize`].
    fn encode<M: FdMapping>(&self, out: &mut Vec<u8>, fd_map: Option<&mut M>)
        ensures
            final(out)@.len() == old(out)@.len() + self.encoding().len(),
            fd_map is None ==> final(out)@ == old(out)@ + self.encoding(),
            fd_map matches Some(mapping) ==> {
                &&& registered_in(mapping, final(mapping), self.fds())
                &&& forall|numbers: spec_fn(Fd) -> u32| #[trigger]
                    numbers_agree(numbers, final(mapping)) ==> final(out)@ == old(out)@
                        + self.encoding_with(numbers)
            },
    ;
}

impl<'d, T: Built<'d>> Argdata<'d> for T {
    type Convert = <T as Built<'d>>::Convert;

    open spec fn wire(&self) -> Seq<u8> {
        self.encoding()
    }

    open spec fn local_fds(&self) -> Seq<Fd> {
        self.fds()
    }

    open spec fn remapped(&self, numbers: spec_fn(Fd) -> u32) -> Seq<u8> {
        self.encoding_with(numbers)
    }

    open spec fn fd_of(&self, raw: u32) -> Result<Fd, InvalidFd> {
        self.converts(raw)
    }

    open spec fn offset_of(&self, cookie: usize) -> Option<int> {
        self.place_of(cookie)
    }

    fn read<'a>(&'a self) -> (r: Result<Value<'a, 'd, Self, Self::Convert>, ReadError>) where
        'd: 'a,
     {
        Ok(self.read_value())
    }

    fn get_type(&self) -> (r: Result<Type, ReadError>) {
        Ok(self.read_value().get_type())
    }

    fn read_null(&self) -> (r: Result<(), NotRead>) {
        match self.read_value() {
            Value::Null => Ok(()),
            _ => Err(NotRead::NoFit(NoFit::DifferentType)),
        }
    }

    fn read_binary(&self) -> (r: Result<&'d [u8], NotRead>) {
        match self.read_value() {
            Value::Binary(v) => Ok(v),
            _ => Err(NotRead::NoFit(NoFit::DifferentType)),
        }
    }

    fn read_bool(&self) -> (r: Result<bool, NotRead>) {
        match self.read_value() {
            Value::Bool(v) => Ok(v),
            _ => Err(NotRead::NoFit(NoFit::DifferentType)),
        }
    }

    fn read_encoded_fd<'a>(&'a self) -> (r: Result<EncodedFd<&'a Self::Convert>, NotRead>) where
        'd: 'a,
     {
        match self.read_value() {
            Value::Fd(v) => Ok(v),
            _ => Err(NotRead::NoFit(NoFit::DifferentType)),
        }
    }

    fn read_float(&self) -> (r: Result<u64, NotRead>) {
        match self.read_value() {
            Value::Float(v) => Ok(v),
            _ => Err(NotRead::NoFit(NoFit::DifferentType)),
        }
    }

    fn read_int_value(&self) -> (r: Result<IntValue<'d>, NotRead>) {
        match self.read_value() {
            Value::Int(v) => Ok(v),
            _ => Err(NotRead::NoFit(NoFit::DifferentType)),
        }
    }

    fn read_map<'a>(&'a self) -> (r: Result<MapIterator<'a, 'd, Self>, NotRead>) where 'd: 'a {
        match self.read_value() {
            Value::Mapping(v) => Ok(v),
            _ => Err(NotRead::NoFit(NoFit::DifferentType)),
        }
    }

    fn read_seq<'a>(&'a self) -> (r: Result<SeqIterator<'a, 'd, Self>, NotRead>) where 'd: 'a {
        match self.read_value() {
            Value::Sequence(v) => Ok(v),
            _ => Err(NotRead::NoFit(NoFit::DifferentType)),
        }
    }

    fn read_str_value(&self) -> (r: Result<StrValue<'d>, NotRead>) {
        match self.read_value() {
            Value::Str(v) => Ok(v),
            _ => Err(NotRead::NoFit(NoFit::DifferentType)),
        }
    }

    fn read_timestamp(&self) -> (r: Result<Timespec, NotRead>) {
        match self.read_value() {
            Value::Timestamp(v) => Ok(v),
            _ => Err(NotRead::NoFit(NoFit::DifferentType)),
        }
    }

    fn serialized_length(&self) -> (n: usize) {
        self.encoded_length()
    }

    fn serialize<M: FdMapping>(&self, out: &mut Vec<u8>, fd_map: Option<&mut M>) {
        self.encode(out, fd_map)
    }
}

/// A reference to a value that is held in memory is such a value.
impl<'r, 'd, A: Built<'d>> Built<'d> for &'r A {
    type Convert = <A as Built<'d>>::Convert;

    open spec fn encoding(&self) -> Seq<u8> {
        (**self).encoding()
    }

    open spec fn fds(&self) -> Seq<Fd> {
        (**self).fds()
    }

    open spec fn encoding_with(&self, numbers: spec_fn(Fd) -> u32) -> Seq<u8> {
        (**self).encoding_with(numbers)
    }

    open spec fn converts(&self, raw: u32) -> Result<Fd, InvalidFd> {
        (**self).converts(raw)
    }

    open spec fn place_of(&self, cookie: usize) -> Option<int> {
        (**self).place_of(cookie)
    }

    fn read_value<'a>(&'a self) -> (v: Value<'a, 'd, Self, Self::Convert>) where 'd: 'a {
        match (**self).read_value() {
            Value::Null => Value::Null,
            Value::Binary(v) => Value::Binary(v),
            Value::Bool(v) => Value::Bool(v),
            Value::Fd(v) => Value::Fd(v),
            Value::Float(v) => Value::Float(v),
            Value::Int(v) => Value::Int(v),
            Value::Str(v) => Value::Str(v),
            Value::Timestamp(v) => Value::Timestamp(v),
            Value::Mapping(it) => Value::Mapping(MapIterator {
                map: self,
                cookie: it.cookie,
                data: PhantomData,
            }),
            Value::Sequence(it) => Value::Sequence(SeqIterator {
                seq: self,
                cookie: it.cookie,
                data: PhantomData,
            }),
        }
    }

    fn encoded_length(&self) -> (n: usize) {
        (**self).encoded_length()
    }

    fn encode<M: FdMapping>(&self, out: &mut Vec<u8>, fd_map: Option<&mut M>) {
        (**self).encode(out, fd_map)
    }
}

/// More ways to read an argdata value.
pub trait ArgdataExt<'d>: Argdata<'d> {
    /// Reads an integer, and converts it to the type asked for if it fits.
    fn read_int<T: TryFrom<IntValue<'d>>>(&self) -> (r: Result<T, NotRead>)
        ensures
            match parse_int(self.wire()) {
                Err(e) => r == Err::<T, NotRead>(e),
                Ok(i) => exists|value: IntValue<'d>|
                    value@ == i && value.wf() && r == match #[trigger] T::try_from_spec(value) {
                        Ok(converted) => Ok::<T, NotRead>(converted),
                        Err(_) => Err(NotRead::NoFit(NoFit::OutOfRange)),
                    },
            },
    ;

    /// Reads a file descriptor, and converts it to one of this process.
    fn read_fd(&self) -> (r: Result<Fd, NotRead>)
        ensures
            r == match parse_fd(self.wire()) {
                Err(e) => Err::<Fd, NotRead>(e),
                Ok(raw) => match self.fd_of(raw) {
                    Ok(fd) => Ok(fd),
                    Err(_) => Err(NotRead::Error(ReadError::InvalidFdNumber(raw))),
                },
            },
    ;

    /// Reads a string, and checks that it is valid UTF-8.
    fn read_str(&self) -> (r: Result<&'d str, NotRead>)
        ensures
            match parse_str(self.wire()) {
                Err(e) => r == Err::<&'d str, NotRead>(e),
                Ok(bytes) => match r {
                    Ok(s) => valid_utf8(bytes) && s.spec_bytes() == bytes,
                    Err(e) => !valid_utf8(bytes) && e == NotRead::Error(ReadError::InvalidUtf8),
                },
            },
    ;
}

impl<'d, A: Argdata<'d>> ArgdataExt<'d> for A {
    fn read_int<T: TryFrom<IntValue<'d>>>(&self) -> (r: Result<T, NotRead>) {
        match self.read_int_value() {
            Err(e) => Err(e),
            Ok(value) => {
                proof {
                    use_type_invariant(value);
                }
                match T::try_from(value) {
                    Ok(converted) => Ok(converted),
                    Err(_) => Err(NotRead::NoFit(NoFit::OutOfRange)),
                }
            },
        }
    }

    fn read_fd(&self) -> (r: Result<Fd, NotRead>) {
        match self.read_encoded_fd() {
            Err(e) => Err(e),
            Ok(encoded) => match encoded.fd() {
                Ok(fd) => Ok(fd),
                Err(_) => Err(NotRead::Error(ReadError::InvalidFdNumber(encoded.raw))),
            },
        }
    }

    fn read_str(&self) -> (r: Result<&'d str, NotRead>) {
        match self.read_str_value() {
            Err(e) => Err(e),
            Ok(value) => match value.as_str() {
                Ok(s) => Ok(s),
                Err(_) => Err(NotRead::Error(ReadError::InvalidUtf8)),
            },
        }
    }
}

} // verus!

//! The types of argdata values, and the values themselves.

use crate::fd::EncodedFd;
use crate::intvalue::IntValue;
use crate::mapiterator::MapIterator;
use crate::seqiterator::SeqIterator;
use crate::strvalue::StrValue;
use crate::timespec::Timespec;
use vstd::prelude::*;

verus! {

/// The type of an argdata value.
#[derive(Debug, Clone, Copy, PartialEq, Eq, Structural, Hash)]
pub enum Type {
    Null,
    Binary,
    Bool,
    Fd,
    Float,
    Int,
    Str,
    Timestamp,
    Mapping,
    Sequence,
}

/// A borrowed argdata value, read from the argdata `R`, in which `C` converts
/// the file descriptor numbers.
///
/// A float is held as its bits. A map and a sequence are held as the iterator
/// over what they hold.
#[derive(Clone, Copy, Debug)]
pub enum Value<'a, 'd, R, C> {
    Null,
    Binary(&'d [u8]),
    Bool(bool),
    Fd(EncodedFd<&'a C>),
    Float(u64),
    Int(IntValue<'d>),
    Str(StrValue<'d>),
    Timestamp(Timespec),
    Mapping(MapIterator<'a, 'd, R>),
    Sequence(SeqIterator<'a, 'd, R>),
}

impl<'a, 'd, R, C> Value<'a, 'd, R, C> {
    /// The type of the value.
    pub open spec fn type_of(&self) -> Type {
        match self {
            Value::Null => Type::Null,
            Value::Binary(_) => Type::Binary,
            Value::Bool(_) => Type::Bool,
            Value::Fd(_) => Type::Fd,
            Value::Float(_) => Type::Float,
            Value::Int(_) => Type::Int,
            Value::Str(_) => Type::Str,
            Value::Timestamp(_) => Type::Timestamp,
            Value::Mapping(_) => Type::Mapping,
            Value::Sequence(_) => Type::Sequence,
        }
    }

    /// The type of the value.
    pub fn get_type(&self) -> (t: Type)
        ensures
            t == self.type_of(),
    {
        match self {
            Value::Null => Type::Null,
            Value::Binary(_) => Type::Binary,
            Value::Bool(_) => Type::Bool,
            Value::Fd(_) => Type::Fd,
            Value::Float(_) => Type::Float,
            Value::Int(_) => Type::Int,
            Value::Str(_) => Type::Str,
            Value::Timestamp(_) => Type::Timestamp,
            Value::Mapping(_) => Type::Mapping,
            Value::Sequence(_) => Type::Sequence,
        }
    }
}

} // verus!

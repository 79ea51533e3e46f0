//! Integers of a fixed width.

use crate::argdata::Built;
use crate::fd::{register_all, Fd, FdMapping, InvalidFd, NoConvert};
use crate::value::Value;
use vstd::prelude::*;
use crate::intvalue::{lemma_int_bytes_roundtrip, Integer};
use crate::wire::{int_wire, lemma_int_roundtrip};

verus! {

/// An argdata value that is an integer of a fixed width.
#[derive(Clone, Copy, PartialEq, Eq, PartialOrd, Ord, Hash, Debug)]
pub struct Int<T> {
    pub value: T,
}

/// An argdata value that is the integer `value`.
pub fn integer<T: Integer>(value: T) -> (r: Int<T>)
    ensures
        r.value == value,
{
    Int { value }
}

impl<T: Copy> Int<T> {
    /// The integer.
    pub fn value(&self) -> (value: T)
        ensures
            value == self.value,
    {
        self.value
    }
}

impl<'d, T: Integer> Built<'d> for Int<T> {
    type Convert = NoConvert;

    open spec fn encoding(&self) -> Seq<u8> {
        int_wire(self.value.as_int())
    }

    open spec fn fds(&self) -> Seq<Fd> {
        seq![]
    }

    open spec fn encoding_with(&self, numbers: spec_fn(Fd) -> u32) -> Seq<u8> {
        self.encoding()
    }

    open spec fn converts(&self, raw: u32) -> Result<Fd, InvalidFd> {
        Err(InvalidFd)
    }

    open spec fn place_of(&self, cookie: usize) -> Option<int> {
        None
    }

    fn read_value<'a>(&'a self) -> (v: Value<'a, 'd, Self, NoConvert>) where 'd: 'a {
        proof {
            lemma_int_roundtrip(self.value.as_int());
        }
        Value::Int(self.value.int_value())
    }

    fn encoded_length(&self) -> (n: usize) {
        let value = self.value.int_value();
        proof {
            use_type_invariant(value);
            value.lemma_machine_length();
            lemma_int_bytes_roundtrip(value@);
        }
        value.serialized_length() + 1
    }

    fn encode<M: FdMapping>(&self, out: &mut Vec<u8>, fd_map: Option<&mut M>) {
        out.push(5);
        self.value.int_value().serialize(out);
        proof {
            reveal_with_fuel(register_all, 1);
            assert(out@ =~= old(out)@ + self.encoding());
        }
    }
}

} // verus!

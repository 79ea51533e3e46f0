//! Booleans.

use crate::argdata::Built;
use crate::fd::{register_all, Fd, FdMapping, InvalidFd, NoConvert};
use crate::value::Value;
use vstd::prelude::*;
use crate::wire::bool_wire;

verus! {

/// An argdata value that is a boolean.
#[derive(Clone, Copy, PartialEq, Eq, PartialOrd, Ord, Hash, Debug)]
pub struct Bool {
    pub value: bool,
}

/// An argdata value that is the boolean `value`.
pub fn bool(value: bool) -> (r: Bool)
    ensures
        r.value == value,
{
    Bool { value }
}

impl Bool {
    /// The boolean.
    pub fn value(&self) -> (value: bool)
        ensures
            value == self.value,
    {
        self.value
    }
}

impl<'d> Built<'d> for Bool {
    type Convert = NoConvert;

    open spec fn encoding(&self) -> Seq<u8> {
        bool_wire(self.value)
    }

    open spec fn fds(&self) -> Seq<Fd> {
        seq![]
    }

    open spec fn encoding_with(&self, numbers: spec_fn(Fd) -> u32) -> Seq<u8> {
        self.encoding()
    }

    open spec fn converts(&self, raw: u32) -> Result<Fd, InvalidFd> {
        Err(InvalidFd)
    }

    open spec fn place_of(&self, cookie: usize) -> Option<int> {
        None
    }

    fn read_value<'a>(&'a self) -> (v: Value<'a, 'd, Self, NoConvert>) where 'd: 'a {
        Value::Bool(self.value)
    }

    fn encoded_length(&self) -> (n: usize) {
        if self.value {
            2
        } else {
            1
        }
    }

    fn encode<M: FdMapping>(&self, out: &mut Vec<u8>, fd_map: Option<&mut M>) {
        out.push(2);
        if self.value {
            out.push(1);
        }
        proof {
            reveal_with_fuel(register_all, 1);
            assert(out@ =~= old(out)@ + self.encoding());
        }
    }
}

} // verus!

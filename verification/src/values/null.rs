//! The value null.

use crate::argdata::Built;
use crate::fd::{register_all, Fd, FdMapping, InvalidFd, NoConvert};
use crate::value::Value;
use vstd::prelude::*;

verus! {

/// The argdata value null.
#[derive(Clone, Copy, PartialEq, Eq, PartialOrd, Ord, Hash, Debug)]
pub struct Null;

/// An argdata value that is null.
pub fn null() -> Null {
    Null
}

impl<'d> Built<'d> for Null {
    type Convert = NoConvert;

    /// Null is encoded as no bytes at all.
    open spec fn encoding(&self) -> Seq<u8> {
        seq![]
    }

    open spec fn fds(&self) -> Seq<Fd> {
        seq![]
    }

    open spec fn encoding_with(&self, numbers: spec_fn(Fd) -> u32) -> Seq<u8> {
        self.encoding()
    }

    open spec fn converts(&self, raw: u32) -> Result<Fd, InvalidFd> {
        Err(InvalidFd)
    }

    open spec fn place_of(&self, cookie: usize) -> Option<int> {
        None
    }

    fn read_value<'a>(&'a self) -> (v: Value<'a, 'd, Self, NoConvert>) where 'd: 'a {
        Value::Null
    }

    fn encoded_length(&self) -> (n: usize) {
        0
    }

    fn encode<M: FdMapping>(&self, out: &mut Vec<u8>, fd_map: Option<&mut M>) {
        proof {
            reveal_with_fuel(register_all, 1);
            assert(out@ =~= out@ + self.encoding());
        }
    }
}

} // verus!

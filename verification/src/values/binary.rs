//! Binary blobs.

use crate::argdata::Built;
use crate::endian::append;
use crate::fd::{register_all, Fd, FdMapping, InvalidFd, NoConvert};
use crate::value::Value;
use vstd::prelude::*;
use crate::wire::{binary_wire, body};

verus! {

/// An argdata value that is a binary blob.
#[derive(Clone, Copy, PartialEq, Eq, PartialOrd, Ord, Hash, Debug)]
pub struct Binary<'d> {
    value: &'d [u8],
}

impl<'d> View for Binary<'d> {
    type V = Seq<u8>;

    /// The bytes of the blob.
    closed spec fn view(&self) -> Seq<u8> {
        self.value@
    }
}

/// An argdata value that is the binary blob `value`.
pub fn binary<'d>(value: &'d [u8]) -> (r: Binary<'d>)
    requires
        value@.len() < usize::MAX,
    ensures
        r@ == value@,
{
    Binary { value }
}

impl<'d> Binary<'d> {
    #[verifier::type_invariant]
    spec fn wf(self) -> bool {
        self.value@.len() < usize::MAX
    }

    /// The bytes of the blob.
    pub fn bytes(&self) -> (bytes: &'d [u8])
        ensures
            bytes@ == self@,
    {
        self.value
    }
}

impl<'d> Built<'d> for Binary<'d> {
    type Convert = NoConvert;

    open spec fn encoding(&self) -> Seq<u8> {
        binary_wire(self@)
    }

    open spec fn fds(&self) -> Seq<Fd> {
        seq![]
    }

    open spec fn encoding_with(&self, numbers: spec_fn(Fd) -> u32) -> Seq<u8> {
        self.encoding()
    }

    open spec fn converts(&self, raw: u32) -> Result<Fd, InvalidFd> {
        Err(InvalidFd)
    }

    open spec fn place_of(&self, cookie: usize) -> Option<int> {
        None
    }

    fn read_value<'a>(&'a self) -> (v: Value<'a, 'd, Self, NoConvert>) where 'd: 'a {
        assert(body(self.encoding()) =~= self@);
        Value::Binary(self.value)
    }

    fn encoded_length(&self) -> (n: usize) {
        proof {
            use_type_invariant(self);
        }
        self.value.len() + 1
    }

    fn encode<M: FdMapping>(&self, out: &mut Vec<u8>, fd_map: Option<&mut M>) {
        out.push(1);
        append(out, self.value);
        proof {
            reveal_with_fuel(register_all, 1);
            assert(out@ =~= old(out)@ + self.encoding());
        }
    }
}

} // verus!

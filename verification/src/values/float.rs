//! Floats, held as their bits.

use crate::argdata::Built;
use crate::endian::append;
use crate::fd::{register_all, Fd, FdMapping, InvalidFd, NoConvert};
use crate::value::Value;
use vstd::prelude::*;
use crate::endian::u64_bytes;
use crate::wire::{float_wire, lemma_float_roundtrip};

verus! {

/// An argdata value that is a float of 64 bits.
///
/// The float is held as its bits in the IEEE 754 format, and is encoded as
/// those bits, most significant byte first.
#[derive(Clone, Copy, PartialEq, Eq, Hash, Debug)]
pub struct Float {
    pub bits: u64,
}

/// An argdata value that is the float with the bits `bits`.
pub fn float(bits: u64) -> (r: Float)
    ensures
        r.bits == bits,
{
    Float { bits }
}

impl Float {
    /// The bits of the float.
    pub fn value(&self) -> (bits: u64)
        ensures
            bits == self.bits,
    {
        self.bits
    }
}

impl<'d> Built<'d> for Float {
    type Convert = NoConvert;

    open spec fn encoding(&self) -> Seq<u8> {
        float_wire(self.bits)
    }

    open spec fn fds(&self) -> Seq<Fd> {
        seq![]
    }

    open spec fn encoding_with(&self, numbers: spec_fn(Fd) -> u32) -> Seq<u8> {
        self.encoding()
    }

    open spec fn converts(&self, raw: u32) -> Result<Fd, InvalidFd> {
        Err(InvalidFd)
    }

    open spec fn place_of(&self, cookie: usize) -> Option<int> {
        None
    }

    fn read_value<'a>(&'a self) -> (v: Value<'a, 'd, Self, NoConvert>) where 'd: 'a {
        proof {
            lemma_float_roundtrip(self.bits);
        }
        Value::Float(self.bits)
    }

    fn encoded_length(&self) -> (n: usize) {
        proof {
            lemma_float_roundtrip(self.bits);
        }
        9
    }

    fn encode<M: FdMapping>(&self, out: &mut Vec<u8>, fd_map: Option<&mut M>) {
        let bits = u64_bytes(self.bits);
        out.push(4);
        append(out, bits.as_slice());
        proof {
            reveal_with_fuel(register_all, 1);
            assert(out@ =~= old(out)@ + self.encoding());
        }
    }
}

} // verus!

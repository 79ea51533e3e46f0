//! Integers of any size, given by their bytes.

use crate::argdata::Built;
use crate::endian::append;
use crate::fd::{register_all, Fd, FdMapping, InvalidFd, NoConvert};
use crate::value::Value;
use vstd::prelude::*;
use crate::intvalue::IntValue;
use crate::wire::body;

verus! {

/// An argdata value that is an integer, given by its bytes in two's
/// complement, most significant byte first.
#[derive(Clone, Copy, Debug)]
pub struct BigInt<'d> {
    value: &'d [u8],
}

impl<'d> View for BigInt<'d> {
    type V = Seq<u8>;

    /// The bytes of the integer.
    closed spec fn view(&self) -> Seq<u8> {
        self.value@
    }
}

/// An argdata value that is the integer that `value` spells in two's
/// complement, most significant byte first.
pub fn bigint<'d>(value: &'d [u8]) -> (r: BigInt<'d>)
    requires
        value@.len() < usize::MAX,
    ensures
        r@ == value@,
{
    BigInt { value }
}

impl<'d> BigInt<'d> {
    #[verifier::type_invariant]
    spec fn wf(self) -> bool {
        self.value@.len() < usize::MAX
    }

    /// The bytes of the integer.
    pub fn bytes(&self) -> (bytes: &'d [u8])
        ensures
            bytes@ == self@,
    {
        self.value
    }

    /// The integer.
    pub fn int_value(&self) -> (r: IntValue<'d>)
        ensures
            r@ == crate::endian::be_int(self@),
    {
        IntValue::from_bigint(self.value)
    }
}

impl<'d> Built<'d> for BigInt<'d> {
    type Convert = NoConvert;

    /// The bytes are encoded as they are, also where fewer would do.
    open spec fn encoding(&self) -> Seq<u8> {
        seq![5u8] + self@
    }

    open spec fn fds(&self) -> Seq<Fd> {
        seq![]
    }

    open spec fn encoding_with(&self, numbers: spec_fn(Fd) -> u32) -> Seq<u8> {
        self.encoding()
    }

    open spec fn converts(&self, raw: u32) -> Result<Fd, InvalidFd> {
        Err(InvalidFd)
    }

    open spec fn place_of(&self, cookie: usize) -> Option<int> {
        None
    }

    fn read_value<'a>(&'a self) -> (v: Value<'a, 'd, Self, NoConvert>) where 'd: 'a {
        assert(body(self.encoding()) =~= self@);
        Value::Int(IntValue::from_bigint(self.value))
    }

    fn encoded_length(&self) -> (n: usize) {
        proof {
            use_type_invariant(self);
        }
        self.value.len() + 1
    }

    fn encode<M: FdMapping>(&self, out: &mut Vec<u8>, fd_map: Option<&mut M>) {
        out.push(5);
        append(out, self.value);
        proof {
            reveal_with_fuel(register_all, 1);
            assert(out@ =~= old(out)@ + self.encoding());
        }
    }
}

} // verus!

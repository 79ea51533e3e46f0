//! Strings.

use crate::argdata::Built;
use crate::endian::append;
use crate::fd::{register_all, Fd, FdMapping, InvalidFd, NoConvert};
use crate::value::Value;
use vstd::prelude::*;
use crate::strvalue::StrValue;
use crate::wire::{lemma_str_roundtrip, str_wire};
use vstd::string::StringSliceAdditionalSpecFns;

verus! {

/// An argdata value that is a string.
#[derive(Clone, Copy, PartialEq, Eq, PartialOrd, Ord, Hash, Debug)]
pub struct Str<'d> {
    value: &'d str,
}

impl<'d> View for Str<'d> {
    type V = Seq<u8>;

    /// The bytes of the string, which are UTF-8.
    closed spec fn view(&self) -> Seq<u8> {
        self.value.spec_bytes()
    }
}

/// An argdata value that is the string `value`.
pub fn str<'d>(value: &'d str) -> (r: Str<'d>)
    requires
        value.spec_bytes().len() + 2 <= usize::MAX,
    ensures
        r@ == value.spec_bytes(),
{
    Str { value }
}

impl<'d> Str<'d> {
    #[verifier::type_invariant]
    spec fn wf(self) -> bool {
        self.value.spec_bytes().len() + 2 <= usize::MAX
    }

    /// The string.
    pub fn str(&self) -> (value: &'d str)
        ensures
            value.spec_bytes() == self@,
    {
        self.value
    }
}

impl<'d> Built<'d> for Str<'d> {
    type Convert = NoConvert;

    /// The string is encoded as its bytes and a nul byte behind them.
    open spec fn encoding(&self) -> Seq<u8> {
        str_wire(self@)
    }

    open spec fn fds(&self) -> Seq<Fd> {
        seq![]
    }

    open spec fn encoding_with(&self, numbers: spec_fn(Fd) -> u32) -> Seq<u8> {
        self.encoding()
    }

    open spec fn converts(&self, raw: u32) -> Result<Fd, InvalidFd> {
        Err(InvalidFd)
    }

    open spec fn place_of(&self, cookie: usize) -> Option<int> {
        None
    }

    fn read_value<'a>(&'a self) -> (v: Value<'a, 'd, Self, NoConvert>) where 'd: 'a {
        proof {
            lemma_str_roundtrip(self@);
        }
        Value::Str(StrValue::from_str(self.value))
    }

    fn encoded_length(&self) -> (n: usize) {
        proof {
            use_type_invariant(self);
        }
        self.value.len() + 2
    }

    fn encode<M: FdMapping>(&self, out: &mut Vec<u8>, fd_map: Option<&mut M>) {
        out.push(8);
        append(out, self.value.as_bytes());
        out.push(0);
        proof {
            reveal_with_fuel(register_all, 1);
            assert(out@ =~= old(out)@ + self.encoding());
        }
    }
}

} // verus!

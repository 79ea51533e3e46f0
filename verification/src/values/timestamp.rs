//! Timestamps.

use crate::argdata::Built;
use crate::fd::{register_all, Fd, FdMapping, InvalidFd, NoConvert};
use crate::value::Value;
use vstd::prelude::*;
use crate::endian::{
    be_bytes, i32_bytes, lemma_be_bytes_join, lemma_be_bytes_suffix, lemma_pow256_values,
    u64_bytes,
};
use crate::intvalue::{lemma_signed_len_complement, minimal_length, signed_len_of};
use crate::timespec::{lemma_nanos_fit, timestamp_body, Timespec};
use crate::wire::{lemma_timestamp_wire_roundtrip, timestamp_wire};

verus! {

/// An argdata value that is a point in time.
#[derive(Clone, Copy, PartialEq, Eq, PartialOrd, Ord, Hash, Debug)]
pub struct Timestamp {
    value: Timespec,
}

impl View for Timestamp {
    type V = Timespec;

    /// The point in time.
    closed spec fn view(&self) -> Timespec {
        self.value
    }
}

/// An argdata value that is the point in time `value`.
pub fn timestamp(value: Timespec) -> (r: Timestamp)
    requires
        value.wf(),
    ensures
        r@ == value,
{
    Timestamp { value }
}

/// The number of bytes in the encoding of `v`: none for zero, and else the
/// least number that keeps the sign.
pub fn i128_serialized_length(v: i128) -> (n: usize)
    ensures
        n == minimal_length(v as int),
{
    if v == 0 {
        0
    } else if v > 0 {
        signed_len_of(v as u128)
    } else {
        proof {
            lemma_signed_len_complement(v as int);
        }
        signed_len_of((-(v + 1)) as u128)
    }
}

/// The number `nanos` in two parts: what is above its low eight bytes, and
/// the number that its low eight bytes spell.
fn split_nanos(nanos: i128) -> (r: (i32, u64))
    requires
        -0x4000_0000_0000_0000_0000_0000 <= nanos < 0x4000_0000_0000_0000_0000_0000,
    ensures
        nanos == r.0 * 0x1_0000_0000_0000_0000 + r.1,
{
    if nanos >= 0 {
        ((nanos / 0x1_0000_0000_0000_0000) as i32, (nanos % 0x1_0000_0000_0000_0000) as u64)
    } else {
        let m = -(nanos + 1);
        (
            (-(m / 0x1_0000_0000_0000_0000) - 1) as i32,
            (0xFFFF_FFFF_FFFF_FFFF - m % 0x1_0000_0000_0000_0000) as u64,
        )
    }
}

impl Timestamp {
    #[verifier::type_invariant]
    spec fn wf(self) -> bool {
        self.value.wf()
    }

    /// The point in time.
    pub fn value(&self) -> (value: Timespec)
        ensures
            value == self@,
            value.wf(),
    {
        proof {
            use_type_invariant(self);
        }
        self.value
    }

    /// The number of nanoseconds since the Unix epoch.
    pub fn nanoseconds(&self) -> (nanos: i128)
        ensures
            nanos == self@.nanos(),
    {
        self.value.sec as i128 * 1_000_000_000 + self.value.nsec as i128
    }
}

impl<'d> Built<'d> for Timestamp {
    type Convert = NoConvert;

    open spec fn encoding(&self) -> Seq<u8> {
        timestamp_wire(self@)
    }

    open spec fn fds(&self) -> Seq<Fd> {
        seq![]
    }

    open spec fn encoding_with(&self, numbers: spec_fn(Fd) -> u32) -> Seq<u8> {
        self.encoding()
    }

    open spec fn converts(&self, raw: u32) -> Result<Fd, InvalidFd> {
        Err(InvalidFd)
    }

    open spec fn place_of(&self, cookie: usize) -> Option<int> {
        None
    }

    fn read_value<'a>(&'a self) -> (v: Value<'a, 'd, Self, NoConvert>) where 'd: 'a {
        proof {
            use_type_invariant(self);
            lemma_timestamp_wire_roundtrip(self@);
        }
        Value::Timestamp(self.value)
    }

    fn encoded_length(&self) -> (n: usize) {
        proof {
            lemma_nanos_fit(self@);
        }
        i128_serialized_length(self.nanoseconds()) + 1
    }

    fn encode<M: FdMapping>(&self, out: &mut Vec<u8>, fd_map: Option<&mut M>) {
        out.push(9);
        let nanos = self.nanoseconds();
        let n = i128_serialized_length(nanos);
        proof {
            use_type_invariant(self);
            lemma_nanos_fit(self@);
            lemma_pow256_values();
            reveal_with_fuel(register_all, 1);
        }
        if n > 0 {
            let (high, low) = split_nanos(nanos);
            let head = i32_bytes(high);
            let tail = u64_bytes(low);
            let ghost all = be_bytes(nanos as int, 12);
            proof {
                lemma_be_bytes_join(high as int, low as int, 4, 8);
                lemma_be_bytes_suffix(nanos as int, 12, n as nat);
                assert(all == head@ + tail@);
            }
            let mut k: usize = 12 - n;
            while k < 12
                invariant
                    1 <= n <= 12,
                    12 - n <= k <= 12,
                    head@.len() == 4,
                    tail@.len() == 8,
                    all == head@ + tail@,
                    out@ == old(out)@ + seq![9u8] + all.subrange(12 - n, k as int),
                decreases 12 - k,
            {
                let byte = if k < 4 {
                    head[k]
                } else {
                    tail[k - 4]
                };
                out.push(byte);
                assert(out@ =~= old(out)@ + seq![9u8] + all.subrange(12 - n, k + 1));
                k += 1;
            }
            assert(out@ =~= old(out)@ + self.encoding());
        } else {
            assert(timestamp_body(self@) =~= Seq::<u8>::empty());
            assert(out@ =~= old(out)@ + self.encoding());
        }
    }
}

} // verus!

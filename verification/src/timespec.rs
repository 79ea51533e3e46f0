//! Points in time, and their encoding as a number of nanoseconds.

use crate::endian::{be_int, fits_bytes, lemma_be_bytes_len, lemma_pow256_values};
use crate::errors::ReadError;
use crate::intvalue::{int_bytes, lemma_int_bytes_roundtrip, lemma_signed_len_least, minimal_length};
use vstd::prelude::*;

verus! {

/// A point in time, relative to the Unix epoch.
#[derive(Debug, Copy, Clone, Eq, PartialEq, Structural, Ord, PartialOrd, Hash)]
pub struct Timespec {
    /// The number of whole seconds since the Unix epoch, possibly negative.
    pub sec: i64,
    /// The number of nanoseconds beyond the whole seconds, below one second.
    pub nsec: u32,
}

impl Timespec {
    /// Whether the nanoseconds stay below one second.
    pub open spec fn wf(&self) -> bool {
        self.nsec < 1_000_000_000
    }

    /// The number of nanoseconds since the Unix epoch.
    pub open spec fn nanos(&self) -> int {
        self.sec * 1_000_000_000 + self.nsec
    }
}

/// The point in time that the body of an encoded timestamp gives: the body
/// spells, in two's complement, the number of nanoseconds since the Unix
/// epoch.
///
/// A body of more than twelve bytes, or one whose whole seconds do not fit in
/// 64 bits, is out of range.
pub open spec fn parse_timestamp_body(body: Seq<u8>) -> Result<Timespec, ReadError> {
    let nanos = be_int(body);
    let sec = nanos / 1_000_000_000;
    if body.len() > 12 || sec < i64::MIN || sec > i64::MAX {
        Err(ReadError::TimestampOutOfRange)
    } else {
        Ok(Timespec { sec: sec as i64, nsec: (nanos % 1_000_000_000) as u32 })
    }
}

/// The body of the encoding of a point in time: the shortest spelling of its
/// number of nanoseconds.
pub open spec fn timestamp_body(value: Timespec) -> Seq<u8> {
    int_bytes(value.nanos())
}

/// The number of nanoseconds of a point in time fits in twelve bytes.
pub proof fn lemma_nanos_fit(value: Timespec)
    ensures
        fits_bytes(value.nanos(), 12),
        timestamp_body(value).len() <= 12,
        timestamp_body(value).len() == minimal_length(value.nanos()),
{
    lemma_pow256_values();
    let n = value.nanos();
    lemma_be_bytes_len(n, minimal_length(n));
    if n != 0 {
        lemma_signed_len_least(n, 12);
    }
}

/// A point in time, encoded and read back, is the same point in time.
pub proof fn lemma_timestamp_roundtrip(value: Timespec)
    requires
        value.wf(),
    ensures
        parse_timestamp_body(timestamp_body(value)) == Ok::<Timespec, ReadError>(value),
{
    lemma_nanos_fit(value);
    lemma_int_bytes_roundtrip(value.nanos());
}

/// A body of more than twelve bytes is out of range, whatever it spells.
pub proof fn lemma_long_timestamp_out_of_range(body: Seq<u8>)
    requires
        body.len() > 12,
    ensures
        parse_timestamp_body(body) == Err::<Timespec, ReadError>(ReadError::TimestampOutOfRange),
{
}

} // verus!

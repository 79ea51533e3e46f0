//! Encoding and decoding of argdata, a compact, self-describing binary format
//! for structured values that may carry file descriptors.
//!
//! Encoded data is decoded on demand through [`values::EncodedArgdata`];
//! values are built with the functions in the crate root and written with
//! [`Argdata::serialize`]. Whatever holds a value, it reads as its encoding
//! does: the contracts of [`Argdata`] are stated over the bytes of the
//! encoding, which [`wire`] describes, and all of them are proved.

pub mod argdata;
pub mod container_traits;
pub mod endian;
pub mod env;
pub mod errors;
pub mod fd;
pub mod intvalue;
pub mod mapiterator;
pub mod seqiterator;
pub mod strvalue;
pub mod subfield;
pub mod timespec;
pub mod try_from;
pub mod value;
pub mod values;
pub mod wire;

pub use crate::argdata::{Argdata, ArgdataExt, Built};
pub use crate::errors::{NoFit, NotRead, ReadError};
pub use crate::intvalue::{IntValue, Integer};
pub use crate::mapiterator::{MapIterable, MapIterator};
pub use crate::seqiterator::{SeqIterable, SeqIterator};
pub use crate::strvalue::{CStrError, StrValue};
pub use crate::timespec::Timespec;
pub use crate::try_from::TryFrom;
pub use crate::value::{Type, Value};
pub use crate::values::{
    bigint, binary, bool, encoded, encoded_fd, encoded_with_fds, float, integer, invalid_fd, null,
    process_fd, str, timestamp,
};

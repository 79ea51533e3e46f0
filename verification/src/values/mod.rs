//! The values that hold argdata: encoded data, and what is built in memory.

pub mod bigint;
pub mod binary;
pub mod bool;
pub mod encoded;
pub mod fd;
pub mod float;
pub mod integer;
pub mod map;
pub mod null;
pub mod seq;
pub mod str;
pub mod timestamp;

pub use self::bigint::{bigint, BigInt};
pub use self::binary::{binary, Binary};
pub use self::bool::{bool, Bool};
pub use self::encoded::{encoded, encoded_with_fds, EncodedArgdata};
pub use self::fd::{encoded_fd, invalid_fd, process_fd};
pub use self::float::{float, Float};
pub use self::integer::{integer, Int};
pub use self::map::MapValue;
pub use self::null::{null, Null};
pub use self::seq::SeqValue;
pub use self::str::{str, Str};
pub use self::timestamp::{timestamp, Timestamp};

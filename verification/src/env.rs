//! The argdata of the running program.

use crate::fd::Identity;
use crate::values::encoded::{encoded_with_fds, EncodedArgdata};
use vstd::prelude::*;

verus! {

/// The argdata of a program that was started with none.
const NO_ARGDATA: [u8; 0] = [];

/// The argdata that this program was started with.
///
/// The file descriptor numbers in it are the file descriptors of this
/// process. A program that was started without argdata has the value null;
/// where the platform hands the program its argdata as bytes, wrap the bytes
/// with [`encoded_with_fds`] and [`Identity`].
pub fn argdata() -> (r: EncodedArgdata<'static, Identity>)
    ensures
        r.encoded@ == Seq::<u8>::empty(),
{
    argdata_impl()
}

/// The argdata of a program on a platform that starts programs without any.
fn argdata_impl() -> (r: EncodedArgdata<'static, Identity>)
    ensures
        r.encoded@ == Seq::<u8>::empty(),
{
    let bytes: &'static [u8] = NO_ARGDATA.as_slice();
    assert(bytes@ =~= Seq::<u8>::empty());
    encoded_with_fds(bytes, Identity)
}

} // verus!

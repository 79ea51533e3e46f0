//! String values.

use crate::errors::{NotRead, ReadError};
use std::str::Utf8Error;
use vstd::prelude::*;
use vstd::std_specs::convert::FromSpecImpl;
use vstd::string::StringSliceAdditionalSpecFns;
use vstd::utf8::valid_utf8;

verus! {

/// The error of `std::str::from_utf8`: where the bytes stop being UTF-8.
#[verifier::external_type_specification]
#[verifier::external_body]
pub struct ExUtf8Error(Utf8Error);

/// Reads `bytes` as UTF-8.
///
/// Calls `std::str::from_utf8`, which succeeds exactly on valid UTF-8 and then
/// gives the string that the bytes encode. The contract restates its
/// documentation and is not proved.
#[verifier::external_body]
pub(crate) fn from_utf8<'d>(bytes: &'d [u8]) -> (r: Result<&'d str, Utf8Error>)
    ensures
        r is Ok <==> valid_utf8(bytes@),
        r matches Ok(s) ==> s.spec_bytes() == bytes@,
{
    std::str::from_utf8(bytes)
}

impl From<Utf8Error> for ReadError {
    fn from(e: Utf8Error) -> (r: ReadError) {
        ReadError::InvalidUtf8
    }
}

impl FromSpecImpl<Utf8Error> for ReadError {
    open spec fn obeys_from_spec() -> bool {
        true
    }

    open spec fn from_spec(e: Utf8Error) -> ReadError {
        ReadError::InvalidUtf8
    }
}

impl From<Utf8Error> for NotRead {
    fn from(e: Utf8Error) -> (r: NotRead) {
        NotRead::Error(ReadError::InvalidUtf8)
    }
}

impl FromSpecImpl<Utf8Error> for NotRead {
    open spec fn obeys_from_spec() -> bool {
        true
    }

    open spec fn from_spec(e: Utf8Error) -> NotRead {
        NotRead::Error(ReadError::InvalidUtf8)
    }
}

/// Whether `bytes` are a C string: they end in a nul byte and hold no other.
pub open spec fn is_c_string(bytes: Seq<u8>) -> bool {
    &&& bytes.len() > 0
    &&& bytes.last() == 0
    &&& forall|i: int| 0 <= i < bytes.len() - 1 ==> bytes[i] != 0
}

/// Why a string value is no C string.
#[derive(Debug, Clone, Copy, PartialEq, Eq, Structural)]
pub enum CStrError {
    /// The string holds a nul byte before its end.
    InteriorNul,
    /// The string is not known to end in a nul byte.
    NotNulTerminated,
}

/// The C string that holds nothing.
pub const EMPTY_C_STRING: [u8; 1] = [0u8];

/// A string value.
///
/// The string may or may not be followed by a nul byte, and may or may not be
/// valid UTF-8: the value records what is known of it, and its accessors check
/// what is not.
#[derive(Clone, Copy, Debug)]
pub struct StrValue<'d> {
    inner: Inner<'d>,
}

#[derive(Clone, Copy, Debug)]
enum Inner<'d> {
    BytesWithoutNul(&'d [u8]),
    BytesWithNul(&'d [u8]),
    Str(&'d str),
    CStr(&'d [u8]),
}

impl<'d> View for StrValue<'d> {
    type V = Seq<u8>;

    /// The bytes of the string, without a nul byte behind them.
    closed spec fn view(&self) -> Seq<u8> {
        match self.inner {
            Inner::BytesWithoutNul(v) => v@,
            Inner::BytesWithNul(v) => v@.drop_last(),
            Inner::Str(v) => v.spec_bytes(),
            Inner::CStr(v) => v@.drop_last(),
        }
    }
}

impl<'d> StrValue<'d> {
    #[verifier::type_invariant]
    spec fn wf(self) -> bool {
        match self.inner {
            Inner::BytesWithoutNul(_) => true,
            Inner::BytesWithNul(v) => v@.len() > 0 && v@.last() == 0,
            Inner::Str(_) => true,
            Inner::CStr(v) => is_c_string(v@),
        }
    }

    /// Whether the value is known to be a C string or to end in a nul byte.
    pub closed spec fn has_nul(&self) -> bool {
        self.inner is BytesWithNul || self.inner is CStr
    }

    /// A string value of raw bytes that no nul byte follows.
    pub fn from_bytes_without_nul(bytes: &'d [u8]) -> (r: StrValue<'d>)
        ensures
            r@ == bytes@,
            !r.has_nul(),
    {
        StrValue { inner: Inner::BytesWithoutNul(bytes) }
    }

    /// A string value of raw bytes of which the last is the nul byte that
    /// follows the string.
    pub fn from_bytes_with_nul(bytes: &'d [u8]) -> (r: StrValue<'d>)
        requires
            bytes@.len() > 0,
            bytes@.last() == 0,
        ensures
            r@ == bytes@.drop_last(),
            r.has_nul(),
    {
        StrValue { inner: Inner::BytesWithNul(bytes) }
    }

    /// A string value of a UTF-8 string that no nul byte follows.
    pub fn from_str(s: &'d str) -> (r: StrValue<'d>)
        ensures
            r@ == s.spec_bytes(),
            !r.has_nul(),
    {
        StrValue { inner: Inner::Str(s) }
    }

    /// A string value of a C string, given by its bytes with the nul byte at
    /// their end.
    pub fn from_cstr(bytes_with_nul: &'d [u8]) -> (r: StrValue<'d>)
        requires
            is_c_string(bytes_with_nul@),
        ensures
            r@ == bytes_with_nul@.drop_last(),
            r.has_nul(),
    {
        StrValue { inner: Inner::CStr(bytes_with_nul) }
    }

    /// The bytes of the string, without a nul byte behind them.
    pub fn as_bytes(&self) -> (bytes: &'d [u8])
        ensures
            bytes@ == self@,
    {
        proof {
            use_type_invariant(self);
        }
        match self.inner {
            Inner::BytesWithoutNul(v) => v,
            Inner::BytesWithNul(v) => {
                let r = &v[0..v.len() - 1];
                assert(r@ =~= v@.drop_last());
                r
            },
            Inner::Str(v) => v.as_bytes(),
            Inner::CStr(v) => {
                let r = &v[0..v.len() - 1];
                assert(r@ =~= v@.drop_last());
                r
            },
        }
    }

    /// The string, if its bytes are valid UTF-8.
    pub fn as_str(&self) -> (r: Result<&'d str, Utf8Error>)
        ensures
            r is Ok <==> valid_utf8(self@),
            r matches Ok(s) ==> s.spec_bytes() == self@,
    {
        match self.inner {
            Inner::Str(v) => {
                proof {
                    vstd::utf8::encode_utf8_valid_utf8(v@);
                }
                Ok(v)
            },
            _ => from_utf8(self.as_bytes()),
        }
    }

    /// The string as a C string: its bytes with a nul byte at their end and no
    /// other.
    ///
    /// A value made of a C string is returned as it is. A value made of bytes
    /// with a nul byte is a C string unless it holds another nul byte. Of the
    /// other values only the empty string is a C string.
    pub fn as_cstr(&self) -> (r: Result<&'d [u8], CStrError>)
        ensures
            match r {
                Ok(bytes) => {
                    &&& is_c_string(bytes@)
                    &&& bytes@.drop_last() == self@
                    &&& self.has_nul() || self@.len() == 0
                },
                Err(CStrError::InteriorNul) => self.has_nul() && self@.contains(0u8),
                Err(CStrError::NotNulTerminated) => !self.has_nul() && self@.len() > 0,
            },
    {
        proof {
            use_type_invariant(self);
        }
        match self.inner {
            Inner::CStr(v) => Ok(v),
            Inner::BytesWithNul(v) => {
                let mut i: usize = 0;
                while i < v.len() - 1
                    invariant
                        v@.len() > 0,
                        self@ == v@.drop_last(),
                        self.has_nul(),
                        i <= v.len() - 1,
                        forall|j: int| 0 <= j < i ==> v@[j] != 0,
                    decreases v.len() - i,
                {
                    if v[i] == 0 {
                        assert(self@[i as int] == 0u8);
                        assert(self@.contains(0u8));
                        return Err(CStrError::InteriorNul);
                    }
                    i += 1;
                }
                Ok(v)
            },
            _ => {
                if self.as_bytes().len() == 0 {
                    let empty: &'static [u8] = EMPTY_C_STRING.as_slice();
                    assert(empty@.drop_last() =~= self@);
                    Ok(empty)
                } else {
                    Err(CStrError::NotNulTerminated)
                }
            },
        }
    }
}

} // verus!

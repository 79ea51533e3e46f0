//! The reasons for which a read returns no value.

use vstd::prelude::*;
use vstd::std_specs::convert::FromSpecImpl;
use vstd::string::StringExecFns;

verus! {

/// An error while reading argdata: the data is malformed for the type that
/// its tag declares.
#[derive(Debug, Clone, Copy, PartialEq, Eq, Structural)]
pub enum ReadError {
    /// The data starts with the given tag, which belongs to no known type.
    InvalidTag(u8),
    /// The data is a string that does not end in a nul byte.
    MissingNullTerminator,
    /// The data is a string that is not valid UTF-8.
    InvalidUtf8,
    /// The data is a boolean with a body other than that of 'false' or 'true'.
    InvalidBoolValue,
    /// The data is a float whose body is not exactly 64 bits.
    InvalidFloatLength,
    /// The data is a file descriptor whose body is not exactly 32 bits.
    InvalidFdLength,
    /// The data is a timestamp that does not fit in a `Timespec`.
    TimestampOutOfRange,
    /// The data holds a subfield (of a map or seq) with an incomplete or too
    /// large length.
    InvalidSubfield,
    /// The data holds a map that ends in a key without a value.
    InvalidKeyValuePair,
    /// The data is a file descriptor number that refers to no file descriptor.
    InvalidFdNumber(u32),
}

/// The reason why a read returned no value although the data is sound.
#[derive(Debug, Clone, Copy, PartialEq, Eq, Structural)]
pub enum NoFit {
    /// The value is too high or too low for the requested type.
    OutOfRange,
    /// The value is of another type than the requested one.
    DifferentType,
}

/// The reason why a read returned no value.
#[derive(Debug, Clone, Copy, PartialEq, Eq, Structural)]
pub enum NotRead {
    /// The value does not fit the request.
    NoFit(NoFit),
    /// The value is of the requested type, but malformed.
    Error(ReadError),
}

impl ReadError {
    /// A short description of the error, without the offending number.
    pub fn description(&self) -> (s: &'static str)
        ensures
            s@ == self.description_text(),
    {
        match self {
            ReadError::InvalidTag(_) => "Invalid argdata tag",
            ReadError::MissingNullTerminator => "Argdata contains a string without nul terminator",
            ReadError::InvalidUtf8 => "Argdata contains invalid UTF-8",
            ReadError::InvalidBoolValue => "Argdata contains an invalid boolean value",
            ReadError::InvalidFloatLength =>
                "Argdata contains floating point data of invalid length",
            ReadError::InvalidFdLength =>
                "Argdata contains file descriptor data of invalid length",
            ReadError::TimestampOutOfRange =>
                "Argdata contains a timestamp which is out of the accepted range",
            ReadError::InvalidSubfield => "Argdata has an incomplete subfield",
            ReadError::InvalidKeyValuePair => "Argdata map has an incomplete key-value pair",
            ReadError::InvalidFdNumber(_) =>
                "Argdata contains a file descriptor that doesn't exist",
        }
    }

    /// The text that [`ReadError::description`] returns.
    pub open spec fn description_text(&self) -> Seq<char> {
        match self {
            ReadError::InvalidTag(_) => "Invalid argdata tag"@,
            ReadError::MissingNullTerminator =>
                "Argdata contains a string without nul terminator"@,
            ReadError::InvalidUtf8 => "Argdata contains invalid UTF-8"@,
            ReadError::InvalidBoolValue => "Argdata contains an invalid boolean value"@,
            ReadError::InvalidFloatLength =>
                "Argdata contains floating point data of invalid length"@,
            ReadError::InvalidFdLength =>
                "Argdata contains file descriptor data of invalid length"@,
            ReadError::TimestampOutOfRange =>
                "Argdata contains a timestamp which is out of the accepted range"@,
            ReadError::InvalidSubfield => "Argdata has an incomplete subfield"@,
            ReadError::InvalidKeyValuePair => "Argdata map has an incomplete key-value pair"@,
            ReadError::InvalidFdNumber(_) =>
                "Argdata contains a file descriptor that doesn't exist"@,
        }
    }
}

/// The digit `d` as text.
pub open spec fn digit_text(d: int) -> Seq<char> {
    if d == 0 {
        "0"@
    } else if d == 1 {
        "1"@
    } else if d == 2 {
        "2"@
    } else if d == 3 {
        "3"@
    } else if d == 4 {
        "4"@
    } else if d == 5 {
        "5"@
    } else if d == 6 {
        "6"@
    } else if d == 7 {
        "7"@
    } else if d == 8 {
        "8"@
    } else if d == 9 {
        "9"@
    } else if d == 10 {
        "A"@
    } else if d == 11 {
        "B"@
    } else if d == 12 {
        "C"@
    } else if d == 13 {
        "D"@
    } else if d == 14 {
        "E"@
    } else {
        "F"@
    }
}

/// The natural number `n` in decimal digits.
pub open spec fn decimal_text(n: nat) -> Seq<char>
    decreases n,
{
    if n < 10 {
        digit_text(n as int)
    } else {
        decimal_text(n / 10) + digit_text((n % 10) as int)
    }
}

/// The integer `v` in decimal digits, with a minus sign if it is negative.
pub open spec fn signed_text(v: int) -> Seq<char> {
    if v < 0 {
        "-"@ + decimal_text((-v) as nat)
    } else {
        decimal_text(v as nat)
    }
}

/// The byte `x` in two hexadecimal digits.
pub open spec fn hex_text(x: u8) -> Seq<char> {
    digit_text(x as int / 16) + digit_text(x as int % 16)
}

/// The digit `d`, of sixteen, as text.
fn digit(d: u32) -> (s: &'static str)
    requires
        d < 16,
    ensures
        s@ == digit_text(d as int),
{
    if d == 0 {
        "0"
    } else if d == 1 {
        "1"
    } else if d == 2 {
        "2"
    } else if d == 3 {
        "3"
    } else if d == 4 {
        "4"
    } else if d == 5 {
        "5"
    } else if d == 6 {
        "6"
    } else if d == 7 {
        "7"
    } else if d == 8 {
        "8"
    } else if d == 9 {
        "9"
    } else if d == 10 {
        "A"
    } else if d == 11 {
        "B"
    } else if d == 12 {
        "C"
    } else if d == 13 {
        "D"
    } else if d == 14 {
        "E"
    } else {
        "F"
    }
}

/// Appends the decimal digits of `n` to `out`.
fn append_decimal(n: u32, out: &mut String)
    ensures
        final(out)@ == old(out)@ + decimal_text(n as nat),
    decreases n,
{
    if n >= 10 {
        append_decimal(n / 10, out);
    }
    out.append(digit(n % 10));
    assert(out@ =~= old(out)@ + decimal_text(n as nat));
}

impl ReadError {
    /// The text of [`ReadError::message`].
    pub open spec fn message_text(&self) -> Seq<char> {
        match self {
            ReadError::InvalidTag(x) => self.description_text() + " (0x"@ + hex_text(*x) + ")"@,
            ReadError::InvalidFdNumber(x) => self.description_text() + " ("@ + signed_text(
                (*x as i32) as int,
            ) + ")"@,
            _ => self.description_text(),
        }
    }

    /// The error as text for people to read: the description, followed by
    /// the offending tag in hexadecimal digits or the offending file
    /// descriptor number as a signed decimal number, if there is any.
    pub fn message(&self) -> (s: String)
        ensures
            s@ == self.message_text(),
    {
        let mut s = String::from_str(self.description());
        match self {
            ReadError::InvalidTag(x) => {
                s.append(" (0x");
                s.append(digit((*x / 16) as u32));
                s.append(digit((*x % 16) as u32));
                s.append(")");
                assert(s@ =~= self.message_text());
            },
            ReadError::InvalidFdNumber(x) => {
                s.append(" (");
                let v = *x as i32;
                if v < 0 {
                    s.append("-");
                    append_decimal((-(v as i64)) as u32, &mut s);
                } else {
                    append_decimal(v as u32, &mut s);
                }
                s.append(")");
                assert(s@ =~= self.message_text());
            },
            _ => {},
        }
        s
    }
}

impl From<ReadError> for NotRead {
    fn from(e: ReadError) -> (r: NotRead) {
        NotRead::Error(e)
    }
}

impl FromSpecImpl<ReadError> for NotRead {
    open spec fn obeys_from_spec() -> bool {
        true
    }

    open spec fn from_spec(e: ReadError) -> NotRead {
        NotRead::Error(e)
    }
}

impl From<NoFit> for NotRead {
    fn from(e: NoFit) -> (r: NotRead) {
        NotRead::NoFit(e)
    }
}

impl FromSpecImpl<NoFit> for NotRead {
    open spec fn obeys_from_spec() -> bool {
        true
    }

    open spec fn from_spec(e: NoFit) -> NotRead {
        NotRead::NoFit(e)
    }
}

} // verus!

//! Conversions that fail on what does not fit.

use vstd::prelude::*;

verus! {

/// The conversion from `T` of what fits.
pub trait TryFrom<T>: Sized {
    /// What is returned for what does not fit.
    type Error;

    /// What `value` converts to.
    spec fn try_from_spec(value: T) -> Result<Self, Self::Error>;

    /// Converts `value`, if it fits.
    fn try_from(value: T) -> (r: Result<Self, Self::Error>)
        ensures
            r == Self::try_from_spec(value),
    ;
}

impl TryFrom<u64> for u8 {
    type Error = ();

    open spec fn try_from_spec(value: u64) -> Result<u8, ()> {
        if value <= u8::MAX {
            Ok(value as u8)
        } else {
            Err(())
        }
    }

    fn try_from(value: u64) -> (r: Result<u8, ()>) {
        if value <= u8::MAX as u64 {
            Ok(value as u8)
        } else {
            Err(())
        }
    }
}

impl TryFrom<u64> for u16 {
    type Error = ();

    open spec fn try_from_spec(value: u64) -> Result<u16, ()> {
        if value <= u16::MAX {
            Ok(value as u16)
        } else {
            Err(())
        }
    }

    fn try_from(value: u64) -> (r: Result<u16, ()>) {
        if value <= u16::MAX as u64 {
            Ok(value as u16)
        } else {
            Err(())
        }
    }
}

impl TryFrom<u64> for u32 {
    type Error = ();

    open spec fn try_from_spec(value: u64) -> Result<u32, ()> {
        if value <= u32::MAX {
            Ok(value as u32)
        } else {
            Err(())
        }
    }

    fn try_from(value: u64) -> (r: Result<u32, ()>) {
        if value <= u32::MAX as u64 {
            Ok(value as u32)
        } else {
            Err(())
        }
    }
}

impl TryFrom<u64> for u64 {
    type Error = ();

    open spec fn try_from_spec(value: u64) -> Result<u64, ()> {
        Ok(value)
    }

    fn try_from(value: u64) -> (r: Result<u64, ()>) {
        Ok(value)
    }
}

impl TryFrom<u64> for i8 {
    type Error = ();

    open spec fn try_from_spec(value: u64) -> Result<i8, ()> {
        if value <= i8::MAX {
            Ok(value as i8)
        } else {
            Err(())
        }
    }

    fn try_from(value: u64) -> (r: Result<i8, ()>) {
        if value <= i8::MAX as u64 {
            Ok(value as i8)
        } else {
            Err(())
        }
    }
}

impl TryFrom<u64> for i16 {
    type Error = ();

    open spec fn try_from_spec(value: u64) -> Result<i16, ()> {
        if value <= i16::MAX {
            Ok(value as i16)
        } else {
            Err(())
        }
    }

    fn try_from(value: u64) -> (r: Result<i16, ()>) {
        if value <= i16::MAX as u64 {
            Ok(value as i16)
        } else {
            Err(())
        }
    }
}

impl TryFrom<u64> for i32 {
    type Error = ();

    open spec fn try_from_spec(value: u64) -> Result<i32, ()> {
        if value <= i32::MAX {
            Ok(value as i32)
        } else {
            Err(())
        }
    }

    fn try_from(value: u64) -> (r: Result<i32, ()>) {
        if value <= i32::MAX as u64 {
            Ok(value as i32)
        } else {
            Err(())
        }
    }
}

impl TryFrom<u64> for i64 {
    type Error = ();

    open spec fn try_from_spec(value: u64) -> Result<i64, ()> {
        if value <= i64::MAX {
            Ok(value as i64)
        } else {
            Err(())
        }
    }

    fn try_from(value: u64) -> (r: Result<i64, ()>) {
        if value <= i64::MAX as u64 {
            Ok(value as i64)
        } else {
            Err(())
        }
    }
}

impl TryFrom<i64> for i8 {
    type Error = ();

    open spec fn try_from_spec(value: i64) -> Result<i8, ()> {
        if i8::MIN <= value <= i8::MAX {
            Ok(value as i8)
        } else {
            Err(())
        }
    }

    fn try_from(value: i64) -> (r: Result<i8, ()>) {
        if value >= i8::MIN as i64 && value <= i8::MAX as i64 {
            Ok(value as i8)
        } else {
            Err(())
        }
    }
}

impl TryFrom<i64> for i16 {
    type Error = ();

    open spec fn try_from_spec(value: i64) -> Result<i16, ()> {
        if i16::MIN <= value <= i16::MAX {
            Ok(value as i16)
        } else {
            Err(())
        }
    }

    fn try_from(value: i64) -> (r: Result<i16, ()>) {
        if value >= i16::MIN as i64 && value <= i16::MAX as i64 {
            Ok(value as i16)
        } else {
            Err(())
        }
    }
}

impl TryFrom<i64> for i32 {
    type Error = ();

    open spec fn try_from_spec(value: i64) -> Result<i32, ()> {
        if i32::MIN <= value <= i32::MAX {
            Ok(value as i32)
        } else {
            Err(())
        }
    }

    fn try_from(value: i64) -> (r: Result<i32, ()>) {
        if value >= i32::MIN as i64 && value <= i32::MAX as i64 {
            Ok(value as i32)
        } else {
            Err(())
        }
    }
}

impl TryFrom<i64> for i64 {
    type Error = ();

    open spec fn try_from_spec(value: i64) -> Result<i64, ()> {
        Ok(value)
    }

    fn try_from(value: i64) -> (r: Result<i64, ()>) {
        Ok(value)
    }
}

} // verus!

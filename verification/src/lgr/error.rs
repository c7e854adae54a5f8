//! Why an archive cannot be read.

use vstd::prelude::*;

verus! {

/// The reasons for which reading an archive fails.
#[derive(Debug, Copy, Clone, PartialEq, Eq, Structural)]
pub enum LgrError {
    /// The stream ends inside a field.
    UnexpectedEof,
    /// The stream does not start with the archive's magic bytes.
    NotAnLgr,
    /// The word after the number of pictures is not 1002.
    InvalidVersion,
    /// A name is not valid UTF-8.
    InvalidName,
    /// A picture kind is none of 100, 101 and 102.
    UnknownPictureKind,
    /// A clipping mode is none of 0, 1 and 2.
    UnknownClippingMode,
    /// The last word of a picture description is not 12.
    InvalidPictureEntry,
    /// A picture is not a PCX image that can be decoded as asked.
    InvalidPcx,
}

impl LgrError {
    /// A short description of the failure.
    pub fn message(&self) -> (text: &'static str)
        ensures
            text@ == match *self {
                LgrError::UnexpectedEof => "LGR: unexpected end of stream"@,
                LgrError::NotAnLgr => "Not an LGR"@,
                LgrError::InvalidVersion => "LGR: invalid unknown value != 1002"@,
                LgrError::InvalidName => "LGR: invalid ASCII"@,
                LgrError::UnknownPictureKind => "LGR: unknown picture kind"@,
                LgrError::UnknownClippingMode => "LGR: unknown clipping mode"@,
                LgrError::InvalidPictureEntry => "LGR: invalid unknown value != 12"@,
                LgrError::InvalidPcx => "LGR: invalid PCX image"@,
            },
    {
        match *self {
            LgrError::UnexpectedEof => "LGR: unexpected end of stream",
            LgrError::NotAnLgr => "Not an LGR",
            LgrError::InvalidVersion => "LGR: invalid unknown value != 1002",
            LgrError::InvalidName => "LGR: invalid ASCII",
            LgrError::UnknownPictureKind => "LGR: unknown picture kind",
            LgrError::UnknownClippingMode => "LGR: unknown clipping mode",
            LgrError::InvalidPictureEntry => "LGR: invalid unknown value != 12",
            LgrError::InvalidPcx => "LGR: invalid PCX image",
        }
    }
}

/// The failure `reason` as a result of any type.
pub fn error<T>(reason: LgrError) -> (failed: Result<T, LgrError>)
    ensures
        failed == Err::<T, LgrError>(reason),
{
    Err(reason)
}

} // verus!

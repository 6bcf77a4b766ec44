//! The recoverable error kinds of the reader and of the host surface.

use vstd::prelude::*;

verus! {

/// What can go wrong while reading source text or loading a file.
#[derive(Debug, Clone, Copy, PartialEq, Eq, Structural)]
pub enum SlErrCode {
    ErrorUnknown,
    ParseUnexpectedEnd,
    ParseBadSpecial,
    ParseInvalidChar,
    ParseInvalidString,
    ParseInvalidNum,
    FileCouldNotRead,
}

impl SlErrCode {
    /// The number under which an error kind is stored in an error object.
    pub open spec fn spec_code(self) -> u16 {
        match self {
            SlErrCode::ErrorUnknown => 0,
            SlErrCode::ParseUnexpectedEnd => 1,
            SlErrCode::ParseBadSpecial => 2,
            SlErrCode::ParseInvalidChar => 3,
            SlErrCode::ParseInvalidString => 4,
            SlErrCode::ParseInvalidNum => 5,
            SlErrCode::FileCouldNotRead => 6,
        }
    }

    /// The stored number of this error kind.
    pub fn code(self) -> (r: u16)
        ensures
            r == self.spec_code(),
            r <= 6,
    {
        match self {
            SlErrCode::ErrorUnknown => 0,
            SlErrCode::ParseUnexpectedEnd => 1,
            SlErrCode::ParseBadSpecial => 2,
            SlErrCode::ParseInvalidChar => 3,
            SlErrCode::ParseInvalidString => 4,
            SlErrCode::ParseInvalidNum => 5,
            SlErrCode::FileCouldNotRead => 6,
        }
    }

    /// The error kind stored under `v`, if `v` is the number of one.
    pub fn try_from(v: u16) -> (r: Result<SlErrCode, ()>)
        ensures
            v <= 6 <==> r is Ok,
            r is Ok ==> r->Ok_0.spec_code() == v,
    {
        if v == 0 {
            Ok(SlErrCode::ErrorUnknown)
        } else if v == 1 {
            Ok(SlErrCode::ParseUnexpectedEnd)
        } else if v == 2 {
            Ok(SlErrCode::ParseBadSpecial)
        } else if v == 3 {
            Ok(SlErrCode::ParseInvalidChar)
        } else if v == 4 {
            Ok(SlErrCode::ParseInvalidString)
        } else if v == 5 {
            Ok(SlErrCode::ParseInvalidNum)
        } else if v == 6 {
            Ok(SlErrCode::FileCouldNotRead)
        } else {
            Err(())
        }
    }
}

/// Every error kind is found again from its stored number.
pub proof fn lemma_code_round_trip(e: SlErrCode)
    ensures
        e.spec_code() <= 6,
        forall|f: SlErrCode| f.spec_code() == e.spec_code() ==> f == e,
{
}

} // verus!

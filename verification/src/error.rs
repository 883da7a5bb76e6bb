//! Why a list of arguments is not a level map.

use vstd::prelude::*;

verus! {

/// Why a text is no integer that an `i32` can hold.
#[derive(Clone, Copy, Debug, PartialEq, Eq, Structural)]
pub enum NumberFault {
    /// The text is empty.
    Empty,
    /// A character is no digit, or a sign stands alone.
    InvalidDigit,
    /// The number is above the largest `i32`.
    TooLarge,
    /// The number is below the smallest `i32`.
    TooSmall,
}

impl NumberFault {
    /// The text of the message for this fault.
    pub open spec fn text(self) -> Seq<char> {
        match self {
            NumberFault::Empty => "cannot parse integer from empty string"@,
            NumberFault::InvalidDigit => "invalid digit found in string"@,
            NumberFault::TooLarge => "number too large to fit in target type"@,
            NumberFault::TooSmall => "number too small to fit in target type"@,
        }
    }

    /// A message for the user.
    pub fn message(&self) -> (m: String)
        ensures
            m@ == self.text(),
    {
        let text = match self {
            NumberFault::Empty => "cannot parse integer from empty string",
            NumberFault::InvalidDigit => "invalid digit found in string",
            NumberFault::TooLarge => "number too large to fit in target type",
            NumberFault::TooSmall => "number too small to fit in target type",
        };
        text.to_owned()
    }
}

/// What is wrong with a list of arguments.
#[derive(Clone, Copy, Debug, PartialEq, Eq, Structural)]
pub enum ArgError {
    /// A level marker is followed by no label.
    MissingArgs,
    /// A token stands where a level marker must, and is none.
    BadPrefix,
    /// What follows the marker is no integer that an `i32` can hold.
    BadLevel(NumberFault),
    /// A level marker names a level that the map holds already.
    DuplicateLevel,
    /// An index below the number of levels has no level.
    MissingLevel,
    /// There is no level at all.
    Empty,
}

impl ArgError {
    /// The text of the message for this error.
    pub open spec fn text(self) -> Seq<char> {
        match self {
            ArgError::MissingArgs => "missing args"@,
            ArgError::BadPrefix => "level doesn't start with -l"@,
            ArgError::BadLevel(fault) => fault.text(),
            ArgError::DuplicateLevel => "duplicate level"@,
            ArgError::MissingLevel => "missing arguments"@,
            ArgError::Empty => "empty args"@,
        }
    }

    /// A message for the user.
    pub fn message(&self) -> (m: String)
        ensures
            m@ == self.text(),
    {
        match self {
            ArgError::MissingArgs => "missing args".to_owned(),
            ArgError::BadPrefix => "level doesn't start with -l".to_owned(),
            ArgError::BadLevel(fault) => fault.message(),
            ArgError::DuplicateLevel => "duplicate level".to_owned(),
            ArgError::MissingLevel => "missing arguments".to_owned(),
            ArgError::Empty => "empty args".to_owned(),
        }
    }
}

} // verus!

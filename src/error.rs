use vstd::prelude::*;
use vstd::string::StringExecFns;

verus! {

/// What a type operation can fail with.
#[derive(Debug, Clone, Copy, PartialEq, Eq, Structural)]
pub enum StoreError {
    /// The key is absent or expired.
    KeyNotFound,
    /// The stored value has another shape than the operation needs.
    WrongType,
    /// The stored value is not a 64-bit integer, or the result does not fit one.
    NotAnInteger,
    /// The normalized start index lies after the end index.
    InvalidRange,
}

pub open spec fn error_text(e: StoreError) -> Seq<char> {
    match e {
        StoreError::KeyNotFound => "ERR key not found"@,
        StoreError::WrongType => "WRONGTYPE Operation against a key holding the wrong kind of value"@,
        StoreError::NotAnInteger => "ERR value is not an integer or out of range"@,
        StoreError::InvalidRange => "ERR start index greater than end index"@,
    }
}

impl StoreError {
    /// The reply text for this error.
    pub fn message(&self) -> (r: String)
        ensures
            r@ == error_text(*self),
    {
        match self {
            StoreError::KeyNotFound => String::from_str("ERR key not found"),
            StoreError::WrongType => String::from_str(
                "WRONGTYPE Operation against a key holding the wrong kind of value",
            ),
            StoreError::NotAnInteger => String::from_str(
                "ERR value is not an integer or out of range",
            ),
            StoreError::InvalidRange => String::from_str("ERR start index greater than end index"),
        }
    }
}

} // verus!

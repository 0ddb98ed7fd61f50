//! Plain flag shapes for reporting errors about unexpected value types.

use vstd::prelude::*;

verus! {

/// A boolean flag value.
#[derive(Debug)]
pub struct BooleanFlag {
    pub enabled: bool,
}

/// A string flag value.
#[derive(Debug)]
pub struct StringFlag {
    pub value: String,
}

/// A flag value as an error message describes it.
#[derive(Debug)]
pub enum Flag {
    BooleanFlag(BooleanFlag),
    StringFlag(StringFlag),
    InvalidFlag(),
}

} // verus!

use vstd::prelude::*;

use crate::std_bridge::usize_to_string;
use crate::text::decimal;

verus! {

/// An index that could not be used: either the arithmetic that produced it
/// overflowed, or it is a concrete value outside the valid range.
#[derive(Debug, Clone, Copy, PartialEq, Eq, Hash, Structural)]
pub enum IndexError {
    /// `checked_add`/`sub` returned [`None`]
    Overflow,
    Value(usize),
}

impl IndexError {
    /// The index as the editor shows it: `[overflow]`, or the value in
    /// decimal.
    pub fn to_string(&self) -> (r: String)
        ensures
            r@ == match self {
                IndexError::Overflow => "[overflow]"@,
                IndexError::Value(n) => decimal(*n as nat),
            },
    {
        match self {
            IndexError::Overflow => "[overflow]".to_owned(),
            IndexError::Value(n) => usize_to_string(*n),
        }
    }
}

} // verus!

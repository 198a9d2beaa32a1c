//! The errors of the library.

use vstd::prelude::*;

verus! {

/// Why a text could not be turned into a syntax tree.
#[derive(Clone, Copy, Debug, PartialEq, Eq, Structural)]
pub enum Error {
    /// A run of digits and points that is no decimal numeral, such as `1.2.3` or `.`.
    NumericConversion,
    /// The parser had to move past the last token.
    Syntax,
}

} // verus!

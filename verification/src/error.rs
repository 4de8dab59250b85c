//! The failures a decode pass can end in.

use vstd::prelude::*;

verus! {

/// Why a decode pass stopped. Every failure aborts the pass; none is retried.
#[derive(Clone, Copy, Debug, PartialEq, Eq, Structural)]
pub enum Error {
    /// The input ran out where more was required.
    Eof,
    /// The next token is not the quoted literal `"1"` or `"0"`.
    ExpectedBoolean,
    /// The next token is not a quoted integer literal.
    ExpectedInteger,
    /// The next token is not a string where one was required.
    ExpectedString,
    /// The bare word `null` was required and is absent.
    ExpectedNull,
    /// The delimiter after a command name is not a single space.
    ExpectedCommandSpace,
    /// After a command only the end of input or one line feed may follow.
    ExpectedCommandNewline,
    /// Characters remain after a complete decode pass.
    TrailingCharacters,
}

} // verus!

//! The ways in which scanning, parsing and checking an expression can fail.

use vstd::prelude::*;

verus! {

/// Every failure is final: nothing is skipped, repaired or retried after it.
#[derive(Clone, Copy, Debug, PartialEq, Eq, Structural)]
pub enum Error {
    /// The scanner met a character that is neither white space, nor an operator sign,
    /// nor a letter, nor a numeric character.
    UnknownCharacter,
    /// A number literal holds a character that is not an ASCII decimal digit.
    InvalidDigit,
    /// The parser needed a number and the lookahead token was something else.
    UnexpectedToken,
    /// An operation node carries a tag that is none of the four operators.
    InternalInvariant,
}

} // verus!

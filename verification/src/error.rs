//! The error kinds a parse can end with.

use vstd::prelude::*;

verus! {

/// Why a parse stopped.  Every sub-parser surfaces the first error it meets;
/// there is no recovery, and the entry point hands the error back verbatim.
#[derive(Clone, Copy, Debug, PartialEq, Eq, Structural)]
pub enum ParseError {
    /// A character stands where the grammar forbids it, at this offset into
    /// the input character sequence.
    UnexpectedChar { position: usize },
    /// The input ended inside a string literal.
    UnterminatedString,
    /// The input ended inside an object or an array.
    UnexpectedEnd,
    /// A backslash is followed by a character that starts no escape.
    InvalidEscape,
    /// A malformed `\u` sequence: fewer than four hex digits, or an unpaired
    /// surrogate.
    InvalidUnicodeEscape,
    /// A malformed numeric token.
    InvalidNumber,
    /// Non-whitespace content follows the top-level object.
    TrailingData,
    /// The nesting guard tripped.
    MaxDepthExceeded,
}

} // verus!

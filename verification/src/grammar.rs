//! The reference semantics of the parser: a specification-level
//! recursive-descent parser over the input character sequence.
//!
//! Each function here returns either `Ok((parsed thing, cursor just past
//! it))` or the first `ParseError` encountered, exactly as the executable
//! parser is required to.  The executable functions in `scan` and `parse`
//! carry `ensures` clauses equating their results with these functions.

use vstd::prelude::*;

use crate::error::ParseError;
use crate::model::{assoc_insert, JVal};

verus! {

/// The whitespace characters that are insignificant between tokens.
pub open spec fn is_ws_char(c: char) -> bool {
    c == ' ' || c == '\t' || c == '\n' || c == '\r'
}

/// An ASCII decimal digit.
pub open spec fn is_digit_char(c: char) -> bool {
    48 <= c as u32 <= 57
}

/// A sign character, permitted at the start of a numeric token and right
/// after an exponent marker.
pub open spec fn is_sign_char(c: char) -> bool {
    c == '+' || c == '-'
}

/// An exponent marker inside a numeric token.
pub open spec fn is_exp_char(c: char) -> bool {
    c == 'e' || c == 'E'
}

/// An ASCII hexadecimal digit.
pub open spec fn is_hex_digit(c: char) -> bool {
    is_digit_char(c) || 97 <= c as u32 <= 102 || 65 <= c as u32 <= 70
}

/// The numeric value of a hexadecimal digit.
pub open spec fn hex_digit_val(c: char) -> int {
    if is_digit_char(c) {
        c as u32 - 48
    } else if 97 <= c as u32 <= 102 {
        c as u32 - 87
    } else {
        c as u32 - 55
    }
}

/// The code unit in the high-surrogate range that opens a surrogate pair.
pub open spec fn is_high_surrogate(u: int) -> bool {
    0xD800 <= u < 0xDC00
}

/// The code unit in the low-surrogate range that closes a surrogate pair.
pub open spec fn is_low_surrogate(u: int) -> bool {
    0xDC00 <= u < 0xE000
}

/// The Unicode scalar encoded by a surrogate pair.
pub open spec fn combine_surrogates(hi: int, lo: int) -> int {
    0x10000 + (hi - 0xD800) * 0x400 + (lo - 0xDC00)
}

/// A value a `char` may hold: a Unicode scalar.
pub open spec fn is_unicode_scalar(u: int) -> bool {
    0 <= u < 0xD800 || 0xE000 <= u <= 0x10FFFF
}

/// The first position at or after `i` whose character is not whitespace
/// (or the end of the input).
pub open spec fn sp_skip_ws(s: Seq<char>, i: int) -> int
    decreases s.len() - i,
{
    if 0 <= i < s.len() && is_ws_char(s[i]) {
        sp_skip_ws(s, i + 1)
    } else {
        i
    }
}

pub proof fn lemma_skip_ws(s: Seq<char>, i: int)
    requires
        0 <= i <= s.len(),
    ensures
        i <= sp_skip_ws(s, i) <= s.len(),
        forall|t: int| i <= t < sp_skip_ws(s, i) ==> is_ws_char(s[t]),
        sp_skip_ws(s, i) == s.len() || !is_ws_char(s[sp_skip_ws(s, i)]),
    decreases s.len() - i,
{
    if i < s.len() && is_ws_char(s[i]) {
        lemma_skip_ws(s, i + 1);
    }
}

/// Four hexadecimal digits starting at `i`, read as one 16-bit code unit;
/// `None` when fewer than four hexadecimal digits are available.
pub open spec fn sp_hex4(s: Seq<char>, i: int) -> Option<int> {
    if 0 <= i && i + 4 <= s.len() && is_hex_digit(s[i]) && is_hex_digit(s[i + 1]) && is_hex_digit(
        s[i + 2],
    ) && is_hex_digit(s[i + 3]) {
        Some(
            hex_digit_val(s[i]) * 0x1000 + hex_digit_val(s[i + 1]) * 0x100 + hex_digit_val(
                s[i + 2],
            ) * 0x10 + hex_digit_val(s[i + 3]),
        )
    } else {
        None
    }
}

/// The `ParseError` for a character the grammar forbids at offset `i`.
pub open spec fn unexpected_char(i: int) -> ParseError {
    ParseError::UnexpectedChar { position: i as usize }
}

/// Decodes one backslash escape.  `i` is the position just past the
/// backslash; the result is the decoded character and the position just
/// past the whole escape.
pub open spec fn sp_escape(s: Seq<char>, i: int) -> Result<(char, int), ParseError> {
    if !(0 <= i < s.len()) {
        Err(ParseError::UnterminatedString)
    } else {
        let c = s[i];
        if c == '"' {
            Ok(('"', i + 1))
        } else if c == '\\' {
            Ok(('\\', i + 1))
        } else if c == '/' {
            Ok(('/', i + 1))
        } else if c == 'n' {
            Ok(('\n', i + 1))
        } else if c == 'r' {
            Ok(('\r', i + 1))
        } else if c == 't' {
            Ok(('\t', i + 1))
        } else if c == 'b' {
            Ok(('\u{8}', i + 1))
        } else if c == 'f' {
            Ok(('\u{c}', i + 1))
        } else if c == 'u' {
            match sp_hex4(s, i + 1) {
                None => Err(ParseError::InvalidUnicodeEscape),
                Some(u) => {
                    if is_high_surrogate(u) {
                        if i + 7 <= s.len() && s[i + 5] == '\\' && s[i + 6] == 'u' {
                            match sp_hex4(s, i + 7) {
                                None => Err(ParseError::InvalidUnicodeEscape),
                                Some(lo) => {
                                    if is_low_surrogate(lo) {
                                        Ok(
                                            (
                                                (combine_surrogates(u, lo) as u32) as char,
                                                i + 11,
                                            ),
                                        )
                                    } else {
                                        Err(ParseError::InvalidUnicodeEscape)
                                    }
                                },
                            }
                        } else {
                            Err(ParseError::InvalidUnicodeEscape)
                        }
                    } else if is_low_surrogate(u) {
                        Err(ParseError::InvalidUnicodeEscape)
                    } else {
                        Ok(((u as u32) as char, i + 5))
                    }
                },
            }
        } else {
            Err(ParseError::InvalidEscape)
        }
    }
}

pub proof fn lemma_escape_bounds(s: Seq<char>, i: int)
    ensures
        sp_escape(s, i) matches Ok(r) ==> 0 <= i && i < r.1 <= s.len(),
{
}

/// Consumes a quoted string.  `i` is the position just past the opening
/// quote and `acc` the text decoded so far; the result is the decoded text
/// and the position just past the closing quote.
pub open spec fn sp_string(s: Seq<char>, i: int, acc: Seq<char>) -> Result<
    (Seq<char>, int),
    ParseError,
>
    decreases s.len() - i,
{
    if !(0 <= i < s.len()) {
        Err(ParseError::UnterminatedString)
    } else if s[i] == '"' {
        Ok((acc, i + 1))
    } else if s[i] == '\\' {
        match sp_escape(s, i + 1) {
            Err(e) => Err(e),
            Ok((c, j)) => {
                proof {
                    lemma_escape_bounds(s, i + 1);
                }
                sp_string(s, j, acc.push(c))
            },
        }
    } else {
        sp_string(s, i + 1, acc.push(s[i]))
    }
}

pub proof fn lemma_string_bounds(s: Seq<char>, i: int, acc: Seq<char>)
    ensures
        sp_string(s, i, acc) matches Ok(r) ==> 0 <= i && i < r.1 <= s.len(),
    decreases s.len() - i,
{
    if 0 <= i < s.len() && s[i] != '"' {
        if s[i] == '\\' {
            lemma_escape_bounds(s, i + 1);
            if let Ok((c, j)) = sp_escape(s, i + 1) {
                lemma_string_bounds(s, j, acc.push(c));
            }
        } else {
            lemma_string_bounds(s, i + 1, acc.push(s[i]));
        }
    }
}

/// Consumes the maximal run of characters a numeric token may hold,
/// starting at `i` with `acc` already consumed.  A sign is accepted only at
/// the start of the token or right after an exponent marker; a second
/// decimal point or exponent marker is an error.
pub open spec fn sp_num_scan(s: Seq<char>, i: int, acc: Seq<char>) -> Result<
    (Seq<char>, int),
    ParseError,
>
    decreases s.len() - i,
{
    if !(0 <= i < s.len()) {
        Ok((acc, i))
    } else {
        let c = s[i];
        if is_digit_char(c) {
            sp_num_scan(s, i + 1, acc.push(c))
        } else if is_sign_char(c) {
            if acc.len() == 0 || is_exp_char(acc.last()) {
                sp_num_scan(s, i + 1, acc.push(c))
            } else {
                Err(ParseError::InvalidNumber)
            }
        } else if c == '.' {
            if acc.contains('.') {
                Err(ParseError::InvalidNumber)
            } else {
                sp_num_scan(s, i + 1, acc.push(c))
            }
        } else if is_exp_char(c) {
            if acc.contains('e') || acc.contains('E') {
                Err(ParseError::InvalidNumber)
            } else {
                sp_num_scan(s, i + 1, acc.push(c))
            }
        } else {
            Ok((acc, i))
        }
    }
}

pub proof fn lemma_num_scan_bounds(s: Seq<char>, i: int, acc: Seq<char>)
    requires
        0 <= i <= s.len(),
    ensures
        sp_num_scan(s, i, acc) matches Ok(r) ==> i <= r.1 <= s.len() && r.0.len() == acc.len() + (
        r.1 - i),
    decreases s.len() - i,
{
    if i < s.len() {
        let c = s[i];
        if is_digit_char(c) || (is_sign_char(c) && (acc.len() == 0 || is_exp_char(acc.last())))
            || (c == '.' && !acc.contains('.')) || (is_exp_char(c) && !acc.contains('e')
            && !acc.contains('E')) {
            lemma_num_scan_bounds(s, i + 1, acc.push(c));
        }
    }
}

/// The states of the validation automaton for a numeric token.
#[derive(Clone, Copy, Debug, PartialEq, Eq, Structural)]
pub enum NumState {
    /// Nothing read yet.
    Start,
    /// A leading sign was read.
    Sign,
    /// Inside the integer digit run.
    IntDigits,
    /// A decimal point was read; a digit must follow.
    Dot,
    /// Inside the fraction digit run.
    FracDigits,
    /// An exponent marker was read; a sign or digit must follow.
    Exp,
    /// A sign after the exponent marker; a digit must follow.
    ExpSign,
    /// Inside the exponent digit run.
    ExpDigits,
    /// The token can no longer be valid.
    Reject,
}

/// One transition of the numeric-token automaton.
pub open spec fn num_step(st: NumState, c: char) -> NumState {
    match st {
        NumState::Start => if is_sign_char(c) {
            NumState::Sign
        } else if is_digit_char(c) {
            NumState::IntDigits
        } else {
            NumState::Reject
        },
        NumState::Sign => if is_digit_char(c) {
            NumState::IntDigits
        } else {
            NumState::Reject
        },
        NumState::IntDigits => if is_digit_char(c) {
            NumState::IntDigits
        } else if c == '.' {
            NumState::Dot
        } else if is_exp_char(c) {
            NumState::Exp
        } else {
            NumState::Reject
        },
        NumState::Dot => if is_digit_char(c) {
            NumState::FracDigits
        } else {
            NumState::Reject
        },
        NumState::FracDigits => if is_digit_char(c) {
            NumState::FracDigits
        } else if is_exp_char(c) {
            NumState::Exp
        } else {
            NumState::Reject
        },
        NumState::Exp => if is_sign_char(c) {
            NumState::ExpSign
        } else if is_digit_char(c) {
            NumState::ExpDigits
        } else {
            NumState::Reject
        },
        NumState::ExpSign => if is_digit_char(c) {
            NumState::ExpDigits
        } else {
            NumState::Reject
        },
        NumState::ExpDigits => if is_digit_char(c) {
            NumState::ExpDigits
        } else {
            NumState::Reject
        },
        NumState::Reject => NumState::Reject,
    }
}

/// Runs the numeric-token automaton over `t` from position `i` onwards.
pub open spec fn num_run(t: Seq<char>, i: int, st: NumState) -> NumState
    decreases t.len() - i,
{
    if 0 <= i < t.len() {
        num_run(t, i + 1, num_step(st, t[i]))
    } else {
        st
    }
}

/// The automaton accepts in any state that ends a digit run.
pub open spec fn num_accepting(st: NumState) -> bool {
    st == NumState::IntDigits || st == NumState::FracDigits || st == NumState::ExpDigits
}

/// A valid numeric token: an optional sign, one or more digits, an optional
/// fraction of one or more digits, and an optional signed exponent of one
/// or more digits.
pub open spec fn num_token_valid(t: Seq<char>) -> bool {
    num_accepting(num_run(t, 0, NumState::Start))
}

/// Consumes a numeric token at `i`: the maximal run, which must then be a
/// valid token.  The result keeps the raw token text.
pub open spec fn sp_number(s: Seq<char>, i: int) -> Result<(Seq<char>, int), ParseError> {
    match sp_num_scan(s, i, Seq::<char>::empty()) {
        Err(e) => Err(e),
        Ok((t, j)) => if num_token_valid(t) {
            Ok((t, j))
        } else {
            Err(ParseError::InvalidNumber)
        },
    }
}

pub proof fn lemma_number_bounds(s: Seq<char>, i: int)
    requires
        0 <= i <= s.len(),
    ensures
        sp_number(s, i) matches Ok(r) ==> i < r.1 <= s.len() && r.0.len() == r.1 - i,
{
    lemma_num_scan_bounds(s, i, Seq::<char>::empty());
}

/// Matches one of the fixed literals `null`, `true`, `false` at `i`.
pub open spec fn sp_literal(s: Seq<char>, i: int) -> Result<(JVal, int), ParseError> {
    if !(0 <= i < s.len()) {
        Err(ParseError::UnexpectedEnd)
    } else if s[i] == 'n' {
        if i + 4 <= s.len() && s[i + 1] == 'u' && s[i + 2] == 'l' && s[i + 3] == 'l' {
            Ok((JVal::Null, i + 4))
        } else {
            Err(unexpected_char(i))
        }
    } else if s[i] == 't' {
        if i + 4 <= s.len() && s[i + 1] == 'r' && s[i + 2] == 'u' && s[i + 3] == 'e' {
            Ok((JVal::Bool(true), i + 4))
        } else {
            Err(unexpected_char(i))
        }
    } else if s[i] == 'f' {
        if i + 5 <= s.len() && s[i + 1] == 'a' && s[i + 2] == 'l' && s[i + 3] == 's' && s[i + 4]
            == 'e' {
            Ok((JVal::Bool(false), i + 5))
        } else {
            Err(unexpected_char(i))
        }
    } else {
        Err(unexpected_char(i))
    }
}

/// A recursion index that is structurally known to advance: `j` when it
/// lies strictly beyond `i` and within the input, else `i + 1`.  Wherever
/// it is used, the executable parser proves that `j` itself is taken.
pub open spec fn sp_step(i: int, j: int, n: int) -> int {
    if i < j <= n {
        j
    } else {
        i + 1
    }
}

/// Parses one value whose first significant character stands at `i`.
/// `depth` is the number of container levels still allowed.
pub open spec fn sp_value(s: Seq<char>, i: int, depth: int) -> Result<(JVal, int), ParseError>
    decreases s.len() - i, 2int,
{
    if !(0 <= i < s.len()) {
        Err(ParseError::UnexpectedEnd)
    } else {
        let c = s[i];
        if c == '"' {
            match sp_string(s, i + 1, Seq::<char>::empty()) {
                Err(e) => Err(e),
                Ok((t, j)) => Ok((JVal::Str(t), j)),
            }
        } else if is_digit_char(c) || is_sign_char(c) {
            match sp_number(s, i) {
                Err(e) => Err(e),
                Ok((t, j)) => Ok((JVal::Num(t), j)),
            }
        } else if c == 'n' || c == 't' || c == 'f' {
            sp_literal(s, i)
        } else if c == '[' {
            match sp_array(s, i, depth) {
                Err(e) => Err(e),
                Ok((es, j)) => Ok((JVal::Arr(es), j)),
            }
        } else if c == '{' {
            match sp_object(s, i, depth) {
                Err(e) => Err(e),
                Ok((m, j)) => Ok((JVal::Obj(m), j)),
            }
        } else {
            Err(unexpected_char(i))
        }
    }
}

/// Parses an object whose opening brace stands at `i`, yielding its
/// mapping: unique keys, a repeated key keeping its last value.
pub open spec fn sp_object(s: Seq<char>, i: int, depth: int) -> Result<
    (Seq<(Seq<char>, JVal)>, int),
    ParseError,
>
    decreases s.len() - i, 1int,
{
    if !(0 <= i < s.len()) {
        Err(ParseError::UnexpectedEnd)
    } else if s[i] != '{' {
        Err(unexpected_char(i))
    } else if depth <= 0 {
        Err(ParseError::MaxDepthExceeded)
    } else {
        sp_members(s, i + 1, Seq::<(Seq<char>, JVal)>::empty(), depth - 1)
    }
}

/// Parses the members of an object from just past `{` or `,`: a key and a
/// value, committed into `acc` at once, until the closing brace.
pub open spec fn sp_members(
    s: Seq<char>,
    i: int,
    acc: Seq<(Seq<char>, JVal)>,
    depth: int,
) -> Result<(Seq<(Seq<char>, JVal)>, int), ParseError>
    decreases s.len() - i, 3int,
        when 0 <= i <= s.len()
{
    let j = sp_skip_ws(s, i);
    if j >= s.len() {
        Err(ParseError::UnexpectedEnd)
    } else if s[j] == '}' {
        Ok((acc, j + 1))
    } else if s[j] == '"' {
        match sp_string(s, j + 1, Seq::<char>::empty()) {
            Err(e) => Err(e),
            Ok((k, e1)) => {
                let q = sp_skip_ws(s, e1);
                if q >= s.len() {
                    Err(ParseError::UnexpectedEnd)
                } else if s[q] != ':' {
                    Err(unexpected_char(q))
                } else {
                    let w = sp_skip_ws(s, q + 1);
                    proof {
                        lemma_skip_ws(s, i);
                        lemma_string_bounds(s, j + 1, Seq::<char>::empty());
                        lemma_skip_ws(s, e1);
                        lemma_skip_ws(s, q + 1);
                    }
                    match sp_value(s, w, depth) {
                        Err(e) => Err(e),
                        Ok((v, e2)) => {
                            let t = sp_skip_ws(s, e2);
                            if t >= s.len() {
                                Err(ParseError::UnexpectedEnd)
                            } else if s[t] == ',' {
                                sp_members(
                                    s,
                                    sp_step(i, t + 1, s.len() as int),
                                    assoc_insert(acc, k, v),
                                    depth,
                                )
                            } else if s[t] == '}' {
                                Ok((assoc_insert(acc, k, v), t + 1))
                            } else {
                                Err(unexpected_char(t))
                            }
                        },
                    }
                }
            },
        }
    } else {
        Err(unexpected_char(j))
    }
}

/// Parses an array whose opening bracket stands at `i`, yielding its
/// elements in encounter order.
pub open spec fn sp_array(s: Seq<char>, i: int, depth: int) -> Result<
    (Seq<JVal>, int),
    ParseError,
>
    decreases s.len() - i, 1int,
{
    if !(0 <= i < s.len()) {
        Err(ParseError::UnexpectedEnd)
    } else if s[i] != '[' {
        Err(unexpected_char(i))
    } else if depth <= 0 {
        Err(ParseError::MaxDepthExceeded)
    } else {
        sp_elements(s, i + 1, Seq::<JVal>::empty(), depth - 1)
    }
}

/// Parses the elements of an array from just past `[` or `,`, appending
/// each to `acc`, until the closing bracket.
pub open spec fn sp_elements(s: Seq<char>, i: int, acc: Seq<JVal>, depth: int) -> Result<
    (Seq<JVal>, int),
    ParseError,
>
    decreases s.len() - i, 3int,
        when 0 <= i <= s.len()
{
    let j = sp_skip_ws(s, i);
    if j >= s.len() {
        Err(ParseError::UnexpectedEnd)
    } else if s[j] == ']' {
        Ok((acc, j + 1))
    } else {
        proof {
            lemma_skip_ws(s, i);
        }
        match sp_value(s, j, depth) {
            Err(e) => Err(e),
            Ok((v, e2)) => {
                let t = sp_skip_ws(s, e2);
                if t >= s.len() {
                    Err(ParseError::UnexpectedEnd)
                } else if s[t] == ',' {
                    sp_elements(s, sp_step(i, t + 1, s.len() as int), acc.push(v), depth)
                } else if s[t] == ']' {
                    Ok((acc.push(v), t + 1))
                } else {
                    Err(unexpected_char(t))
                }
            },
        }
    }
}

/// Parses a whole document: optional whitespace, one object, optional
/// whitespace, the end of the input.  `limit` is the nesting guard.
pub open spec fn sp_document(s: Seq<char>, limit: int) -> Result<
    Seq<(Seq<char>, JVal)>,
    ParseError,
> {
    let j = sp_skip_ws(s, 0);
    match sp_object(s, j, limit) {
        Err(e) => Err(e),
        Ok((m, e)) => {
            let t = sp_skip_ws(s, e);
            if t < s.len() {
                Err(ParseError::TrailingData)
            } else {
                Ok(m)
            }
        },
    }
}

} // verus!

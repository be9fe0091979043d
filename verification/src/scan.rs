//! The token-level scanners: whitespace, escapes, strings, numbers and the
//! fixed literals.  Each is proved to return exactly what the
//! specification-level parser in `grammar` returns.

use vstd::prelude::*;

use crate::error::ParseError;
use crate::grammar::{
    hex_digit_val, is_digit_char, is_hex_digit, is_unicode_scalar, is_ws_char, num_accepting,
    num_run, num_step, num_token_valid, sp_escape, sp_hex4, sp_literal, sp_num_scan, sp_number,
    sp_skip_ws, sp_string, NumState,
};
use crate::value::{str_res_view, val_res_view, JsonValueTypes};

verus! {

/// The model of an escape-decoder result.
pub open spec fn chr_res_view(r: Result<(char, usize), ParseError>) -> Result<
    (char, int),
    ParseError,
> {
    match r {
        Ok((c, j)) => Ok((c, j as int)),
        Err(e) => Err(e),
    }
}

/// Relies on `String::push`: appends the given character to the end of the
/// string.
#[verifier::external_body]
fn push_char(s: &mut String, c: char)
    ensures
        final(s)@ == old(s)@.push(c),
{
    s.push(c);
}

/// Relies on `char::from_u32`: returns the character with the given value
/// exactly when that value is a Unicode scalar, and `None` otherwise.
#[verifier::external_body]
fn char_from_u32(u: u32) -> (r: Option<char>)
    ensures
        is_unicode_scalar(u as int) ==> r == Some(u as char),
        !is_unicode_scalar(u as int) ==> r is None,
{
    char::from_u32(u)
}

/// Whether `c` is insignificant whitespace between tokens.
pub fn is_ws(c: char) -> (r: bool)
    ensures
        r == is_ws_char(c),
{
    c == ' ' || c == '\t' || c == '\n' || c == '\r'
}

/// Whether `c` is an ASCII decimal digit.
pub fn is_digit(c: char) -> (r: bool)
    ensures
        r == is_digit_char(c),
{
    let u = c as u32;
    48 <= u && u <= 57
}

/// Whether `c` is an ASCII hexadecimal digit.
pub fn is_hex(c: char) -> (r: bool)
    ensures
        r == is_hex_digit(c),
{
    let u = c as u32;
    (48 <= u && u <= 57) || (97 <= u && u <= 102) || (65 <= u && u <= 70)
}

/// The numeric value of a hexadecimal digit.
pub fn hex_val(c: char) -> (r: u32)
    requires
        is_hex_digit(c),
    ensures
        r == hex_digit_val(c),
        r < 16,
{
    let u = c as u32;
    if 48 <= u && u <= 57 {
        u - 48
    } else if 97 <= u && u <= 102 {
        u - 87
    } else {
        u - 55
    }
}

/// Advances the cursor past insignificant whitespace.
pub fn skip_ws(s: &Vec<char>, i: usize) -> (j: usize)
    requires
        i <= s@.len(),
    ensures
        j as int == sp_skip_ws(s@, i as int),
        i <= j <= s@.len(),
{
    let mut j = i;
    while j < s.len() && is_ws(s[j])
        invariant
            i <= j <= s@.len(),
            sp_skip_ws(s@, i as int) == sp_skip_ws(s@, j as int),
        decreases s@.len() - j,
    {
        j = j + 1;
    }
    j
}

/// Reads four hexadecimal digits at `i` as one 16-bit code unit.
pub fn hex4(s: &Vec<char>, i: usize) -> (r: Option<u32>)
    requires
        i <= s@.len(),
    ensures
        match r {
            Some(u) => sp_hex4(s@, i as int) == Some(u as int) && u <= 0xFFFF,
            None => sp_hex4(s@, i as int) is None,
        },
{
    if s.len() - i >= 4 && is_hex(s[i]) && is_hex(s[i + 1]) && is_hex(s[i + 2]) && is_hex(
        s[i + 3],
    ) {
        let u = hex_val(s[i]) * 0x1000 + hex_val(s[i + 1]) * 0x100 + hex_val(s[i + 2]) * 0x10
            + hex_val(s[i + 3]);
        Some(u)
    } else {
        None
    }
}

/// Decodes one backslash escape; `i` is the position just past the
/// backslash.
pub fn decode_escape(s: &Vec<char>, i: usize) -> (r: Result<(char, usize), ParseError>)
    requires
        i <= s@.len(),
    ensures
        chr_res_view(r) == sp_escape(s@, i as int),
        r matches Ok(p) ==> i < p.1 <= s@.len(),
{
    if i >= s.len() {
        return Err(ParseError::UnterminatedString);
    }
    let c = s[i];
    match c {
        '"' => Ok(('"', i + 1)),
        '\\' => Ok(('\\', i + 1)),
        '/' => Ok(('/', i + 1)),
        'n' => Ok(('\n', i + 1)),
        'r' => Ok(('\r', i + 1)),
        't' => Ok(('\t', i + 1)),
        'b' => Ok(('\u{8}', i + 1)),
        'f' => Ok(('\u{c}', i + 1)),
        'u' => {
            match hex4(s, i + 1) {
                None => Err(ParseError::InvalidUnicodeEscape),
                Some(u) => {
                    if 0xD800 <= u && u < 0xDC00 {
                        // A high surrogate must be followed by a `\uXXXX`
                        // low surrogate; the pair encodes one scalar.
                        if s.len() - i >= 7 && s[i + 5] == '\\' && s[i + 6] == 'u' {
                            match hex4(s, i + 7) {
                                None => Err(ParseError::InvalidUnicodeEscape),
                                Some(lo) => {
                                    if 0xDC00 <= lo && lo < 0xE000 {
                                        let scalar = 0x10000 + (u - 0xD800) * 0x400 + (lo
                                            - 0xDC00);
                                        // A combined pair is always a
                                        // scalar, so the conversion cannot
                                        // fail.
                                        let copt = char_from_u32(scalar);
                                        let d = copt.unwrap();
                                        Ok((d, i + 11))
                                    } else {
                                        Err(ParseError::InvalidUnicodeEscape)
                                    }
                                },
                            }
                        } else {
                            Err(ParseError::InvalidUnicodeEscape)
                        }
                    } else if 0xDC00 <= u && u < 0xE000 {
                        Err(ParseError::InvalidUnicodeEscape)
                    } else {
                        // A code unit outside the surrogate ranges is
                        // always a scalar, so the conversion cannot fail.
                        let copt = char_from_u32(u);
                        let d = copt.unwrap();
                        Ok((d, i + 5))
                    }
                },
            }
        },
        _ => Err(ParseError::InvalidEscape),
    }
}

/// Consumes a quoted string; `i` is the position just past the opening
/// quote.  Returns the decoded text and the position just past the closing
/// quote.
pub fn extract_string(s: &Vec<char>, i: usize) -> (r: Result<(String, usize), ParseError>)
    requires
        i <= s@.len(),
    ensures
        str_res_view(r) == sp_string(s@, i as int, Seq::<char>::empty()),
        r matches Ok(p) ==> i < p.1 <= s@.len(),
{
    let mut j = i;
    let mut acc = String::new();
    loop
        invariant
            i <= j <= s@.len(),
            sp_string(s@, i as int, Seq::<char>::empty()) == sp_string(s@, j as int, acc@),
        decreases s@.len() - j,
    {
        if j >= s.len() {
            return Err(ParseError::UnterminatedString);
        }
        let c = s[j];
        if c == '"' {
            return Ok((acc, j + 1));
        }
        if c == '\\' {
            match decode_escape(s, j + 1) {
                Err(e) => {
                    return Err(e);
                },
                Ok((d, e)) => {
                    push_char(&mut acc, d);
                    j = e;
                },
            }
        } else {
            push_char(&mut acc, c);
            j = j + 1;
        }
    }
}

proof fn lemma_contains_push(s: Seq<char>, c: char, x: char)
    ensures
        s.push(c).contains(x) == (s.contains(x) || c == x),
{
    if s.contains(x) {
        let k = choose|k: int| 0 <= k < s.len() && s[k] == x;
        assert(s.push(c)[k] == x);
    }
    if c == x {
        assert(s.push(c)[s.len() as int] == x);
    }
    if s.push(c).contains(x) {
        let k = choose|k: int| 0 <= k < s.push(c).len() && s.push(c)[k] == x;
        if k < s.len() {
            assert(s[k] == x);
        }
    }
}

/// Consumes the maximal run of characters a numeric token may hold.
fn scan_number(s: &Vec<char>, i: usize) -> (r: Result<(String, usize), ParseError>)
    requires
        i <= s@.len(),
    ensures
        str_res_view(r) == sp_num_scan(s@, i as int, Seq::<char>::empty()),
        r matches Ok(p) ==> i <= p.1 <= s@.len() && p.0@ == s@.subrange(i as int, p.1 as int),
{
    let mut j = i;
    let mut acc = String::new();
    let mut has_dot = false;
    let mut has_exp = false;
    let mut last: char = ' ';
    loop
        invariant
            i <= j <= s@.len(),
            acc@ == s@.subrange(i as int, j as int),
            has_dot == acc@.contains('.'),
            has_exp == (acc@.contains('e') || acc@.contains('E')),
            acc@.len() == j - i,
            j > i ==> last == acc@.last(),
            sp_num_scan(s@, i as int, Seq::<char>::empty()) == sp_num_scan(s@, j as int, acc@),
        decreases s@.len() - j,
    {
        if j >= s.len() {
            return Ok((acc, j));
        }
        let c = s[j];
        if is_digit(c) {
            // A digit is always part of the token.
        } else if c == '+' || c == '-' {
            if !(j == i || last == 'e' || last == 'E') {
                return Err(ParseError::InvalidNumber);
            }
        } else if c == '.' {
            if has_dot {
                return Err(ParseError::InvalidNumber);
            }
            has_dot = true;
        } else if c == 'e' || c == 'E' {
            if has_exp {
                return Err(ParseError::InvalidNumber);
            }
            has_exp = true;
        } else {
            return Ok((acc, j));
        }
        proof {
            lemma_contains_push(acc@, c, '.');
            lemma_contains_push(acc@, c, 'e');
            lemma_contains_push(acc@, c, 'E');
            assert(s@.subrange(i as int, j + 1) =~= s@.subrange(i as int, j as int).push(
                s@[j as int],
            ));
        }
        push_char(&mut acc, c);
        last = c;
        j = j + 1;
    }
}

/// One transition of the numeric-token automaton.
fn num_step_at(st: NumState, c: char) -> (r: NumState)
    ensures
        r == num_step(st, c),
{
    match st {
        NumState::Start => if c == '+' || c == '-' {
            NumState::Sign
        } else if is_digit(c) {
            NumState::IntDigits
        } else {
            NumState::Reject
        },
        NumState::Sign => if is_digit(c) {
            NumState::IntDigits
        } else {
            NumState::Reject
        },
        NumState::IntDigits => if is_digit(c) {
            NumState::IntDigits
        } else if c == '.' {
            NumState::Dot
        } else if c == 'e' || c == 'E' {
            NumState::Exp
        } else {
            NumState::Reject
        },
        NumState::Dot => if is_digit(c) {
            NumState::FracDigits
        } else {
            NumState::Reject
        },
        NumState::FracDigits => if is_digit(c) {
            NumState::FracDigits
        } else if c == 'e' || c == 'E' {
            NumState::Exp
        } else {
            NumState::Reject
        },
        NumState::Exp => if c == '+' || c == '-' {
            NumState::ExpSign
        } else if is_digit(c) {
            NumState::ExpDigits
        } else {
            NumState::Reject
        },
        NumState::ExpSign => if is_digit(c) {
            NumState::ExpDigits
        } else {
            NumState::Reject
        },
        NumState::ExpDigits => if is_digit(c) {
            NumState::ExpDigits
        } else {
            NumState::Reject
        },
        NumState::Reject => NumState::Reject,
    }
}

/// Runs the numeric-token automaton over the characters in `[i, j)`.
fn num_valid_range(s: &Vec<char>, i: usize, j: usize) -> (r: bool)
    requires
        i <= j <= s@.len(),
    ensures
        r == num_token_valid(s@.subrange(i as int, j as int)),
{
    let ghost t = s@.subrange(i as int, j as int);
    let mut st = NumState::Start;
    let mut k = i;
    while k < j
        invariant
            i <= k <= j <= s@.len(),
            t == s@.subrange(i as int, j as int),
            num_run(t, 0, NumState::Start) == num_run(t, k - i, st),
        decreases j - k,
    {
        proof {
            assert(t[k - i] == s@[k as int]);
        }
        st = num_step_at(st, s[k]);
        k = k + 1;
    }
    st == NumState::IntDigits || st == NumState::FracDigits || st == NumState::ExpDigits
}

/// Consumes a numeric token at `i`: the maximal run, which must then be a
/// valid token.  Returns the raw token text and the position just past it.
pub fn extract_number(s: &Vec<char>, i: usize) -> (r: Result<(String, usize), ParseError>)
    requires
        i <= s@.len(),
    ensures
        str_res_view(r) == sp_number(s@, i as int),
        r matches Ok(p) ==> i < p.1 <= s@.len(),
{
    match scan_number(s, i) {
        Err(e) => Err(e),
        Ok((t, j)) => {
            if num_valid_range(s, i, j) {
                proof {
                    if j == i {
                        assert(!num_accepting(num_run(t@, 0, NumState::Start)));
                    }
                }
                Ok((t, j))
            } else {
                Err(ParseError::InvalidNumber)
            }
        },
    }
}

/// Matches one of the fixed literals `null`, `true`, `false` at `i`.
pub fn extract_literal(s: &Vec<char>, i: usize) -> (r: Result<(JsonValueTypes, usize), ParseError>)
    requires
        i <= s@.len(),
    ensures
        val_res_view(r) == sp_literal(s@, i as int),
        r matches Ok(p) ==> i < p.1 <= s@.len(),
{
    if i >= s.len() {
        return Err(ParseError::UnexpectedEnd);
    }
    let c = s[i];
    if c == 'n' {
        if s.len() - i >= 4 && s[i + 1] == 'u' && s[i + 2] == 'l' && s[i + 3] == 'l' {
            Ok((JsonValueTypes::Null, i + 4))
        } else {
            Err(ParseError::UnexpectedChar { position: i })
        }
    } else if c == 't' {
        if s.len() - i >= 4 && s[i + 1] == 'r' && s[i + 2] == 'u' && s[i + 3] == 'e' {
            Ok((JsonValueTypes::Boolean(true), i + 4))
        } else {
            Err(ParseError::UnexpectedChar { position: i })
        }
    } else if c == 'f' {
        if s.len() - i >= 5 && s[i + 1] == 'a' && s[i + 2] == 'l' && s[i + 3] == 's' && s[i + 4]
            == 'e' {
            Ok((JsonValueTypes::Boolean(false), i + 5))
        } else {
            Err(ParseError::UnexpectedChar { position: i })
        }
    } else {
        Err(ParseError::UnexpectedChar { position: i })
    }
}

} // verus!

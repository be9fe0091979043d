//! The recursive-descent parser: value dispatcher, object and array
//! parsers, and the entry points.

use vstd::pervasive::VecAdditionalExecFns;
use vstd::prelude::*;
use vstd::string::StrSliceExecFns;

use crate::error::ParseError;
use crate::grammar::{sp_array, sp_document, sp_members, sp_elements, sp_object, sp_step, sp_value};
use crate::laws::law_parsed_tree_well_formed;
use crate::model::{
    assoc_insert, assoc_unique, jval_wf, lemma_assoc_insert_append, lemma_assoc_insert_update,
    pairs_all_wf, JVal,
};
use crate::scan::{extract_literal, extract_number, extract_string, is_digit, skip_ws};
use crate::value::{
    arr_res_view, arr_view, jv_view, lemma_arr_view_push, lemma_obj_view, obj_res_view, obj_view,
    val_res_view, JsonValueTypes,
};

verus! {

/// The nesting guard used by `parse` and `JsonParser::new`: how many
/// container levels an input may open.
pub const DEFAULT_MAX_DEPTH: u32 = 128;

/// Commits one key/value pair into the mapping: the entry holding the key
/// is overwritten in place if there is one, else the pair is appended.
fn insert_pair(m: &mut Vec<(String, JsonValueTypes)>, k: String, v: JsonValueTypes)
    ensures
        obj_view(final(m)@) == assoc_insert(obj_view(old(m)@), k@, jv_view(v)),
{
    let ghost m0 = old(m)@;
    let mut idx: usize = 0;
    while idx < m.len()
        invariant
            m0 == old(m)@,
            m@ == m0,
            idx <= m0.len(),
            forall|t: int| 0 <= t < idx ==> m0[t].0@ != k@,
        decreases m0.len() - idx,
    {
        if m[idx].0 == k {
            proof {
                lemma_obj_view(m0);
                lemma_assoc_insert_update(obj_view(m0), k@, jv_view(v), idx as int);
            }
            m.set(idx, (k, v));
            proof {
                lemma_obj_view(m@);
                assert(obj_view(m@) =~= obj_view(m0).update(idx as int, (k@, jv_view(v))));
            }
            return;
        }
        idx = idx + 1;
    }
    proof {
        lemma_obj_view(m0);
        lemma_assoc_insert_append(obj_view(m0), k@, jv_view(v));
    }
    m.push((k, v));
    proof {
        lemma_obj_view(m@);
        assert(obj_view(m@) =~= obj_view(m0).push((k@, jv_view(v))));
    }
}

/// Parses one value whose first significant character stands at `i`.
/// `depth` is the number of container levels still allowed.
pub fn parse_value(s: &Vec<char>, i: usize, depth: u32) -> (r: Result<
    (JsonValueTypes, usize),
    ParseError,
>)
    requires
        i <= s@.len(),
    ensures
        val_res_view(r) == sp_value(s@, i as int, depth as int),
        r matches Ok(p) ==> i < p.1 <= s@.len(),
    decreases s@.len() - i, 2int,
{
    if i >= s.len() {
        return Err(ParseError::UnexpectedEnd);
    }
    let c = s[i];
    if c == '"' {
        match extract_string(s, i + 1) {
            Err(e) => Err(e),
            Ok((t, j)) => Ok((JsonValueTypes::String(t), j)),
        }
    } else if is_digit(c) || c == '+' || c == '-' {
        match extract_number(s, i) {
            Err(e) => Err(e),
            Ok((t, j)) => Ok((JsonValueTypes::Number(t), j)),
        }
    } else if c == 'n' || c == 't' || c == 'f' {
        extract_literal(s, i)
    } else if c == '[' {
        match parse_array(s, i, depth) {
            Err(e) => Err(e),
            Ok((a, j)) => Ok((JsonValueTypes::Array(a), j)),
        }
    } else if c == '{' {
        match parse_object(s, i, depth) {
            Err(e) => Err(e),
            Ok((m, j)) => Ok((JsonValueTypes::Object(m), j)),
        }
    } else {
        Err(ParseError::UnexpectedChar { position: i })
    }
}

/// Parses an object whose opening brace stands at `i`.  Key/value pairs
/// are committed into the mapping as soon as both are resolved; a repeated
/// key overwrites the earlier value.
pub fn parse_object(s: &Vec<char>, i: usize, depth: u32) -> (r: Result<
    (Vec<(String, JsonValueTypes)>, usize),
    ParseError,
>)
    requires
        i <= s@.len(),
    ensures
        obj_res_view(r) == sp_object(s@, i as int, depth as int),
        r matches Ok(p) ==> i < p.1 <= s@.len(),
    decreases s@.len() - i, 1int,
{
    if i >= s.len() {
        return Err(ParseError::UnexpectedEnd);
    }
    if s[i] != '{' {
        return Err(ParseError::UnexpectedChar { position: i });
    }
    if depth == 0 {
        return Err(ParseError::MaxDepthExceeded);
    }
    let ghost d = depth as int - 1;
    let mut macc: Vec<(String, JsonValueTypes)> = Vec::new();
    let mut cur: usize = i + 1;
    loop
        invariant
            i < cur <= s@.len(),
            i < s@.len(),
            s@[i as int] == '{',
            depth >= 1,
            d == depth as int - 1,
            sp_members(s@, i + 1, Seq::<(Seq<char>, JVal)>::empty(), d) == sp_members(
                s@,
                cur as int,
                obj_view(macc@),
                d,
            ),
        decreases s@.len() - cur,
    {
        let j = skip_ws(s, cur);
        if j >= s.len() {
            return Err(ParseError::UnexpectedEnd);
        }
        let cj = s[j];
        if cj == '}' {
            return Ok((macc, j + 1));
        }
        if cj == '"' {
            match extract_string(s, j + 1) {
                Err(e) => {
                    return Err(e);
                },
                Ok((key, e1)) => {
                    let q = skip_ws(s, e1);
                    if q >= s.len() {
                        return Err(ParseError::UnexpectedEnd);
                    }
                    if s[q] != ':' {
                        return Err(ParseError::UnexpectedChar { position: q });
                    }
                    let w = skip_ws(s, q + 1);
                    match parse_value(s, w, depth - 1) {
                        Err(e) => {
                            return Err(e);
                        },
                        Ok((v, e2)) => {
                            let t = skip_ws(s, e2);
                            if t >= s.len() {
                                return Err(ParseError::UnexpectedEnd);
                            }
                            if s[t] == ',' {
                                proof {
                                    assert(sp_step(cur as int, t + 1, s@.len() as int) == t + 1);
                                }
                                insert_pair(&mut macc, key, v);
                                cur = t + 1;
                            } else if s[t] == '}' {
                                insert_pair(&mut macc, key, v);
                                return Ok((macc, t + 1));
                            } else {
                                return Err(ParseError::UnexpectedChar { position: t });
                            }
                        },
                    }
                },
            }
        } else {
            return Err(ParseError::UnexpectedChar { position: j });
        }
    }
}

/// Parses an array whose opening bracket stands at `i`, appending each
/// element in encounter order.
pub fn parse_array(s: &Vec<char>, i: usize, depth: u32) -> (r: Result<
    (Vec<JsonValueTypes>, usize),
    ParseError,
>)
    requires
        i <= s@.len(),
    ensures
        arr_res_view(r) == sp_array(s@, i as int, depth as int),
        r matches Ok(p) ==> i < p.1 <= s@.len(),
    decreases s@.len() - i, 1int,
{
    if i >= s.len() {
        return Err(ParseError::UnexpectedEnd);
    }
    if s[i] != '[' {
        return Err(ParseError::UnexpectedChar { position: i });
    }
    if depth == 0 {
        return Err(ParseError::MaxDepthExceeded);
    }
    let ghost d = depth as int - 1;
    let mut aacc: Vec<JsonValueTypes> = Vec::new();
    let mut cur: usize = i + 1;
    loop
        invariant
            i < cur <= s@.len(),
            i < s@.len(),
            s@[i as int] == '[',
            depth >= 1,
            d == depth as int - 1,
            sp_elements(s@, i + 1, Seq::<JVal>::empty(), d) == sp_elements(
                s@,
                cur as int,
                arr_view(aacc@),
                d,
            ),
        decreases s@.len() - cur,
    {
        let j = skip_ws(s, cur);
        if j >= s.len() {
            return Err(ParseError::UnexpectedEnd);
        }
        if s[j] == ']' {
            return Ok((aacc, j + 1));
        }
        match parse_value(s, j, depth - 1) {
            Err(e) => {
                return Err(e);
            },
            Ok((v, e2)) => {
                let t = skip_ws(s, e2);
                if t >= s.len() {
                    return Err(ParseError::UnexpectedEnd);
                }
                if s[t] == ',' {
                    proof {
                        assert(sp_step(cur as int, t + 1, s@.len() as int) == t + 1);
                        lemma_arr_view_push(aacc@, v);
                    }
                    aacc.push(v);
                    cur = t + 1;
                } else if s[t] == ']' {
                    proof {
                        lemma_arr_view_push(aacc@, v);
                    }
                    aacc.push(v);
                    return Ok((aacc, t + 1));
                } else {
                    return Err(ParseError::UnexpectedChar { position: t });
                }
            },
        }
    }
}

/// The input text as the character sequence the parser works on.
fn chars_of(text: &str) -> (v: Vec<char>)
    ensures
        v@ == text@,
{
    let n = text.unicode_len();
    let mut v: Vec<char> = Vec::new();
    let mut k: usize = 0;
    while k < n
        invariant
            k <= n,
            n == text@.len(),
            v@ == text@.subrange(0, k as int),
        decreases n - k,
    {
        v.push(text.get_char(k));
        proof {
            assert(text@.subrange(0, k + 1) =~= text@.subrange(0, k as int).push(
                text@[k as int],
            ));
        }
        k = k + 1;
    }
    proof {
        assert(text@.subrange(0, text@.len() as int) =~= text@);
    }
    v
}

/// The model of a whole-document parse.
pub open spec fn doc_res_view(r: Result<Vec<(String, JsonValueTypes)>, ParseError>) -> Result<
    Seq<(Seq<char>, JVal)>,
    ParseError,
> {
    match r {
        Ok(m) => Ok(obj_view(m@)),
        Err(e) => Err(e),
    }
}

/// Parses a whole document over the character sequence: optional
/// whitespace, one object, optional whitespace, the end of the input.
pub fn parse_document(s: &Vec<char>, limit: u32) -> (r: Result<
    Vec<(String, JsonValueTypes)>,
    ParseError,
>)
    ensures
        doc_res_view(r) == sp_document(s@, limit as int),
{
    let j = skip_ws(s, 0);
    match parse_object(s, j, limit) {
        Err(e) => Err(e),
        Ok((m, e)) => {
            let t = skip_ws(s, e);
            if t < s.len() {
                Err(ParseError::TrailingData)
            } else {
                Ok(m)
            }
        },
    }
}

/// The model of an entry-point result.
pub open spec fn parse_res_view(r: Result<JsonValueTypes, ParseError>) -> Result<
    JVal,
    ParseError,
> {
    match r {
        Ok(v) => Ok(jv_view(v)),
        Err(e) => Err(e),
    }
}

/// What the entry point denotes: the document's mapping as an object
/// value.
pub open spec fn sp_parse(s: Seq<char>, limit: int) -> Result<JVal, ParseError> {
    match sp_document(s, limit) {
        Ok(m) => Ok(JVal::Obj(m)),
        Err(e) => Err(e),
    }
}

/// Parses `text` with an explicit nesting guard: inputs nested more than
/// `limit` container levels deep fail with `MaxDepthExceeded`.
pub fn parse_with_limit(text: &str, limit: u32) -> (r: Result<JsonValueTypes, ParseError>)
    ensures
        parse_res_view(r) == sp_parse(text@, limit as int),
        r matches Ok(v) ==> jval_wf(jv_view(v)),
{
    let v = chars_of(text);
    match parse_document(&v, limit) {
        Err(e) => Err(e),
        Ok(m) => {
            proof {
                law_parsed_tree_well_formed(text@, limit as int);
            }
            Ok(JsonValueTypes::Object(m))
        },
    }
}

/// Parses `text` as one JSON object document, with the default nesting
/// guard.  Returns the object value, or the first error encountered.
pub fn parse(text: &str) -> (r: Result<JsonValueTypes, ParseError>)
    ensures
        parse_res_view(r) == sp_parse(text@, DEFAULT_MAX_DEPTH as int),
        r matches Ok(v) ==> jval_wf(jv_view(v)),
{
    parse_with_limit(text, DEFAULT_MAX_DEPTH)
}

/// A parsed document: the input text together with the mapping its
/// top-level object denotes.
pub struct JsonParser {
    text: String,
    map: Vec<(String, JsonValueTypes)>,
}

impl JsonParser {
    /// The stored input text.
    pub closed spec fn text_view(&self) -> Seq<char> {
        self.text@
    }

    /// The model of the stored mapping.
    pub closed spec fn map_view(&self) -> Seq<(Seq<char>, JVal)> {
        obj_view(self.map@)
    }

    /// Parses `_text` with the default nesting guard and keeps both the
    /// text and the top-level mapping.
    pub fn new(_text: String) -> (r: Result<Self, ParseError>)
        ensures
            match r {
                Ok(p) => p.text_view() == _text@ && sp_document(
                    _text@,
                    DEFAULT_MAX_DEPTH as int,
                ) == Ok::<Seq<(Seq<char>, JVal)>, ParseError>(p.map_view()) && assoc_unique(
                    p.map_view(),
                ) && pairs_all_wf(p.map_view()),
                Err(e) => sp_document(_text@, DEFAULT_MAX_DEPTH as int) == Err::<
                    Seq<(Seq<char>, JVal)>,
                    ParseError,
                >(e),
            },
    {
        let v = chars_of(_text.as_str());
        match parse_document(&v, DEFAULT_MAX_DEPTH) {
            Err(e) => Err(e),
            Ok(m) => {
                proof {
                    law_parsed_tree_well_formed(_text@, DEFAULT_MAX_DEPTH as int);
                }
                Ok(JsonParser { text: _text, map: m })
            },
        }
    }

    /// The input text this parser was built from.
    pub fn get_text(&self) -> (r: &String)
        ensures
            r@ == self.text_view(),
    {
        &self.text
    }

    /// The mapping of the top-level object: unique keys, in the order the
    /// keys were first seen.
    pub fn get_map(&self) -> (r: &Vec<(String, JsonValueTypes)>)
        ensures
            obj_view(r@) == self.map_view(),
    {
        &self.map
    }
}

} // verus!

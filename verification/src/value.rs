//! The parsed value tree and its view into the model.

use vstd::prelude::*;

use crate::error::ParseError;
use crate::model::JVal;

verus! {

broadcast use vstd::std_specs::vec::group_vec_axioms, vstd::seq::group_seq_axioms;

/// A parsed JSON entity.  A number keeps its raw token text; an object
/// keeps its entries as a vector of pairs with unique keys, in the order
/// the keys were first seen.
#[derive(Debug, PartialEq)]
pub enum JsonValueTypes {
    /// A decoded string.
    String(String),
    /// The raw text of a numeric token.
    Number(String),
    /// An object: unique keys, first-seen order, last value of a repeated
    /// key.
    Object(Vec<(String, JsonValueTypes)>),
    /// An array, in encounter order.
    Array(Vec<JsonValueTypes>),
    /// `true` or `false`.
    Boolean(bool),
    /// `null`.
    Null,
}

/// The model denoted by a parsed value.
pub open spec fn jv_view(v: JsonValueTypes) -> JVal
    decreases v, 1int,
{
    match v {
        JsonValueTypes::String(t) => JVal::Str(t@),
        JsonValueTypes::Number(t) => JVal::Num(t@),
        JsonValueTypes::Boolean(b) => JVal::Bool(b),
        JsonValueTypes::Null => JVal::Null,
        JsonValueTypes::Array(a) => {
            proof {
                assert(decreases_to!(a => a@));
            }
            JVal::Arr(arr_view(a@))
        },
        JsonValueTypes::Object(m) => {
            proof {
                assert(decreases_to!(m => m@));
            }
            JVal::Obj(obj_view(m@))
        },
    }
}

/// The model of an object's entry vector.
pub open spec fn obj_view(m: Seq<(String, JsonValueTypes)>) -> Seq<(Seq<char>, JVal)>
    decreases m, 0int,
{
    if m.len() == 0 {
        Seq::empty()
    } else {
        obj_view(m.drop_last()).push((m.last().0@, jv_view(m.last().1)))
    }
}

/// The model of an array's element vector.
pub open spec fn arr_view(a: Seq<JsonValueTypes>) -> Seq<JVal>
    decreases a, 0int,
{
    if a.len() == 0 {
        Seq::empty()
    } else {
        arr_view(a.drop_last()).push(jv_view(a.last()))
    }
}

/// The object view is the entry vector's view, pair by pair.
pub proof fn lemma_obj_view(m: Seq<(String, JsonValueTypes)>)
    ensures
        obj_view(m).len() == m.len(),
        forall|t: int|
            0 <= t < m.len() ==> #[trigger] obj_view(m)[t] == (m[t].0@, jv_view(m[t].1)),
    decreases m,
{
    if m.len() > 0 {
        lemma_obj_view(m.drop_last());
        assert(forall|t: int| 0 <= t < m.len() - 1 ==> m.drop_last()[t] == m[t]);
    }
}

/// Appending an element appends its view.
pub proof fn lemma_arr_view_push(a: Seq<JsonValueTypes>, x: JsonValueTypes)
    ensures
        arr_view(a.push(x)) == arr_view(a).push(jv_view(x)),
{
    assert(a.push(x).drop_last() =~= a);
    assert(a.push(x).last() == x);
}

/// The text of the `true` and `false` literals.
pub open spec fn bool_text(b: bool) -> Seq<char> {
    if b {
        seq!['t', 'r', 'u', 'e']
    } else {
        seq!['f', 'a', 'l', 's', 'e']
    }
}

/// The text of the `null` literal.
pub open spec fn null_text() -> Seq<char> {
    seq!['n', 'u', 'l', 'l']
}

impl JsonValueTypes {
    /// Renders a scalar value as text: the decoded string itself, the raw
    /// numeric token, `true`/`false`, or `null`.  Containers have no such
    /// text and yield `None`.
    pub fn to_string(&self) -> (r: Option<String>)
        ensures
            match self {
                JsonValueTypes::String(t) => r matches Some(x) && x@ == t@,
                JsonValueTypes::Number(t) => r matches Some(x) && x@ == t@,
                JsonValueTypes::Boolean(b) => r matches Some(x) && x@ == bool_text(*b),
                JsonValueTypes::Null => r matches Some(x) && x@ == null_text(),
                _ => r is None,
            },
    {
        match self {
            JsonValueTypes::String(t) => Some(t.clone()),
            JsonValueTypes::Number(t) => Some(t.clone()),
            JsonValueTypes::Boolean(b) => {
                let x = if *b {
                    "true"
                } else {
                    "false"
                };
                proof {
                    reveal_strlit("true");
                    reveal_strlit("false");
                    assert(x@ =~= bool_text(*b));
                }
                Some(x.to_owned())
            },
            JsonValueTypes::Null => {
                proof {
                    reveal_strlit("null");
                    assert("null"@ =~= null_text());
                }
                Some("null".to_owned())
            },
            _ => None,
        }
    }
}

/// The model of a string-scanner result.
pub open spec fn str_res_view(r: Result<(String, usize), ParseError>) -> Result<
    (Seq<char>, int),
    ParseError,
> {
    match r {
        Ok((t, j)) => Ok((t@, j as int)),
        Err(e) => Err(e),
    }
}

/// The model of a value-parser result.
pub open spec fn val_res_view(r: Result<(JsonValueTypes, usize), ParseError>) -> Result<
    (JVal, int),
    ParseError,
> {
    match r {
        Ok((v, j)) => Ok((jv_view(v), j as int)),
        Err(e) => Err(e),
    }
}

/// The model of an object-parser result.
pub open spec fn obj_res_view(
    r: Result<(Vec<(String, JsonValueTypes)>, usize), ParseError>,
) -> Result<(Seq<(Seq<char>, JVal)>, int), ParseError> {
    match r {
        Ok((m, j)) => Ok((obj_view(m@), j as int)),
        Err(e) => Err(e),
    }
}

/// The model of an array-parser result.
pub open spec fn arr_res_view(r: Result<(Vec<JsonValueTypes>, usize), ParseError>) -> Result<
    (Seq<JVal>, int),
    ParseError,
> {
    match r {
        Ok((a, j)) => Ok((arr_view(a@), j as int)),
        Err(e) => Err(e),
    }
}

} // verus!

//! The laws of the parser.
//!
//! The key/value pairs of an object, in the order the text presents them
//! (duplicates kept), are described by `sp_member_pairs`; the elements of
//! an array by `sp_element_items`.  The laws state that a parsed object's
//! mapping holds exactly those pairs with a repeated key keeping its last
//! value, and that a parsed array is exactly its elements in encounter
//! order.

use vstd::prelude::*;

use crate::grammar::{
    lemma_skip_ws, lemma_string_bounds, sp_array, sp_document, sp_elements, sp_members, sp_object,
    sp_skip_ws,
    sp_step, sp_string, sp_value,
};
use crate::model::{
    assoc_has, assoc_insert, assoc_lookup, assoc_unique, fold_insert, jdepth, jval_wf,
    lemma_assoc_insert_keys, lemma_assoc_insert_lookup, lemma_assoc_insert_unique,
    lemma_assoc_insert_wf, lemma_seq_depth_push, pairs_all_wf, pairs_max_depth, seq_all_wf,
    seq_max_depth, JVal,
};

verus! {

/// Whether some pair in `ps` holds the key `k`.
pub open spec fn pairs_has(ps: Seq<(Seq<char>, JVal)>, k: Seq<char>) -> bool {
    exists|t: int| 0 <= t < ps.len() && ps[t].0 == k
}

/// The key/value pairs of an object's member list, in encounter order and
/// with duplicate keys kept.  `i` stands just past `{` or `,`, as in
/// `sp_members`; on texts that `sp_members` rejects the value is
/// irrelevant.
pub open spec fn sp_member_pairs(s: Seq<char>, i: int, depth: int) -> Seq<(Seq<char>, JVal)>
    decreases s.len() - i,
        when 0 <= i <= s.len()
{
    let j = sp_skip_ws(s, i);
    if j >= s.len() {
        Seq::empty()
    } else if s[j] == '}' {
        Seq::empty()
    } else if s[j] == '"' {
        match sp_string(s, j + 1, Seq::<char>::empty()) {
            Err(_) => Seq::empty(),
            Ok((k, e1)) => {
                let q = sp_skip_ws(s, e1);
                if q >= s.len() {
                    Seq::empty()
                } else if s[q] != ':' {
                    Seq::empty()
                } else {
                    let w = sp_skip_ws(s, q + 1);
                    match sp_value(s, w, depth) {
                        Err(_) => Seq::empty(),
                        Ok((v, e2)) => {
                            let t = sp_skip_ws(s, e2);
                            if t >= s.len() {
                                Seq::empty()
                            } else if s[t] == ',' {
                                proof {
                                    lemma_skip_ws(s, i);
                                }
                                seq![(k, v)] + sp_member_pairs(
                                    s,
                                    sp_step(i, t + 1, s.len() as int),
                                    depth,
                                )
                            } else if s[t] == '}' {
                                seq![(k, v)]
                            } else {
                                Seq::empty()
                            }
                        },
                    }
                }
            },
        }
    } else {
        Seq::empty()
    }
}

/// Unrolls `fold_insert` by one pair.
proof fn lemma_fold_step(acc: Seq<(Seq<char>, JVal)>, ps: Seq<(Seq<char>, JVal)>)
    requires
        ps.len() > 0,
    ensures
        fold_insert(acc, ps) == fold_insert(
            assoc_insert(acc, ps[0].0, ps[0].1),
            ps.subrange(1, ps.len() as int),
        ),
{
}

/// Folding no pairs changes nothing.
proof fn lemma_fold_empty(acc: Seq<(Seq<char>, JVal)>, ps: Seq<(Seq<char>, JVal)>)
    requires
        ps.len() == 0,
    ensures
        fold_insert(acc, ps) == acc,
{
}

/// A successful member parse yields the committed pairs, folded into the
/// accumulator in encounter order.
proof fn lemma_members_fold(s: Seq<char>, i: int, acc: Seq<(Seq<char>, JVal)>, depth: int)
    requires
        0 <= i <= s.len(),
    ensures
        sp_members(s, i, acc, depth) matches Ok(r) ==> r.0 == fold_insert(
            acc,
            sp_member_pairs(s, i, depth),
        ),
    decreases s.len() - i,
{
    let j = sp_skip_ws(s, i);
    lemma_skip_ws(s, i);
    if j < s.len() && s[j] != '}' && s[j] == '"' {
        match sp_string(s, j + 1, Seq::<char>::empty()) {
            Err(_) => {},
            Ok((k, e1)) => {
                lemma_string_bounds(s, j + 1, Seq::<char>::empty());
                let q = sp_skip_ws(s, e1);
                lemma_skip_ws(s, e1);
                if q < s.len() && s[q] == ':' {
                    let w = sp_skip_ws(s, q + 1);
                    lemma_skip_ws(s, q + 1);
                    match sp_value(s, w, depth) {
                        Err(_) => {},
                        Ok((v, e2)) => {
                            let t = sp_skip_ws(s, e2);
                            if t < s.len() && s[t] == ',' {
                                let nx = sp_step(i, t + 1, s.len() as int);
                                lemma_members_fold(s, nx, assoc_insert(acc, k, v), depth);
                                let rest = sp_member_pairs(s, nx, depth);
                                let ps = seq![(k, v)] + rest;
                                assert(sp_member_pairs(s, i, depth) == ps);
                                assert(ps[0] == (k, v));
                                assert(ps.subrange(1, ps.len() as int) =~= rest);
                                lemma_fold_step(acc, ps);
                            } else if t < s.len() && s[t] == '}' {
                                let ps = seq![(k, v)];
                                assert(sp_member_pairs(s, i, depth) == ps);
                                assert(ps[0] == (k, v));
                                assert(ps.subrange(1, 1) =~= Seq::<(Seq<char>, JVal)>::empty());
                                lemma_fold_step(acc, ps);
                                lemma_fold_empty(
                                    assoc_insert(acc, k, v),
                                    ps.subrange(1, 1),
                                );
                            }
                        },
                    }
                }
            },
        }
    }
}

/// Folding pairs into a mapping keeps the keys unique, and the mapping
/// holds a key exactly when the accumulator or some pair holds it.
proof fn lemma_fold_keys(acc: Seq<(Seq<char>, JVal)>, ps: Seq<(Seq<char>, JVal)>)
    requires
        assoc_unique(acc),
    ensures
        assoc_unique(fold_insert(acc, ps)),
        forall|x: Seq<char>|
            #[trigger] assoc_has(fold_insert(acc, ps), x) <==> (assoc_has(acc, x) || pairs_has(
                ps,
                x,
            )),
    decreases ps.len(),
{
    if ps.len() == 0 {
        assert forall|x: Seq<char>|
            assoc_has(fold_insert(acc, ps), x) <==> (assoc_has(acc, x) || pairs_has(
                ps,
                x,
            )) by {
            if pairs_has(ps, x) {
                let t = choose|t: int| 0 <= t < ps.len() && ps[t].0 == x;
            }
        }
    } else {
        let acc2 = assoc_insert(acc, ps[0].0, ps[0].1);
        lemma_assoc_insert_unique(acc, ps[0].0, ps[0].1);
        lemma_assoc_insert_keys(acc, ps[0].0, ps[0].1);
        let rest = ps.subrange(1, ps.len() as int);
        lemma_fold_keys(acc2, rest);
        lemma_fold_step(acc, ps);
        assert forall|x: Seq<char>|
            assoc_has(fold_insert(acc, ps), x) <==> (assoc_has(acc, x) || pairs_has(
                ps,
                x,
            )) by {
            assert(assoc_has(fold_insert(acc2, rest), x) <==> (assoc_has(acc2, x) || pairs_has(
                rest,
                x,
            )));
            assert(assoc_has(acc2, x) <==> (assoc_has(acc, x) || x == ps[0].0));
            if pairs_has(rest, x) {
                let t = choose|t: int| 0 <= t < rest.len() && rest[t].0 == x;
                assert(ps[t + 1].0 == x);
            }
            if x == ps[0].0 {
                assert(ps[0].0 == x);
            }
            if pairs_has(ps, x) {
                let t = choose|t: int| 0 <= t < ps.len() && ps[t].0 == x;
                if t > 0 {
                    assert(rest[t - 1].0 == x);
                }
            }
        }
    }
}

/// Folding pairs that never hold the key `k` leaves `k`'s binding as it
/// was.
proof fn lemma_fold_no_key(acc: Seq<(Seq<char>, JVal)>, ps: Seq<(Seq<char>, JVal)>, k: Seq<char>)
    requires
        assoc_unique(acc),
        forall|t: int| 0 <= t < ps.len() ==> ps[t].0 != k,
    ensures
        assoc_unique(fold_insert(acc, ps)),
        assoc_has(fold_insert(acc, ps), k) == assoc_has(acc, k),
        assoc_has(acc, k) ==> assoc_lookup(fold_insert(acc, ps), k) == assoc_lookup(acc, k),
    decreases ps.len(),
{
    if ps.len() > 0 {
        let acc2 = assoc_insert(acc, ps[0].0, ps[0].1);
        lemma_assoc_insert_unique(acc, ps[0].0, ps[0].1);
        lemma_assoc_insert_keys(acc, ps[0].0, ps[0].1);
        lemma_assoc_insert_lookup(acc, ps[0].0, ps[0].1);
        let rest = ps.subrange(1, ps.len() as int);
        assert(forall|t: int| 0 <= t < rest.len() ==> rest[t].0 != k);
        lemma_fold_no_key(acc2, rest, k);
        lemma_fold_step(acc, ps);
        assert(assoc_has(acc2, k) == assoc_has(acc, k));
        if assoc_has(acc, k) {
            assert(assoc_lookup(acc2, k) == assoc_lookup(acc, k));
        }
    }
}

/// Folding pairs whose last occurrence of the key `k` stands at `idx`
/// binds `k` to that occurrence's value.
proof fn lemma_fold_last(
    acc: Seq<(Seq<char>, JVal)>,
    ps: Seq<(Seq<char>, JVal)>,
    k: Seq<char>,
    idx: int,
)
    requires
        assoc_unique(acc),
        0 <= idx < ps.len(),
        ps[idx].0 == k,
        forall|t: int| idx < t < ps.len() ==> ps[t].0 != k,
    ensures
        assoc_unique(fold_insert(acc, ps)),
        assoc_has(fold_insert(acc, ps), k),
        assoc_lookup(fold_insert(acc, ps), k) == ps[idx].1,
    decreases ps.len(),
{
    let acc2 = assoc_insert(acc, ps[0].0, ps[0].1);
    lemma_assoc_insert_unique(acc, ps[0].0, ps[0].1);
    lemma_assoc_insert_keys(acc, ps[0].0, ps[0].1);
    lemma_assoc_insert_lookup(acc, ps[0].0, ps[0].1);
    let rest = ps.subrange(1, ps.len() as int);
    lemma_fold_step(acc, ps);
    if idx == 0 {
        assert(forall|t: int| 0 <= t < rest.len() ==> rest[t].0 != k);
        lemma_fold_no_key(acc2, rest, k);
        assert(assoc_has(acc2, k));
        assert(assoc_lookup(acc2, k) == ps[0].1);
    } else {
        assert(rest[idx - 1].0 == k);
        assert forall|t: int| idx - 1 < t < rest.len() implies rest[t].0 != k by {
            assert(rest[t] == ps[t + 1]);
        }
        lemma_fold_last(acc2, rest, k, idx - 1);
        assert(rest[idx - 1].1 == ps[idx].1);
    }
}

/// The pairs of a whole document's top-level object.
pub open spec fn sp_document_pairs(s: Seq<char>, limit: int) -> Seq<(Seq<char>, JVal)> {
    sp_member_pairs(s, sp_skip_ws(s, 0) + 1, limit - 1)
}

/// Law: a valid object document parses to a mapping with unique keys that
/// holds a key exactly when some pair of the text holds it.
pub proof fn law_object_mapping_exact(s: Seq<char>, limit: int)
    requires
        sp_document(s, limit) is Ok,
    ensures
        assoc_unique(sp_document(s, limit)->Ok_0),
        forall|x: Seq<char>|
            assoc_has(sp_document(s, limit)->Ok_0, x) <==> pairs_has(
                sp_document_pairs(s, limit),
                x,
            ),
{
    let j = sp_skip_ws(s, 0);
    lemma_skip_ws(s, 0);
    lemma_members_fold(s, j + 1, Seq::empty(), limit - 1);
    lemma_fold_keys(Seq::empty(), sp_member_pairs(s, j + 1, limit - 1));
}

/// Law: if the last pair of the text holding the key `k` stands at `idx`,
/// the parsed mapping binds `k` to that pair's value — a repeated key
/// keeps the value of its last occurrence.
pub proof fn law_duplicate_key_last_wins(s: Seq<char>, limit: int, k: Seq<char>, idx: int)
    requires
        sp_document(s, limit) is Ok,
        0 <= idx < sp_document_pairs(s, limit).len(),
        sp_document_pairs(s, limit)[idx].0 == k,
        forall|t: int|
            idx < t < sp_document_pairs(s, limit).len() ==> sp_document_pairs(s, limit)[t].0 != k,
    ensures
        assoc_has(sp_document(s, limit)->Ok_0, k),
        assoc_lookup(sp_document(s, limit)->Ok_0, k) == sp_document_pairs(s, limit)[idx].1,
{
    let j = sp_skip_ws(s, 0);
    lemma_skip_ws(s, 0);
    lemma_members_fold(s, j + 1, Seq::empty(), limit - 1);
    lemma_fold_last(Seq::empty(), sp_document_pairs(s, limit), k, idx);
}

/// The elements of an array's member list, in encounter order.  `i`
/// stands just past `[` or `,`, as in `sp_elements`; on texts that
/// `sp_elements` rejects the value is irrelevant.
pub open spec fn sp_element_items(s: Seq<char>, i: int, depth: int) -> Seq<JVal>
    decreases s.len() - i,
        when 0 <= i <= s.len()
{
    let j = sp_skip_ws(s, i);
    if j >= s.len() {
        Seq::empty()
    } else if s[j] == ']' {
        Seq::empty()
    } else {
        match sp_value(s, j, depth) {
            Err(_) => Seq::empty(),
            Ok((v, e2)) => {
                let t = sp_skip_ws(s, e2);
                if t >= s.len() {
                    Seq::empty()
                } else if s[t] == ',' {
                    proof {
                        lemma_skip_ws(s, i);
                    }
                    seq![v] + sp_element_items(s, sp_step(i, t + 1, s.len() as int), depth)
                } else if s[t] == ']' {
                    seq![v]
                } else {
                    Seq::empty()
                }
            },
        }
    }
}

/// A successful element parse appends the encountered elements, in order,
/// after the accumulator.
proof fn lemma_elements_concat(s: Seq<char>, i: int, acc: Seq<JVal>, depth: int)
    requires
        0 <= i <= s.len(),
    ensures
        sp_elements(s, i, acc, depth) matches Ok(r) ==> r.0 == acc + sp_element_items(
            s,
            i,
            depth,
        ),
    decreases s.len() - i,
{
    let j = sp_skip_ws(s, i);
    lemma_skip_ws(s, i);
    if j >= s.len() {
    } else if s[j] == ']' {
        assert(acc + Seq::<JVal>::empty() =~= acc);
    } else {
        match sp_value(s, j, depth) {
            Err(_) => {},
            Ok((v, e2)) => {
                let t = sp_skip_ws(s, e2);
                if t < s.len() && s[t] == ',' {
                    let nx = sp_step(i, t + 1, s.len() as int);
                    lemma_elements_concat(s, nx, acc.push(v), depth);
                    let rest = sp_element_items(s, nx, depth);
                    assert(acc.push(v) + rest =~= acc + (seq![v] + rest));
                } else if t < s.len() && s[t] == ']' {
                    assert(acc.push(v) =~= acc + seq![v]);
                }
            },
        }
    }
}

/// Law: an array of any length parses to exactly its elements, in
/// encounter order.
pub proof fn law_array_element_order(s: Seq<char>, i: int, depth: int)
    requires
        0 <= i < s.len(),
    ensures
        sp_array(s, i, depth) matches Ok(r) ==> r.0 == sp_element_items(s, i + 1, depth - 1),
{
    if sp_array(s, i, depth) is Ok {
        lemma_elements_concat(s, i + 1, Seq::empty(), depth - 1);
        assert(Seq::<JVal>::empty() + sp_element_items(s, i + 1, depth - 1) =~= sp_element_items(
            s,
            i + 1,
            depth - 1,
        ));
    }
}

/// Parsing a value at remaining depth `d` yields a well-formed value
/// nested at most `d` containers deep.
proof fn lemma_value_wf(s: Seq<char>, i: int, d: int)
    requires
        d >= 0,
    ensures
        sp_value(s, i, d) matches Ok(r) ==> jval_wf(r.0) && jdepth(r.0) <= d,
    decreases s.len() - i, 2int,
{
    if 0 <= i < s.len() {
        let c = s[i];
        if c == '[' {
            lemma_array_wf(s, i, d);
        } else if c == '{' {
            lemma_object_wf(s, i, d);
        }
    }
}

/// Parsing an object at remaining depth `d` yields a mapping with unique
/// keys, well-formed values, and children nested at most `d - 1` deep.
proof fn lemma_object_wf(s: Seq<char>, i: int, d: int)
    requires
        d >= 0,
    ensures
        sp_object(s, i, d) matches Ok(r) ==> assoc_unique(r.0) && pairs_all_wf(r.0)
            && pairs_max_depth(r.0) <= d - 1,
    decreases s.len() - i, 1int,
{
    if 0 <= i < s.len() && s[i] == '{' && d > 0 {
        lemma_members_wf(s, i + 1, Seq::empty(), d - 1);
    }
}

proof fn lemma_members_wf(s: Seq<char>, i: int, acc: Seq<(Seq<char>, JVal)>, d: int)
    requires
        0 <= i <= s.len(),
        d >= 0,
        assoc_unique(acc),
        pairs_all_wf(acc),
        pairs_max_depth(acc) <= d,
    ensures
        sp_members(s, i, acc, d) matches Ok(r) ==> assoc_unique(r.0) && pairs_all_wf(r.0)
            && pairs_max_depth(r.0) <= d,
    decreases s.len() - i, 3int,
{
    let j = sp_skip_ws(s, i);
    lemma_skip_ws(s, i);
    if j < s.len() && s[j] != '}' && s[j] == '"' {
        match sp_string(s, j + 1, Seq::<char>::empty()) {
            Err(_) => {},
            Ok((k, e1)) => {
                lemma_string_bounds(s, j + 1, Seq::<char>::empty());
                let q = sp_skip_ws(s, e1);
                lemma_skip_ws(s, e1);
                if q < s.len() && s[q] == ':' {
                    let w = sp_skip_ws(s, q + 1);
                    lemma_skip_ws(s, q + 1);
                    lemma_value_wf(s, w, d);
                    match sp_value(s, w, d) {
                        Err(_) => {},
                        Ok((v, e2)) => {
                            let t = sp_skip_ws(s, e2);
                            if t < s.len() && (s[t] == ',' || s[t] == '}') {
                                lemma_assoc_insert_unique(acc, k, v);
                                lemma_assoc_insert_wf(acc, k, v, d);
                                if s[t] == ',' {
                                    lemma_members_wf(
                                        s,
                                        sp_step(i, t + 1, s.len() as int),
                                        assoc_insert(acc, k, v),
                                        d,
                                    );
                                }
                            }
                        },
                    }
                }
            },
        }
    }
}

/// Parsing an array at remaining depth `d` yields well-formed elements
/// nested at most `d - 1` deep.
proof fn lemma_array_wf(s: Seq<char>, i: int, d: int)
    requires
        d >= 0,
    ensures
        sp_array(s, i, d) matches Ok(r) ==> seq_all_wf(r.0) && seq_max_depth(r.0) <= d - 1,
    decreases s.len() - i, 1int,
{
    if 0 <= i < s.len() && s[i] == '[' && d > 0 {
        lemma_elements_wf(s, i + 1, Seq::empty(), d - 1);
    }
}

proof fn lemma_elements_wf(s: Seq<char>, i: int, acc: Seq<JVal>, d: int)
    requires
        0 <= i <= s.len(),
        d >= 0,
        seq_all_wf(acc),
        seq_max_depth(acc) <= d,
    ensures
        sp_elements(s, i, acc, d) matches Ok(r) ==> seq_all_wf(r.0) && seq_max_depth(r.0) <= d,
    decreases s.len() - i, 3int,
{
    let j = sp_skip_ws(s, i);
    lemma_skip_ws(s, i);
    if j < s.len() && s[j] != ']' {
        lemma_value_wf(s, j, d);
        match sp_value(s, j, d) {
            Err(_) => {},
            Ok((v, e2)) => {
                let t = sp_skip_ws(s, e2);
                if t < s.len() && (s[t] == ',' || s[t] == ']') {
                    lemma_seq_depth_push(acc, v);
                    if s[t] == ',' {
                        lemma_elements_wf(
                            s,
                            sp_step(i, t + 1, s.len() as int),
                            acc.push(v),
                            d,
                        );
                    }
                }
            },
        }
    }
}

/// Law: every object anywhere in a parsed document has unique keys — the
/// duplicate-key-overwrite rule is applied at every nesting level, not
/// just at the top.
pub proof fn law_parsed_tree_well_formed(s: Seq<char>, limit: int)
    ensures
        sp_document(s, limit) matches Ok(m) ==> assoc_unique(m) && pairs_all_wf(m),
{
    if sp_document(s, limit) is Ok {
        let j = sp_skip_ws(s, 0);
        lemma_skip_ws(s, 0);
        lemma_object_wf(s, j, limit);
    }
}

/// Law: the nesting guard really bounds nesting — a document parsed with
/// guard `limit` denotes a tree at most `limit` containers deep.
pub proof fn law_depth_guard_bounds_nesting(s: Seq<char>, limit: int)
    ensures
        sp_document(s, limit) matches Ok(m) ==> jdepth(JVal::Obj(m)) <= limit,
{
    if sp_document(s, limit) is Ok {
        let j = sp_skip_ws(s, 0);
        lemma_skip_ws(s, 0);
        lemma_object_wf(s, j, limit);
    }
}

} // verus!


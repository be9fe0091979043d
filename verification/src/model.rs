//! The mathematical model of a parsed JSON value.

use vstd::prelude::*;

verus! {

/// The model of a JSON value: what a parse denotes, at the level of
/// mathematical sequences.  A number is modelled by its raw token text; an
/// object by an association sequence whose keys are unique and which keeps
/// the order in which keys were first seen.
pub ghost enum JVal {
    /// A decoded string.
    Str(Seq<char>),
    /// The raw text of a numeric token.
    Num(Seq<char>),
    /// `true` or `false`.
    Bool(bool),
    /// `null`.
    Null,
    /// The elements of an array, in encounter order.
    Arr(Seq<JVal>),
    /// The entries of an object: unique keys, first-seen order.
    Obj(Seq<(Seq<char>, JVal)>),
}

/// Whether the association sequence `m` holds the key `k`.
pub open spec fn assoc_has(m: Seq<(Seq<char>, JVal)>, k: Seq<char>) -> bool {
    exists|i: int| 0 <= i < m.len() && m[i].0 == k
}

/// The value that `m` associates with `k` (meaningful when `assoc_has`).
pub open spec fn assoc_lookup(m: Seq<(Seq<char>, JVal)>, k: Seq<char>) -> JVal {
    m[choose|i: int| 0 <= i < m.len() && m[i].0 == k].1
}

/// All keys of `m` are distinct.
pub open spec fn assoc_unique(m: Seq<(Seq<char>, JVal)>) -> bool {
    forall|i: int, j: int| 0 <= i < j < m.len() ==> m[i].0 != m[j].0
}

/// Committing one key/value pair into the mapping: if the key is already
/// present, its value is overwritten in place; otherwise the pair is
/// appended.  This is the duplicate-key-overwrite rule.
pub open spec fn assoc_insert(m: Seq<(Seq<char>, JVal)>, k: Seq<char>, v: JVal) -> Seq<
    (Seq<char>, JVal),
>
    decreases m.len(),
{
    if m.len() == 0 {
        seq![(k, v)]
    } else if m[0].0 == k {
        seq![(k, v)] + m.subrange(1, m.len() as int)
    } else {
        seq![m[0]] + assoc_insert(m.subrange(1, m.len() as int), k, v)
    }
}

/// Committing a whole sequence of pairs, one after the other, in order.
pub open spec fn fold_insert(acc: Seq<(Seq<char>, JVal)>, ps: Seq<(Seq<char>, JVal)>) -> Seq<
    (Seq<char>, JVal),
>
    decreases ps.len(),
{
    if ps.len() == 0 {
        acc
    } else {
        fold_insert(assoc_insert(acc, ps[0].0, ps[0].1), ps.subrange(1, ps.len() as int))
    }
}

pub proof fn lemma_assoc_insert_update(m: Seq<(Seq<char>, JVal)>, k: Seq<char>, v: JVal, idx: int)
    requires
        0 <= idx < m.len(),
        m[idx].0 == k,
        forall|t: int| 0 <= t < idx ==> m[t].0 != k,
    ensures
        assoc_insert(m, k, v) == m.update(idx, (k, v)),
    decreases m.len(),
{
    if idx == 0 {
        assert(assoc_insert(m, k, v) =~= m.update(0, (k, v)));
    } else {
        let sub = m.subrange(1, m.len() as int);
        lemma_assoc_insert_update(sub, k, v, idx - 1);
        assert(assoc_insert(m, k, v) =~= m.update(idx, (k, v)));
    }
}

pub proof fn lemma_assoc_insert_append(m: Seq<(Seq<char>, JVal)>, k: Seq<char>, v: JVal)
    requires
        forall|t: int| 0 <= t < m.len() ==> m[t].0 != k,
    ensures
        assoc_insert(m, k, v) == m.push((k, v)),
    decreases m.len(),
{
    if m.len() == 0 {
        assert(assoc_insert(m, k, v) =~= m.push((k, v)));
    } else {
        let sub = m.subrange(1, m.len() as int);
        lemma_assoc_insert_append(sub, k, v);
        assert(assoc_insert(m, k, v) =~= m.push((k, v)));
    }
}

/// The index of the first entry holding the key `k`.
pub proof fn first_key_index(m: Seq<(Seq<char>, JVal)>, k: Seq<char>) -> (r: int)
    requires
        assoc_has(m, k),
    ensures
        0 <= r < m.len(),
        m[r].0 == k,
        forall|t: int| 0 <= t < r ==> m[t].0 != k,
    decreases m.len(),
{
    if m[0].0 == k {
        0
    } else {
        let sub = m.subrange(1, m.len() as int);
        let i = choose|i: int| 0 <= i < m.len() && m[i].0 == k;
        assert(sub[i - 1].0 == k);
        let r = first_key_index(sub, k);
        assert forall|t: int| 0 <= t < r + 1 implies m[t].0 != k by {
            if t > 0 {
                assert(sub[t - 1].0 != k);
            }
        }
        r + 1
    }
}

/// Committing a pair makes its key present and touches no other key.
pub proof fn lemma_assoc_insert_keys(m: Seq<(Seq<char>, JVal)>, k: Seq<char>, v: JVal)
    ensures
        forall|x: Seq<char>|
            #[trigger] assoc_has(assoc_insert(m, k, v), x) <==> (assoc_has(m, x) || x == k),
{
    let r = assoc_insert(m, k, v);
    if assoc_has(m, k) {
        let i = first_key_index(m, k);
        lemma_assoc_insert_update(m, k, v, i);
        assert forall|x: Seq<char>| assoc_has(r, x) <==> (assoc_has(m, x) || x == k) by {
            if assoc_has(m, x) {
                let t = choose|t: int| 0 <= t < m.len() && m[t].0 == x;
                if t == i {
                    assert(r[i].0 == k);
                } else {
                    assert(r[t] == m[t]);
                }
            }
            if x == k {
                assert(r[i].0 == x);
            }
            if assoc_has(r, x) {
                let t = choose|t: int| 0 <= t < r.len() && r[t].0 == x;
                if t == i {
                    assert(m[i].0 == x);
                } else {
                    assert(m[t] == r[t]);
                }
            }
        }
    } else {
        lemma_assoc_insert_append(m, k, v);
        assert forall|x: Seq<char>| assoc_has(r, x) <==> (assoc_has(m, x) || x == k) by {
            if assoc_has(m, x) {
                let t = choose|t: int| 0 <= t < m.len() && m[t].0 == x;
                assert(r[t] == m[t]);
            }
            if x == k {
                assert(r[m.len() as int].0 == x);
            }
            if assoc_has(r, x) {
                let t = choose|t: int| 0 <= t < r.len() && r[t].0 == x;
                if t < m.len() {
                    assert(m[t] == r[t]);
                }
            }
        }
    }
}

/// Committing a pair keeps the keys unique.
pub proof fn lemma_assoc_insert_unique(m: Seq<(Seq<char>, JVal)>, k: Seq<char>, v: JVal)
    requires
        assoc_unique(m),
    ensures
        assoc_unique(assoc_insert(m, k, v)),
{
    let r = assoc_insert(m, k, v);
    if assoc_has(m, k) {
        let i = first_key_index(m, k);
        lemma_assoc_insert_update(m, k, v, i);
        assert(forall|t: int| 0 <= t < r.len() ==> r[t].0 == m[t].0);
    } else {
        lemma_assoc_insert_append(m, k, v);
        assert forall|i: int, j: int| 0 <= i < j < r.len() implies r[i].0 != r[j].0 by {
            if j == m.len() {
                assert(r[i] == m[i]);
            } else {
                assert(r[i] == m[i]);
                assert(r[j] == m[j]);
            }
        }
    }
}

/// With unique keys, looking a key up finds the entry that holds it.
pub proof fn lemma_assoc_lookup_at(m: Seq<(Seq<char>, JVal)>, idx: int)
    requires
        assoc_unique(m),
        0 <= idx < m.len(),
    ensures
        assoc_has(m, m[idx].0),
        assoc_lookup(m, m[idx].0) == m[idx].1,
{
    let k = m[idx].0;
    assert(assoc_has(m, k));
    let i = choose|i: int| 0 <= i < m.len() && m[i].0 == k;
    if i != idx {
        if i < idx {
            assert(m[i].0 != m[idx].0);
        } else {
            assert(m[idx].0 != m[i].0);
        }
    }
}

/// Committing a pair binds its key to its value and leaves every other
/// binding as it was.
pub proof fn lemma_assoc_insert_lookup(m: Seq<(Seq<char>, JVal)>, k: Seq<char>, v: JVal)
    requires
        assoc_unique(m),
    ensures
        assoc_lookup(assoc_insert(m, k, v), k) == v,
        forall|x: Seq<char>|
            x != k && assoc_has(m, x) ==> #[trigger] assoc_lookup(assoc_insert(m, k, v), x)
                == assoc_lookup(m, x),
    decreases m.len(),
{
    let r = assoc_insert(m, k, v);
    lemma_assoc_insert_unique(m, k, v);
    lemma_assoc_insert_keys(m, k, v);
    if assoc_has(m, k) {
        let i = first_key_index(m, k);
        lemma_assoc_insert_update(m, k, v, i);
        lemma_assoc_lookup_at(r, i);
        assert forall|x: Seq<char>|
            x != k && assoc_has(m, x) implies assoc_lookup(r, x) == assoc_lookup(m, x) by {
            let t = choose|t: int| 0 <= t < m.len() && m[t].0 == x;
            lemma_assoc_lookup_at(m, t);
            assert(r[t] == m[t]);
            lemma_assoc_lookup_at(r, t);
        }
    } else {
        lemma_assoc_insert_append(m, k, v);
        lemma_assoc_lookup_at(r, m.len() as int);
        assert forall|x: Seq<char>|
            x != k && assoc_has(m, x) implies assoc_lookup(r, x) == assoc_lookup(m, x) by {
            let t = choose|t: int| 0 <= t < m.len() && m[t].0 == x;
            lemma_assoc_lookup_at(m, t);
            assert(r[t] == m[t]);
            lemma_assoc_lookup_at(r, t);
        }
    }
}

/// Whether every object anywhere inside the value has unique keys.
pub open spec fn jval_wf(v: JVal) -> bool
    decreases v, 1int,
{
    match v {
        JVal::Str(_) => true,
        JVal::Num(_) => true,
        JVal::Bool(_) => true,
        JVal::Null => true,
        JVal::Arr(es) => seq_all_wf(es),
        JVal::Obj(m) => assoc_unique(m) && pairs_all_wf(m),
    }
}

/// Whether every element of the sequence is well formed.
pub open spec fn seq_all_wf(es: Seq<JVal>) -> bool
    decreases es, 0int,
{
    if es.len() == 0 {
        true
    } else {
        seq_all_wf(es.drop_last()) && jval_wf(es.last())
    }
}

/// Whether every value of the association sequence is well formed.
pub open spec fn pairs_all_wf(m: Seq<(Seq<char>, JVal)>) -> bool
    decreases m, 0int,
{
    if m.len() == 0 {
        true
    } else {
        pairs_all_wf(m.drop_last()) && jval_wf(m.last().1)
    }
}

/// How deeply the value nests containers: zero for a scalar, one more
/// than the deepest child for an array or object.
pub open spec fn jdepth(v: JVal) -> int
    decreases v, 1int,
{
    match v {
        JVal::Str(_) => 0,
        JVal::Num(_) => 0,
        JVal::Bool(_) => 0,
        JVal::Null => 0,
        JVal::Arr(es) => 1 + seq_max_depth(es),
        JVal::Obj(m) => 1 + pairs_max_depth(m),
    }
}

/// The deepest nesting among the elements of the sequence.
pub open spec fn seq_max_depth(es: Seq<JVal>) -> int
    decreases es, 0int,
{
    if es.len() == 0 {
        0
    } else if jdepth(es.last()) >= seq_max_depth(es.drop_last()) {
        jdepth(es.last())
    } else {
        seq_max_depth(es.drop_last())
    }
}

/// The deepest nesting among the values of the association sequence.
pub open spec fn pairs_max_depth(m: Seq<(Seq<char>, JVal)>) -> int
    decreases m, 0int,
{
    if m.len() == 0 {
        0
    } else if jdepth(m.last().1) >= pairs_max_depth(m.drop_last()) {
        jdepth(m.last().1)
    } else {
        pairs_max_depth(m.drop_last())
    }
}

/// Well-formedness and depth of an association sequence, entry by entry.
pub proof fn lemma_pairs_pointwise(m: Seq<(Seq<char>, JVal)>, bound: int)
    ensures
        pairs_all_wf(m) <==> (forall|t: int| 0 <= t < m.len() ==> jval_wf(#[trigger] m[t].1)),
        pairs_max_depth(m) <= bound <==> (0 <= bound && forall|t: int|
            0 <= t < m.len() ==> jdepth(#[trigger] m[t].1) <= bound),
    decreases m.len(),
{
    if m.len() > 0 {
        lemma_pairs_pointwise(m.drop_last(), bound);
        assert(forall|t: int| 0 <= t < m.len() - 1 ==> m.drop_last()[t] == m[t]);
        assert(m.last() == m[m.len() - 1]);
    }
}

/// Appending an element to a sequence of values, element by element.
pub proof fn lemma_seq_depth_push(es: Seq<JVal>, v: JVal)
    ensures
        seq_all_wf(es.push(v)) == (seq_all_wf(es) && jval_wf(v)),
        seq_max_depth(es.push(v)) == if jdepth(v) >= seq_max_depth(es) {
            jdepth(v)
        } else {
            seq_max_depth(es)
        },
{
    assert(es.push(v).drop_last() =~= es);
    assert(es.push(v).last() == v);
}

/// Committing a well-formed, depth-bounded pair keeps the association
/// sequence well formed and depth-bounded.
pub proof fn lemma_assoc_insert_wf(m: Seq<(Seq<char>, JVal)>, k: Seq<char>, v: JVal, bound: int)
    requires
        assoc_unique(m),
        pairs_all_wf(m),
        pairs_max_depth(m) <= bound,
        jval_wf(v),
        jdepth(v) <= bound,
    ensures
        pairs_all_wf(assoc_insert(m, k, v)),
        pairs_max_depth(assoc_insert(m, k, v)) <= bound,
{
    let r = assoc_insert(m, k, v);
    lemma_pairs_pointwise(m, bound);
    if assoc_has(m, k) {
        let i = first_key_index(m, k);
        lemma_assoc_insert_update(m, k, v, i);
        lemma_pairs_pointwise(r, bound);
        assert(forall|t: int| 0 <= t < r.len() && t != i ==> r[t] == m[t]);
    } else {
        lemma_assoc_insert_append(m, k, v);
        lemma_pairs_pointwise(r, bound);
        assert(forall|t: int| 0 <= t < m.len() ==> r[t] == m[t]);
        assert(r[m.len() as int] == (k, v));
    }
}

} // verus!

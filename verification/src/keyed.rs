//! Tables keyed by name, as a sorted map holds them: each key once, keys in
//! ascending order, a later entry for a key replacing an earlier one.
use vstd::prelude::*;

use crate::text::{lemma_lt_total, lemma_lt_trans, seq_lt, str_eq, str_lt};

verus! {

/// Whether the keys of `t` are strictly increasing, so each occurs once.
pub open spec fn key_sorted<V>(t: Seq<(Seq<char>, V)>) -> bool {
    forall|i: int, j: int| 0 <= i < j < t.len() ==> seq_lt(#[trigger] t[i].0, #[trigger] t[j].0)
}

/// The first position at or after `from` whose key does not sort before `k`.
pub open spec fn key_pos_from<V>(t: Seq<(Seq<char>, V)>, k: Seq<char>, from: int) -> int
    decreases t.len() - from,
{
    if from < 0 || from >= t.len() {
        t.len() as int
    } else if !seq_lt(t[from].0, k) {
        from
    } else {
        key_pos_from(t, k, from + 1)
    }
}

/// `t` with `k` set to `v`: replaced where the key is present, otherwise added
/// in its sorted place.
pub open spec fn key_insert<V>(t: Seq<(Seq<char>, V)>, k: Seq<char>, v: V) -> Seq<(Seq<char>, V)> {
    let p = key_pos_from(t, k, 0);
    if p < t.len() && t[p].0 == k {
        t.update(p, (k, v))
    } else {
        t.insert(p, (k, v))
    }
}

/// `t` with every pair of `pairs` inserted, in order.
pub open spec fn insert_all<V>(t: Seq<(Seq<char>, V)>, pairs: Seq<(Seq<char>, V)>) -> Seq<(Seq<char>, V)>
    decreases pairs.len(),
{
    if pairs.len() == 0 {
        t
    } else {
        insert_all(key_insert(t, pairs[0].0, pairs[0].1), pairs.drop_first())
    }
}

/// The table that `pairs` make: each key once, in ascending order, holding
/// the value of its last pair.
pub open spec fn from_pairs<V>(pairs: Seq<(Seq<char>, V)>) -> Seq<(Seq<char>, V)> {
    insert_all(Seq::empty(), pairs)
}

proof fn lemma_key_pos<V>(t: Seq<(Seq<char>, V)>, k: Seq<char>, from: int)
    requires
        0 <= from <= t.len(),
    ensures
        from <= key_pos_from(t, k, from) <= t.len(),
        forall|i: int| from <= i < key_pos_from(t, k, from) ==> seq_lt(#[trigger] t[i].0, k),
        key_pos_from(t, k, from) < t.len() ==> !seq_lt(t[key_pos_from(t, k, from)].0, k),
    decreases t.len() - from,
{
    if from < t.len() && seq_lt(t[from].0, k) {
        lemma_key_pos(t, k, from + 1);
    }
}

/// Inserting into a sorted table keeps it sorted.
pub proof fn law_key_insert_sorted<V>(t: Seq<(Seq<char>, V)>, k: Seq<char>, v: V)
    requires
        key_sorted(t),
    ensures
        key_sorted(key_insert(t, k, v)),
{
    let p = key_pos_from(t, k, 0);
    lemma_key_pos(t, k, 0);
    let r = key_insert(t, k, v);
    if p < t.len() && t[p].0 == k {
        assert forall|i: int, j: int| 0 <= i < j < r.len() implies seq_lt(#[trigger] r[i].0, #[trigger] r[j].0) by {
            assert(r[i].0 == t[i].0 && r[j].0 == t[j].0);
        }
    } else {
        if p < t.len() {
            lemma_lt_total(t[p].0, k);
        }
        assert forall|i: int, j: int| 0 <= i < j < r.len() implies seq_lt(#[trigger] r[i].0, #[trigger] r[j].0) by {
            if j < p {
                assert(r[i].0 == t[i].0 && r[j].0 == t[j].0);
            } else if j == p {
                assert(r[i].0 == t[i].0);
            } else if i == p {
                assert(r[j].0 == t[j - 1].0);
                if j - 1 > p {
                    assert(seq_lt(t[p].0, t[j - 1].0));
                    lemma_lt_trans(k, t[p].0, t[j - 1].0);
                }
            } else if i < p {
                assert(r[i].0 == t[i].0 && r[j].0 == t[j - 1].0);
                if j - 1 > p {
                    assert(seq_lt(t[p].0, t[j - 1].0));
                    lemma_lt_trans(k, t[p].0, t[j - 1].0);
                }
                lemma_lt_trans(t[i].0, k, t[j - 1].0);
            } else {
                assert(r[i].0 == t[i - 1].0 && r[j].0 == t[j - 1].0);
            }
        }
    }
}

proof fn lemma_insert_all_sorted<V>(t: Seq<(Seq<char>, V)>, pairs: Seq<(Seq<char>, V)>)
    requires
        key_sorted(t),
    ensures
        key_sorted(insert_all(t, pairs)),
    decreases pairs.len(),
{
    if pairs.len() > 0 {
        law_key_insert_sorted(t, pairs[0].0, pairs[0].1);
        lemma_insert_all_sorted(key_insert(t, pairs[0].0, pairs[0].1), pairs.drop_first());
    }
}

/// The table of any list of pairs is sorted, each key once.
pub proof fn law_from_pairs_sorted<V>(pairs: Seq<(Seq<char>, V)>)
    ensures
        key_sorted(from_pairs(pairs)),
{
    lemma_insert_all_sorted(Seq::<(Seq<char>, V)>::empty(), pairs);
}

/// The view of a keyed table.
pub open spec fn keyed_view<T: View>(v: Seq<(String, T)>) -> Seq<(Seq<char>, T::V)> {
    Seq::new(v.len(), |i: int| (v[i].0@, v[i].1@))
}

/// Sets `k` to `v` in a key-sorted table.
pub fn insert_keyed<T: View>(table: &mut Vec<(String, T)>, k: String, v: T)
    ensures
        keyed_view(final(table)@) == key_insert(keyed_view(old(table)@), k@, v@),
{
    let ghost t = keyed_view(table@);
    let mut i: usize = 0;
    while i < table.len() && str_lt(table[i].0.as_str(), k.as_str())
        invariant
            i <= table@.len(),
            t == keyed_view(table@),
            key_pos_from(t, k@, 0) == key_pos_from(t, k@, i as int),
        decreases table@.len() - i,
    {
        i = i + 1;
    }
    let ghost kv = k@;
    let ghost vv = v@;
    if i < table.len() && str_eq(table[i].0.as_str(), k.as_str()) {
        table.set(i, (k, v));
        assert(keyed_view(table@) =~= key_insert(t, kv, vv));
    } else {
        table.insert(i, (k, v));
        assert(keyed_view(table@) =~= key_insert(t, kv, vv));
    }
}

/// The table that `pairs` make.
pub fn keyed_table<T: View>(pairs: Vec<(String, T)>) -> (r: Vec<(String, T)>)
    ensures
        keyed_view(r@) == from_pairs(keyed_view(pairs@)),
        key_sorted(keyed_view(r@)),
{
    let ghost all = keyed_view(pairs@);
    let mut rest = pairs;
    let mut out: Vec<(String, T)> = Vec::new();
    assert(keyed_view(out@) =~= Seq::<(Seq<char>, T::V)>::empty());
    while rest.len() > 0
        invariant
            from_pairs(all) == insert_all(keyed_view(out@), keyed_view(rest@)),
        decreases rest@.len(),
    {
        let ghost rv = keyed_view(rest@);
        let (k, v) = rest.remove(0);
        assert(keyed_view(rest@) =~= rv.drop_first());
        insert_keyed(&mut out, k, v);
    }
    assert(keyed_view(rest@) =~= Seq::<(Seq<char>, T::V)>::empty());
    proof {
        law_from_pairs_sorted(all);
    }
    out
}

} // verus!

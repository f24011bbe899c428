//! Ordered maps from names to values, held as sequences of pairs: the
//! shape shared by cookie headers and decoded forms, where a later value
//! for a name replaces an earlier one in place.

use vstd::prelude::*;

verus! {

/// The position of the first pair named `key`, searching from `i`.
pub open spec fn pair_index(pairs: Seq<(Seq<char>, Seq<char>)>, key: Seq<char>, i: int) -> Option<int>
    decreases pairs.len() - i,
{
    if i < 0 || i >= pairs.len() {
        None
    } else if pairs[i].0 == key {
        Some(i)
    } else {
        pair_index(pairs, key, i + 1)
    }
}

/// The value stored under `key`.
pub open spec fn pair_value(pairs: Seq<(Seq<char>, Seq<char>)>, key: Seq<char>) -> Option<Seq<char>> {
    match pair_index(pairs, key, 0) {
        Some(j) => Some(pairs[j].1),
        None => None,
    }
}

/// Map insertion on name/value pairs: an existing name keeps its place and
/// takes the new value; a new name is appended.
pub open spec fn pairs_insert(pairs: Seq<(Seq<char>, Seq<char>)>, key: Seq<char>, value: Seq<char>) -> Seq<(Seq<char>, Seq<char>)> {
    match pair_index(pairs, key, 0) {
        Some(j) => pairs.update(j, (key, value)),
        None => pairs.push((key, value)),
    }
}

/// The mathematical form of string pairs.
pub open spec fn string_pairs_view(pairs: Seq<(String, String)>) -> Seq<(Seq<char>, Seq<char>)> {
    Seq::new(pairs.len(), |i: int| (pairs[i].0@, pairs[i].1@))
}

/// Whether no name occurs twice.
pub open spec fn distinct_names(pairs: Seq<(Seq<char>, Seq<char>)>) -> bool {
    forall|a: int, b: int| 0 <= a < b < pairs.len() ==> #[trigger] pairs[a].0 != #[trigger] pairs[b].0
}

pub proof fn lemma_pair_index_facts(p: Seq<(Seq<char>, Seq<char>)>, key: Seq<char>, i: int)
    requires
        0 <= i,
    ensures
        match pair_index(p, key, i) {
            Some(j) => i <= j < p.len() && p[j].0 == key && forall|m: int| i <= m < j ==> (#[trigger] p[m]).0 != key,
            None => forall|m: int| i <= m < p.len() ==> (#[trigger] p[m]).0 != key,
        },
    decreases p.len() - i,
{
    if i < p.len() && p[i].0 != key {
        lemma_pair_index_facts(p, key, i + 1);
    }
}

proof fn lemma_pair_index_same_names(a: Seq<(Seq<char>, Seq<char>)>, b: Seq<(Seq<char>, Seq<char>)>, key: Seq<char>, i: int)
    requires
        0 <= i,
        a.len() == b.len(),
        forall|m: int| 0 <= m < a.len() ==> (#[trigger] a[m]).0 == b[m].0,
    ensures
        pair_index(a, key, i) == pair_index(b, key, i),
    decreases a.len() - i,
{
    if i < a.len() {
        assert(a[i].0 == b[i].0);
        lemma_pair_index_same_names(a, b, key, i + 1);
    }
}

proof fn lemma_pair_index_push(p: Seq<(Seq<char>, Seq<char>)>, k2: Seq<char>, v2: Seq<char>, key: Seq<char>, i: int)
    requires
        0 <= i <= p.len(),
    ensures
        pair_index(p.push((k2, v2)), key, i) == match pair_index(p, key, i) {
            Some(j) => Some(j),
            None => if key == k2 {
                Some(p.len() as int)
            } else {
                None
            },
        },
    decreases p.len() - i,
{
    let q = p.push((k2, v2));
    if i < p.len() {
        assert(q[i] == p[i]);
        lemma_pair_index_push(p, k2, v2, key, i + 1);
    } else {
        assert(q[i] == (k2, v2));
        assert(pair_index(q, key, i + 1) is None);
    }
}

/// Looking a name up after an insertion gives the inserted value for that
/// name and the earlier value for every other name.
pub proof fn lemma_pairs_insert_lookup(p: Seq<(Seq<char>, Seq<char>)>, k2: Seq<char>, v2: Seq<char>, key: Seq<char>)
    ensures
        pair_value(pairs_insert(p, k2, v2), key) == if key == k2 {
            Some(v2)
        } else {
            pair_value(p, key)
        },
{
    lemma_pair_index_facts(p, k2, 0);
    lemma_pair_index_facts(p, key, 0);
    match pair_index(p, k2, 0) {
        Some(j) => {
            let u = p.update(j, (k2, v2));
            assert forall|m: int| 0 <= m < p.len() implies (#[trigger] p[m]).0 == u[m].0 by {}
            lemma_pair_index_same_names(p, u, key, 0);
        },
        None => {
            lemma_pair_index_push(p, k2, v2, key, 0);
            let q = p.push((k2, v2));
            if let Some(j) = pair_index(p, key, 0) {
                assert(q[j] == p[j]);
            }
        },
    }
}

/// Insertion keeps names distinct.
pub proof fn lemma_pairs_insert_distinct(p: Seq<(Seq<char>, Seq<char>)>, k2: Seq<char>, v2: Seq<char>)
    requires
        distinct_names(p),
    ensures
        distinct_names(pairs_insert(p, k2, v2)),
{
    lemma_pair_index_facts(p, k2, 0);
    match pair_index(p, k2, 0) {
        Some(j) => {
            let u = p.update(j, (k2, v2));
            assert forall|a: int, b: int| 0 <= a < b < u.len() implies #[trigger] u[a].0 != #[trigger] u[b].0 by {
                assert(u[a].0 == p[a].0);
                assert(u[b].0 == p[b].0);
            }
        },
        None => {
            let q = p.push((k2, v2));
            assert forall|a: int, b: int| 0 <= a < b < q.len() implies #[trigger] q[a].0 != #[trigger] q[b].0 by {
                if b == p.len() {
                    assert(q[a] == p[a]);
                } else {
                    assert(q[a] == p[a]);
                    assert(q[b] == p[b]);
                }
            }
        },
    }
}

/// Inserts a name/value pair, as `pairs_insert` describes.
pub fn string_pairs_insert(pairs: &mut Vec<(String, String)>, key: String, value: String)
    ensures
        string_pairs_view(final(pairs)@) == pairs_insert(string_pairs_view(old(pairs)@), key@, value@),
{
    let ghost pv = string_pairs_view(pairs@);
    let n = pairs.len();
    let mut i: usize = 0;
    while i < n
        invariant
            n == pairs@.len(),
            pairs@ == old(pairs)@,
            pv == string_pairs_view(pairs@),
            i <= n,
            pair_index(pv, key@, 0) == pair_index(pv, key@, i as int),
        decreases n - i,
    {
        assert(pv[i as int].0 == pairs@[i as int].0@);
        if pairs[i].0 == key {
            let ghost kv = key@;
            let ghost vv = value@;
            assert(pair_index(pv, kv, i as int) == Some(i as int));
            pairs[i] = (key, value);
            assert(string_pairs_view(pairs@) =~= pv.update(i as int, (kv, vv)));
            return;
        }
        i += 1;
    }
    let ghost kv = key@;
    let ghost vv = value@;
    pairs.push((key, value));
    assert(string_pairs_view(pairs@) =~= pv.push((kv, vv)));
}

} // verus!

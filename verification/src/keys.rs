//! Sequences of keys: their views, membership, sorting, and the sorted
//! duplicate-free sequences in which results are reported.

use vstd::prelude::*;
use crate::order::{key_lt, key_order, lemma_key_lt_total, lemma_key_lt_transitive, Order};

verus! {

/// The keys of `v` as character sequences, in the same order.
pub open spec fn views(v: Seq<String>) -> Seq<Seq<char>> {
    v.map_values(|s: String| s@)
}

/// The set of keys that occur in `v`.
pub open spec fn key_set(v: Seq<String>) -> Set<Seq<char>> {
    views(v).to_set()
}

/// No key of `s` comes before an earlier one.
pub open spec fn sorted(s: Seq<Seq<char>>) -> bool {
    forall|i: int, j: int| 0 <= i < j < s.len() ==> !key_lt(#[trigger] s[j], #[trigger] s[i])
}

/// Every key of `s` comes before all later ones: `s` is sorted and holds no
/// key twice.
pub open spec fn strictly_sorted(s: Seq<Seq<char>>) -> bool {
    forall|i: int, j: int| 0 <= i < j < s.len() ==> key_lt(#[trigger] s[i], #[trigger] s[j])
}

/// Everything before `pos` comes before `k`, and nothing from `pos` on does.
pub open spec fn is_insertion_point(s: Seq<Seq<char>>, k: Seq<char>, pos: int) -> bool {
    &&& 0 <= pos <= s.len()
    &&& forall|j: int| 0 <= j < pos ==> key_lt(#[trigger] s[j], k)
    &&& forall|j: int| pos <= j < s.len() ==> !key_lt(#[trigger] s[j], k)
}

/// A strictly sorted sequence is sorted.
pub proof fn lemma_strictly_sorted_is_sorted(s: Seq<Seq<char>>)
    requires
        strictly_sorted(s),
    ensures
        sorted(s),
        s.no_duplicates(),
{
    assert forall|i: int, j: int| 0 <= i < j < s.len() implies !key_lt(
        #[trigger] s[j],
        #[trigger] s[i],
    ) by {
        lemma_key_lt_total(s[i], s[j]);
    }
    assert forall|i: int, j: int| 0 <= i < s.len() && 0 <= j < s.len() && i != j implies s[i]
        != s[j] by {
        lemma_key_lt_total(s[i], s[j]);
        if i < j {
            assert(key_lt(s[i], s[j]));
        } else {
            assert(key_lt(s[j], s[i]));
        }
    }
}

/// Inserting a key at its insertion point keeps a sorted sequence sorted.
pub proof fn lemma_insert_keeps_sorted(s: Seq<Seq<char>>, k: Seq<char>, pos: int)
    requires
        sorted(s),
        is_insertion_point(s, k, pos),
    ensures
        sorted(s.insert(pos, k)),
{
    let t = s.insert(pos, k);
    assert forall|i: int, j: int| 0 <= i < j < t.len() implies !key_lt(
        #[trigger] t[j],
        #[trigger] t[i],
    ) by {
        if j < pos {
            assert(t[i] == s[i] && t[j] == s[j]);
        } else if j == pos {
            assert(t[i] == s[i]);
            lemma_key_lt_total(s[i], k);
        } else if i < pos {
            assert(t[i] == s[i] && t[j] == s[j - 1]);
        } else if i == pos {
            assert(t[j] == s[j - 1]);
        } else {
            assert(t[i] == s[i - 1] && t[j] == s[j - 1]);
        }
    }
}

/// Inserting a key that is not yet there at its insertion point keeps a
/// strictly sorted sequence strictly sorted.
pub proof fn lemma_insert_keeps_strictly_sorted(s: Seq<Seq<char>>, k: Seq<char>, pos: int)
    requires
        strictly_sorted(s),
        is_insertion_point(s, k, pos),
        pos < s.len() ==> s[pos] != k,
    ensures
        strictly_sorted(s.insert(pos, k)),
{
    let t = s.insert(pos, k);
    assert forall|i: int, j: int| 0 <= i < j < t.len() implies key_lt(
        #[trigger] t[i],
        #[trigger] t[j],
    ) by {
        if j < pos {
            assert(t[i] == s[i] && t[j] == s[j]);
        } else if j == pos {
            assert(t[i] == s[i]);
        } else if i < pos {
            assert(t[i] == s[i] && t[j] == s[j - 1]);
        } else if i == pos {
            assert(t[j] == s[j - 1]);
            lemma_key_lt_total(k, s[pos]);
            if pos < j - 1 {
                assert(key_lt(s[pos], s[j - 1]));
                lemma_key_lt_transitive(k, s[pos], s[j - 1]);
            }
        } else {
            assert(t[i] == s[i - 1] && t[j] == s[j - 1]);
        }
    }
}

/// In a sorted sequence a key occurs at its insertion point or nowhere.
pub proof fn lemma_found_at_insertion_point(s: Seq<Seq<char>>, k: Seq<char>, pos: int)
    requires
        sorted(s),
        is_insertion_point(s, k, pos),
    ensures
        s.contains(k) <==> (pos < s.len() && s[pos] == k),
{
    if s.contains(k) {
        let i = choose|i: int| 0 <= i < s.len() && s[i] == k;
        lemma_key_lt_total(k, k);
        if i > pos {
            assert(!key_lt(s[i], s[pos]));
            lemma_key_lt_total(s[pos], k);
        }
    }
}

/// Two strictly sorted sequences that hold the same keys are the same
/// sequence: such a sequence is determined by its set of keys.
pub proof fn lemma_strictly_sorted_unique(s: Seq<Seq<char>>, t: Seq<Seq<char>>)
    requires
        strictly_sorted(s),
        strictly_sorted(t),
        s.to_set() == t.to_set(),
    ensures
        s == t,
    decreases s.len(),
{
    lemma_strictly_sorted_is_sorted(s);
    lemma_strictly_sorted_is_sorted(t);
    s.unique_seq_to_set();
    t.unique_seq_to_set();
    if s.len() > 0 {
        let a = s.last();
        let b = t.last();
        assert(s.to_set().contains(a));
        assert(t.to_set().contains(b));
        assert(t.contains(a));
        assert(s.contains(b));
        let i = choose|i: int| 0 <= i < t.len() && t[i] == a;
        let j = choose|j: int| 0 <= j < s.len() && s[j] == b;
        lemma_key_lt_total(a, b);
        if i < t.len() - 1 {
            assert(key_lt(t[i], t[t.len() - 1]));
        }
        if j < s.len() - 1 {
            assert(key_lt(s[j], s[s.len() - 1]));
        }
        assert(a == b);
        let s1 = s.drop_last();
        let t1 = t.drop_last();
        assert forall|x: Seq<char>| s1.to_set().contains(x) <==> t1.to_set().contains(x) by {
            if s1.contains(x) {
                let p = choose|p: int| 0 <= p < s1.len() && s1[p] == x;
                assert(s[p] == x);
                assert(key_lt(s[p], s[s.len() - 1]));
                lemma_key_lt_total(x, a);
                assert(s.to_set().contains(x));
                assert(t.contains(x));
                let q = choose|q: int| 0 <= q < t.len() && t[q] == x;
                assert(t1[q] == x);
            }
            if t1.contains(x) {
                let p = choose|p: int| 0 <= p < t1.len() && t1[p] == x;
                assert(t[p] == x);
                assert(key_lt(t[p], t[t.len() - 1]));
                lemma_key_lt_total(x, b);
                assert(t.to_set().contains(x));
                assert(s.contains(x));
                let q = choose|q: int| 0 <= q < s.len() && s[q] == x;
                assert(s1[q] == x);
            }
        }
        assert(s1.to_set() =~= t1.to_set());
        lemma_strictly_sorted_unique(s1, t1);
        assert(s =~= s1.push(a));
        assert(t =~= t1.push(b));
    } else {
        if t.len() > 0 {
            assert(t.to_set().contains(t[0]));
            assert(s.contains(t[0]));
        }
        assert(s =~= t);
    }
}

/// Finds where `key` belongs in the sorted `keys`: the position of the first
/// key that does not come before it.
pub fn insertion_point(keys: &Vec<String>, key: &str) -> (pos: usize)
    requires
        sorted(views(keys@)),
    ensures
        is_insertion_point(views(keys@), key@, pos as int),
{
    let ghost s = views(keys@);
    let mut pos: usize = 0;
    while pos < keys.len() && key_order(keys[pos].as_str(), key) == Order::Less
        invariant
            pos <= keys@.len(),
            s == views(keys@),
            forall|j: int| 0 <= j < pos ==> key_lt(#[trigger] s[j], key@),
        decreases keys@.len() - pos,
    {
        pos += 1;
    }
    proof {
        if pos < keys@.len() {
            assert(!key_lt(s[pos as int], key@));
            assert forall|j: int| pos <= j < s.len() implies !key_lt(#[trigger] s[j], key@) by {
                if j > pos && key_lt(s[j], key@) {
                    lemma_key_lt_total(s[pos as int], key@);
                    assert(!key_lt(s[j], s[pos as int]));
                    if key_lt(key@, s[pos as int]) {
                        lemma_key_lt_transitive(s[j], key@, s[pos as int]);
                    }
                }
            }
        }
    }
    pos
}

/// The keys of `keys` in ascending order, each as often as it occurs.
pub fn sort_keys(keys: &Vec<String>) -> (r: Vec<String>)
    ensures
        sorted(views(r@)),
        views(r@).to_multiset() == views(keys@).to_multiset(),
{
    let mut out: Vec<String> = Vec::new();
    let mut i: usize = 0;
    assert(views(keys@.take(0)) =~= views(out@));
    while i < keys.len()
        invariant
            i <= keys@.len(),
            sorted(views(out@)),
            views(out@).to_multiset() == views(keys@.take(i as int)).to_multiset(),
        decreases keys@.len() - i,
    {
        let pos = insertion_point(&out, keys[i].as_str());
        let ghost before = views(out@);
        let ghost k = keys@[i as int]@;
        let key = keys[i].clone();
        out.insert(pos, key);
        proof {
            assert(views(out@) =~= before.insert(pos as int, k));
            lemma_insert_keeps_sorted(before, k, pos as int);
            vstd::seq_lib::to_multiset_insert(before, pos as int, k);
            let prefix = views(keys@.take(i as int));
            assert(views(keys@.take(i + 1)) =~= prefix.push(k));
            vstd::seq_lib::to_multiset_build(prefix, k);
        }
        i += 1;
    }
    assert(keys@.take(keys@.len() as int) =~= keys@);
    out
}

/// Puts `key` into the strictly sorted `keys` unless it is already there.
pub fn insert_unique(keys: &mut Vec<String>, key: String)
    requires
        strictly_sorted(views(old(keys)@)),
    ensures
        strictly_sorted(views(final(keys)@)),
        key_set(final(keys)@) == key_set(old(keys)@).insert(key@),
{
    let ghost before = views(keys@);
    proof {
        lemma_strictly_sorted_is_sorted(before);
    }
    let pos = insertion_point(keys, key.as_str());
    proof {
        lemma_found_at_insertion_point(before, key@, pos as int);
    }
    if pos < keys.len() && key_order(keys[pos].as_str(), key.as_str()) == Order::Equal {
        assert(before[pos as int] == key@);
        assert(before.to_set() =~= before.to_set().insert(key@));
    } else {
        let ghost k = key@;
        keys.insert(pos, key);
        proof {
            let after = views(keys@);
            assert(after =~= before.insert(pos as int, k));
            lemma_insert_keeps_strictly_sorted(before, k, pos as int);
            assert forall|x: Seq<char>| after.to_set().contains(x) <==> before.to_set().insert(
                k,
            ).contains(x) by {
                if after.contains(x) {
                    let p = choose|p: int| 0 <= p < after.len() && after[p] == x;
                    if p < pos {
                        assert(before[p] == x);
                    } else if p > pos {
                        assert(before[p - 1] == x);
                    }
                }
                if before.contains(x) {
                    let p = choose|p: int| 0 <= p < before.len() && before[p] == x;
                    if p < pos {
                        assert(after[p] == x);
                    } else {
                        assert(after[p + 1] == x);
                    }
                }
                assert(after[pos as int] == k);
            }
            assert(after.to_set() =~= before.to_set().insert(k));
        }
    }
}

} // verus!

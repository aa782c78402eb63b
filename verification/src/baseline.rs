//! The baseline: keys that the host's own interface supplies, so that no
//! language has to provide them.

use vstd::prelude::*;
use crate::keys::{key_set, views};
use crate::reconcile::key_index;

verus! {

/// `keys` without those that are in `baseline`, the others in their order
/// and as often as they occur.
pub open spec fn without_baseline(keys: Seq<Seq<char>>, baseline: Set<Seq<char>>) -> Seq<
    Seq<char>,
>
    decreases keys.len(),
{
    if keys.len() == 0 {
        Seq::empty()
    } else {
        let before = without_baseline(keys.drop_last(), baseline);
        if baseline.contains(keys.last()) {
            before
        } else {
            before.push(keys.last())
        }
    }
}

/// What is left of `keys` holds no key of the baseline, and holds every key
/// of `keys` that is not in the baseline.
pub proof fn lemma_without_baseline(keys: Seq<Seq<char>>, baseline: Set<Seq<char>>)
    ensures
        without_baseline(keys, baseline).to_set() == keys.to_set().difference(baseline),
    decreases keys.len(),
{
    let left = without_baseline(keys, baseline);
    if keys.len() == 0 {
        assert(left.to_set() =~= keys.to_set().difference(baseline));
    } else {
        let front = keys.drop_last();
        let before = without_baseline(front, baseline);
        lemma_without_baseline(front, baseline);
        assert(keys =~= front.push(keys.last()));
        front.lemma_push_to_set_commute(keys.last());
        if !baseline.contains(keys.last()) {
            before.lemma_push_to_set_commute(keys.last());
        }
        assert(left.to_set() =~= keys.to_set().difference(baseline));
    }
}

/// The keys of `input` that the baseline does not supply, in their order.
pub fn filter_skyui_translations(input: &Vec<String>, baseline: &Vec<String>) -> (r: Vec<String>)
    ensures
        views(r@) == without_baseline(views(input@), key_set(baseline@)),
{
    let index = key_index(baseline);
    let mut out: Vec<String> = Vec::new();
    let mut i: usize = 0;
    assert(views(input@.take(0)) =~= Seq::<Seq<char>>::empty());
    assert(views(out@) =~= Seq::<Seq<char>>::empty());
    while i < input.len()
        invariant
            i <= input@.len(),
            index@ == key_set(baseline@),
            views(out@) == without_baseline(views(input@.take(i as int)), key_set(baseline@)),
        decreases input@.len() - i,
    {
        proof {
            let next = views(input@.take(i + 1));
            assert(next.drop_last() =~= views(input@.take(i as int)));
            assert(next.last() == input@[i as int]@);
        }
        if !index.contains(input[i].as_str()) {
            let ghost before = views(out@);
            out.push(input[i].clone());
            assert(views(out@) =~= before.push(input@[i as int]@));
        }
        i += 1;
    }
    assert(input@.take(input@.len() as int) =~= input@);
    out
}

} // verus!

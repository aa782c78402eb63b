//! Reconciliation of the keys a mod requires with the keys a language file
//! provides: which are missing, and which are provided but never asked for.

use vstd::prelude::*;
use vstd::hash_set::StringHashSet;
use crate::keys::{insert_unique, key_set, strictly_sorted, views};

verus! {

/// The keys that a language still has to translate: required, not supplied by
/// the baseline, and not provided.
pub open spec fn missing_set(
    required: Set<Seq<char>>,
    provided: Set<Seq<char>>,
    baseline: Set<Seq<char>>,
) -> Set<Seq<char>> {
    required.difference(baseline).difference(provided)
}

/// The keys that a language provides without anything requiring them. The
/// baseline plays no part here.
pub open spec fn unused_set(required: Set<Seq<char>>, provided: Set<Seq<char>>) -> Set<Seq<char>> {
    provided.difference(required)
}

/// What reconciling one language found.
#[derive(Debug)]
pub struct Reconciliation {
    /// The missing keys, in ascending order, each once.
    pub missing: Vec<String>,
    /// The unused keys, in ascending order, each once.
    pub unused: Vec<String>,
}

impl Reconciliation {
    /// `self` is the reconciliation of the required keys with the provided
    /// keys under the baseline: both lists are strictly sorted and hold
    /// exactly the missing and the unused keys.
    pub open spec fn is_between(
        self,
        required: Set<Seq<char>>,
        provided: Set<Seq<char>>,
        baseline: Set<Seq<char>>,
    ) -> bool {
        &&& strictly_sorted(views(self.missing@))
        &&& strictly_sorted(views(self.unused@))
        &&& key_set(self.missing@) == missing_set(required, provided, baseline)
        &&& key_set(self.unused@) == unused_set(required, provided)
    }

    /// `self` is the reconciliation of `required` with `provided` under
    /// `baseline`.
    pub open spec fn is_for(
        self,
        required: Seq<String>,
        provided: Seq<String>,
        baseline: Seq<String>,
    ) -> bool {
        self.is_between(key_set(required), key_set(provided), key_set(baseline))
    }

    /// A language is clean when nothing is missing and nothing is unused.
    pub fn is_clean(&self) -> (r: bool)
        ensures
            r == (self.missing@.len() == 0 && self.unused@.len() == 0),
    {
        self.missing.len() == 0 && self.unused.len() == 0
    }

    /// A language passes when nothing is missing; unused keys do not fail it.
    pub fn passes(&self) -> (r: bool)
        ensures
            r == (self.missing@.len() == 0),
    {
        self.missing.len() == 0
    }
}

/// No missing key is provided, and no unused key is required, whatever the
/// three sets are.
pub proof fn lemma_reconcile_disjoint(
    required: Set<Seq<char>>,
    provided: Set<Seq<char>>,
    baseline: Set<Seq<char>>,
)
    ensures
        missing_set(required, provided, baseline).disjoint(provided),
        unused_set(required, provided).disjoint(required),
        missing_set(required, provided, baseline).disjoint(baseline),
        missing_set(required, provided, baseline).subset_of(required),
        unused_set(required, provided).subset_of(provided),
{
}

/// The keys of `keys` as a hash set.
pub fn key_index(keys: &Vec<String>) -> (r: StringHashSet)
    ensures
        r@ == key_set(keys@),
{
    let mut index = StringHashSet::new();
    let mut i: usize = 0;
    assert(key_set(keys@.take(0)) =~= Set::<Seq<char>>::empty());
    while i < keys.len()
        invariant
            i <= keys@.len(),
            index@ == key_set(keys@.take(i as int)),
        decreases keys@.len() - i,
    {
        let key = keys[i].clone();
        index.insert(key);
        proof {
            let prefix = views(keys@.take(i as int));
            assert(views(keys@.take(i + 1)) =~= prefix.push(keys@[i as int]@));
            prefix.lemma_push_to_set_commute(keys@[i as int]@);
        }
        i += 1;
    }
    assert(keys@.take(keys@.len() as int) =~= keys@);
    index
}

/// The keys of `keys` that are in neither `first` nor `second`, in ascending
/// order, each once.
pub fn keys_outside(keys: &Vec<String>, first: &StringHashSet, second: &StringHashSet) -> (r: Vec<
    String,
>)
    ensures
        strictly_sorted(views(r@)),
        key_set(r@) == key_set(keys@).difference(first@).difference(second@),
{
    let mut out: Vec<String> = Vec::new();
    let mut i: usize = 0;
    assert(key_set(keys@.take(0)) =~= Set::<Seq<char>>::empty());
    assert(key_set(out@) =~= Set::<Seq<char>>::empty());
    while i < keys.len()
        invariant
            i <= keys@.len(),
            strictly_sorted(views(out@)),
            key_set(out@) =~= key_set(keys@.take(i as int)).difference(first@).difference(
                second@,
            ),
        decreases keys@.len() - i,
    {
        proof {
            let prefix = views(keys@.take(i as int));
            assert(views(keys@.take(i + 1)) =~= prefix.push(keys@[i as int]@));
            prefix.lemma_push_to_set_commute(keys@[i as int]@);
        }
        let key = keys[i].as_str();
        if !first.contains(key) && !second.contains(key) {
            insert_unique(&mut out, keys[i].clone());
        }
        i += 1;
    }
    assert(keys@.take(keys@.len() as int) =~= keys@);
    out
}

/// Reconciles one language: finds the keys that are required but neither in
/// the baseline nor provided, and the keys that are provided but not
/// required.
pub fn reconcile(required: &Vec<String>, provided: &Vec<String>, baseline: &Vec<String>) -> (r:
    Reconciliation)
    ensures
        r.is_for(required@, provided@, baseline@),
        key_set(r.missing@).disjoint(key_set(provided@)),
        key_set(r.unused@).disjoint(key_set(required@)),
{
    let required_index = key_index(required);
    let provided_index = key_index(provided);
    let baseline_index = key_index(baseline);
    let nothing = StringHashSet::new();
    let missing = keys_outside(required, &baseline_index, &provided_index);
    let unused = keys_outside(provided, &required_index, &nothing);
    proof {
        assert(key_set(unused@) =~= unused_set(key_set(required@), key_set(provided@)));
        lemma_reconcile_disjoint(key_set(required@), key_set(provided@), key_set(baseline@));
    }
    Reconciliation { missing, unused }
}

/// The provided keys of one language, under the language's name.
#[derive(Debug)]
pub struct LanguageKeys {
    /// The language tag.
    pub language: String,
    /// The keys that the language's file provides.
    pub provided: Vec<String>,
}

/// Reconciles every language, each on its own, and tells whether all of them
/// pass. Every language is reconciled and reported, also after one has
/// failed.
pub fn reconcile_all(required: &Vec<String>, languages: &Vec<LanguageKeys>, baseline: &Vec<String>)
    -> (r: (Vec<Reconciliation>, bool))
    ensures
        r.0@.len() == languages@.len(),
        forall|i: int|
            0 <= i < languages@.len() ==> (#[trigger] r.0@[i]).is_for(
                required@,
                languages@[i].provided@,
                baseline@,
            ),
        r.1 <==> forall|i: int| 0 <= i < r.0@.len() ==> (#[trigger] r.0@[i]).missing@.len() == 0,
{
    let mut reports: Vec<Reconciliation> = Vec::new();
    let mut passed = true;
    let mut i: usize = 0;
    while i < languages.len()
        invariant
            i <= languages@.len(),
            reports@.len() == i,
            forall|j: int|
                0 <= j < i ==> (#[trigger] reports@[j]).is_for(
                    required@,
                    languages@[j].provided@,
                    baseline@,
                ),
            passed <==> forall|j: int|
                0 <= j < reports@.len() ==> (#[trigger] reports@[j]).missing@.len() == 0,
        decreases languages@.len() - i,
    {
        let report = reconcile(required, &languages[i].provided, baseline);
        let ok = report.passes();
        let ghost before = reports@;
        reports.push(report);
        proof {
            assert(forall|j: int| 0 <= j < i ==> reports@[j] == before[j]);
            if !ok {
                assert(reports@[i as int].missing@.len() != 0);
            }
        }
        passed = passed && ok;
        i += 1;
    }
    (reports, passed)
}

} // verus!

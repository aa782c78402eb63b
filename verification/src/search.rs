//! Searching a mod's sources for keys: the pattern that finds a key, and
//! which keys are left when the search is over.

use vstd::prelude::*;
use vstd::string::StringExecFns;
use crate::json::sentinel;
use crate::keys::views;
use crate::text::chars_of;

verus! {

/// The pattern that finds `key` as it is written: every sentinel in it is
/// escaped with a backslash, since a search takes a bare sentinel for the
/// end of a line.
pub open spec fn search_pattern(key: Seq<char>) -> Seq<char>
    decreases key.len(),
{
    if key.len() == 0 {
        Seq::empty()
    } else if key.last() == sentinel() {
        search_pattern(key.drop_last()) + seq!['\\', sentinel()]
    } else {
        search_pattern(key.drop_last()).push(key.last())
    }
}

/// The keys that a search has not found. `outcomes` holds, for each key in
/// turn, whether the search for it succeeded, or `None` where the search
/// could not be run; a key without an outcome counts as not searched for.
/// Every key stays but those whose search succeeded.
pub open spec fn unfound(keys: Seq<Seq<char>>, outcomes: Seq<Option<bool>>) -> Seq<Seq<char>>
    decreases keys.len(),
{
    if keys.len() == 0 {
        Seq::empty()
    } else {
        let before = unfound(keys.drop_last(), outcomes);
        let at = keys.len() - 1;
        if at < outcomes.len() && outcomes[at] == Some(true) {
            before
        } else {
            before.push(keys.last())
        }
    }
}

/// The pattern that finds `key` as it is written.
pub fn pattern_for(key: &str) -> (r: String)
    ensures
        r@ == search_pattern(key@),
{
    let chars = chars_of(key);
    let n = chars.len();
    let mut out = String::new();
    let mut start: usize = 0;
    let mut i: usize = 0;
    assert(key@.take(0) =~= Seq::<char>::empty());
    while i < n
        invariant
            start <= i <= n,
            n == key@.len(),
            chars@ == key@,
            out@ + key@.subrange(start as int, i as int) == search_pattern(key@.take(i as int)),
        decreases n - i,
    {
        proof {
            let next = key@.take(i + 1);
            assert(next.drop_last() =~= key@.take(i as int));
            assert(next.last() == key@[i as int]);
        }
        if chars[i] == '$' {
            let ghost before = out@;
            out.append(key.substring_char(start, i));
            out.append("\\$");
            proof {
                reveal_strlit("\\$");
                assert("\\$"@ =~= seq!['\\', sentinel()]);
                assert(out@ + key@.subrange(i + 1, i + 1) =~= (before + key@.subrange(
                    start as int,
                    i as int,
                )) + seq!['\\', sentinel()]);
            }
            start = i + 1;
        } else {
            assert(out@ + key@.subrange(start as int, i + 1) =~= (out@ + key@.subrange(
                start as int,
                i as int,
            )).push(key@[i as int]));
        }
        i += 1;
    }
    out.append(key.substring_char(start, n));
    assert(key@.take(n as int) =~= key@);
    out
}

/// The keys of `lookfor` that a search has not found, given the outcome of
/// the search for each of them.
pub fn keep_unfound(lookfor: Vec<String>, outcomes: &Vec<Option<bool>>) -> (r: Vec<String>)
    ensures
        views(r@) == unfound(views(lookfor@), outcomes@),
{
    let mut out: Vec<String> = Vec::new();
    let mut i: usize = 0;
    assert(views(lookfor@).take(0) =~= Seq::<Seq<char>>::empty());
    assert(views(out@) =~= Seq::<Seq<char>>::empty());
    while i < lookfor.len()
        invariant
            i <= lookfor@.len(),
            views(out@) == unfound(views(lookfor@).take(i as int), outcomes@),
        decreases lookfor@.len() - i,
    {
        proof {
            let next = views(lookfor@).take(i + 1);
            assert(next.drop_last() =~= views(lookfor@).take(i as int));
            assert(next.last() == lookfor@[i as int]@);
        }
        let found = if i < outcomes.len() {
            match outcomes[i] {
                Some(success) => success,
                None => false,
            }
        } else {
            false
        };
        if !found {
            let ghost before = views(out@);
            out.push(lookfor[i].clone());
            assert(views(out@) =~= before.push(lookfor@[i as int]@));
        }
        i += 1;
    }
    assert(views(lookfor@).take(lookfor@.len() as int) =~= views(lookfor@));
    out
}

} // verus!

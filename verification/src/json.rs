//! JSON documents as plain values, and the extraction of the translation
//! keys that a document refers to.

use vstd::prelude::*;
use crate::keys::views;
use crate::text::{trim, trim_str, CharClass};

verus! {

/// A JSON value. Numbers are kept as their text; the members of an object
/// are kept in the order in which they are given.
#[derive(Debug)]
pub enum Json {
    /// `null`.
    Null,
    /// `true` or `false`.
    Bool(bool),
    /// A number, as it is written.
    Number(String),
    /// A string.
    Text(String),
    /// An array.
    Array(Vec<Json>),
    /// An object: names and values.
    Object(Vec<(String, Json)>),
}

/// The character that marks a string as a reference to a translation key.
pub open spec fn sentinel() -> char {
    '$'
}

/// `s` begins with the sentinel.
pub open spec fn is_key_reference(s: Seq<char>) -> bool {
    s.len() > 0 && s[0] == sentinel()
}

/// The keys that one string contributes: itself, trimmed of white space, if
/// it begins with the sentinel, and nothing otherwise.
pub open spec fn keys_of_text(s: Seq<char>) -> Seq<Seq<char>> {
    if is_key_reference(s) {
        seq![trim(s, CharClass::Space)]
    } else {
        Seq::empty()
    }
}

/// The keys that a value refers to, in the order of its parts: those of
/// every string at any depth inside arrays and objects. The names of an object's
/// members are not looked at.
pub open spec fn keys_of(value: Json) -> Seq<Seq<char>>
    decreases value,
{
    match value {
        Json::Text(s) => keys_of_text(s@),
        Json::Array(items) => keys_of_items(items@),
        Json::Object(members) => keys_of_members(members@),
        _ => Seq::empty(),
    }
}

/// The keys that the elements of an array refer to.
pub open spec fn keys_of_items(items: Seq<Json>) -> Seq<Seq<char>>
    decreases items,
{
    if items.len() == 0 {
        Seq::empty()
    } else {
        keys_of_items(items.drop_last()) + keys_of(items.last())
    }
}

/// The keys that the values of an object's members refer to.
pub open spec fn keys_of_members(members: Seq<(String, Json)>) -> Seq<Seq<char>>
    decreases members,
{
    if members.len() == 0 {
        Seq::empty()
    } else {
        keys_of_members(members.drop_last()) + keys_of(members.last().1)
    }
}

/// Tells whether `s` begins with the sentinel.
pub fn starts_with_sentinel(s: &str) -> (r: bool)
    ensures
        r == is_key_reference(s@),
{
    !s.is_empty() && s.get_char(0) == '$'
}

/// Appends to `out` the keys that `value` refers to.
fn collect_into(value: &Json, out: &mut Vec<String>)
    ensures
        views(final(out)@) == views(old(out)@) + keys_of(*value),
    decreases value,
{
    match value {
        Json::Text(s) => {
            if starts_with_sentinel(s.as_str()) {
                let key = trim_str(s.as_str(), CharClass::Space);
                let ghost before = views(out@);
                out.push(key);
                assert(views(out@) =~= before + keys_of(*value));
            } else {
                assert(views(out@) =~= views(out@) + keys_of(*value));
            }
        },
        Json::Array(items) => {
            let ghost start = views(out@);
            let mut i: usize = 0;
            assert(items@.take(0) =~= Seq::<Json>::empty());
            assert(views(out@) =~= start + keys_of_items(items@.take(0)));
            while i < items.len()
                invariant
                    i <= items@.len(),
                    *value == Json::Array(*items),
                    views(out@) == start + keys_of_items(items@.take(i as int)),
                decreases items@.len() - i,
            {
                proof {
                    assert(value->Array_0 == *items);
                    assert(decreases_to!(*value => value->Array_0));
                    assert(decreases_to!(*items => items@));
                    assert(decreases_to!(items@ => items@[i as int]));
                }
                collect_into(&items[i], out);
                proof {
                    let next = items@.take(i + 1);
                    assert(next.drop_last() =~= items@.take(i as int));
                    assert(next.last() == items@[i as int]);
                    assert(views(out@) =~= start + keys_of_items(next));
                }
                i += 1;
            }
            assert(items@.take(items@.len() as int) =~= items@);
        },
        Json::Object(members) => {
            let ghost start = views(out@);
            let mut i: usize = 0;
            assert(members@.take(0) =~= Seq::<(String, Json)>::empty());
            assert(views(out@) =~= start + keys_of_members(members@.take(0)));
            while i < members.len()
                invariant
                    i <= members@.len(),
                    *value == Json::Object(*members),
                    views(out@) == start + keys_of_members(members@.take(i as int)),
                decreases members@.len() - i,
            {
                proof {
                    assert(value->Object_0 == *members);
                    assert(decreases_to!(*value => value->Object_0));
                    assert(decreases_to!(*members => members@));
                    assert(decreases_to!(members@ => members@[i as int]));
                    assert(decreases_to!(members@[i as int] => members@[i as int].1));
                }
                collect_into(&members[i].1, out);
                proof {
                    let next = members@.take(i + 1);
                    assert(next.drop_last() =~= members@.take(i as int));
                    assert(next.last() == members@[i as int]);
                    assert(views(out@) =~= start + keys_of_members(next));
                }
                i += 1;
            }
            assert(members@.take(members@.len() as int) =~= members@);
        },
        _ => {
            assert(views(out@) =~= views(out@) + keys_of(*value));
        },
    }
}

/// The translation keys that `value` refers to, in the order of its parts,
/// duplicates included.
pub fn collect_translation_keys(value: &Json) -> (r: Vec<String>)
    ensures
        views(r@) == keys_of(*value),
        forall|i: int| 0 <= i < r@.len() ==> is_key_reference(#[trigger] r@[i]@),
{
    let mut out: Vec<String> = Vec::new();
    assert(views(out@) =~= Seq::<Seq<char>>::empty());
    collect_into(value, &mut out);
    assert(views(out@) =~= keys_of(*value)) by {
        assert(views(Seq::<String>::empty()) =~= Seq::<Seq<char>>::empty());
    }
    assert forall|i: int| 0 <= i < out@.len() implies is_key_reference(#[trigger] out@[i]@) by {
        assert(views(out@)[i] == out@[i]@);
        lemma_extraction_exact(*value, out@[i]@);
    }
    out
}

/// The keys that the elements of `items` refer to, in order.
pub fn keys_from_array(items: &Vec<Json>) -> (r: Vec<String>)
    ensures
        views(r@) == keys_of_items(items@),
{
    let mut out: Vec<String> = Vec::new();
    assert(views(out@) =~= Seq::<Seq<char>>::empty());
    let mut i: usize = 0;
    assert(items@.take(0) =~= Seq::<Json>::empty());
    while i < items.len()
        invariant
            i <= items@.len(),
            views(out@) == keys_of_items(items@.take(i as int)),
        decreases items@.len() - i,
    {
        collect_into(&items[i], &mut out);
        proof {
            let next = items@.take(i + 1);
            assert(next.drop_last() =~= items@.take(i as int));
            assert(next.last() == items@[i as int]);
        }
        i += 1;
    }
    assert(items@.take(items@.len() as int) =~= items@);
    out
}

/// The keys that the values of `members` refer to, in order.
pub fn keys_from_mapping(members: &Vec<(String, Json)>) -> (r: Vec<String>)
    ensures
        views(r@) == keys_of_members(members@),
{
    let mut out: Vec<String> = Vec::new();
    assert(views(out@) =~= Seq::<Seq<char>>::empty());
    let mut i: usize = 0;
    assert(members@.take(0) =~= Seq::<(String, Json)>::empty());
    while i < members.len()
        invariant
            i <= members@.len(),
            views(out@) == keys_of_members(members@.take(i as int)),
        decreases members@.len() - i,
    {
        collect_into(&members[i].1, &mut out);
        proof {
            let next = members@.take(i + 1);
            assert(next.drop_last() =~= members@.take(i as int));
            assert(next.last() == members@[i as int]);
        }
        i += 1;
    }
    assert(members@.take(members@.len() as int) =~= members@);
    out
}

/// The string `s` stands somewhere in `value`: it is the value itself, or it
/// stands in an element of the array or in a member's value of the object
/// that `value` is.
pub open spec fn occurs_in(value: Json, s: Seq<char>) -> bool
    decreases value,
{
    match value {
        Json::Text(t) => t@ == s,
        Json::Array(items) => occurs_in_items(items@, s),
        Json::Object(members) => occurs_in_members(members@, s),
        _ => false,
    }
}

/// The string `s` stands somewhere in one of `items`.
pub open spec fn occurs_in_items(items: Seq<Json>, s: Seq<char>) -> bool
    decreases items,
{
    items.len() > 0 && (occurs_in_items(items.drop_last(), s) || occurs_in(items.last(), s))
}

/// The string `s` stands somewhere in the value of one of `members`.
pub open spec fn occurs_in_members(members: Seq<(String, Json)>, s: Seq<char>) -> bool
    decreases members,
{
    members.len() > 0 && (occurs_in_members(members.drop_last(), s) || occurs_in(
        members.last().1,
        s,
    ))
}

/// Trimming white space from a string that begins with the sentinel leaves
/// the sentinel in front.
pub proof fn lemma_trimmed_reference(s: Seq<char>)
    requires
        is_key_reference(s),
    ensures
        is_key_reference(trim(s, CharClass::Space)),
{
    crate::text::lemma_skip_back(s, CharClass::Space, 0, s.len() as int);
}

/// The extractor returns nothing but key references, and misses none: every
/// key it returns begins with the sentinel and is the trimmed form of a
/// string that stands in the document and begins with the sentinel; and
/// every such string, at whatever depth, has its trimmed form returned.
pub proof fn lemma_extraction_exact(value: Json, k: Seq<char>)
    ensures
        keys_of(value).contains(k) <==> exists|s: Seq<char>|
            occurs_in(value, s) && is_key_reference(s) && k == trim(s, CharClass::Space),
        keys_of(value).contains(k) ==> is_key_reference(k),
    decreases value,
{
    match value {
        Json::Text(t) => {
            if is_key_reference(t@) {
                lemma_trimmed_reference(t@);
                assert(keys_of(value)[0] == trim(t@, CharClass::Space));
                if k == trim(t@, CharClass::Space) {
                    assert(occurs_in(value, t@));
                }
            }
        },
        Json::Array(items) => {
            lemma_extraction_exact_items(items@, k);
        },
        Json::Object(members) => {
            lemma_extraction_exact_members(members@, k);
        },
        _ => {},
    }
}

/// `lemma_extraction_exact` for the elements of an array.
pub proof fn lemma_extraction_exact_items(items: Seq<Json>, k: Seq<char>)
    ensures
        keys_of_items(items).contains(k) <==> exists|s: Seq<char>|
            occurs_in_items(items, s) && is_key_reference(s) && k == trim(s, CharClass::Space),
        keys_of_items(items).contains(k) ==> is_key_reference(k),
    decreases items,
{
    if items.len() > 0 {
        let front = keys_of_items(items.drop_last());
        let back = keys_of(items.last());
        lemma_extraction_exact_items(items.drop_last(), k);
        lemma_extraction_exact(items.last(), k);
        lemma_contains_concat(front, back, k);
        if front.contains(k) {
            let s = choose|s: Seq<char>|
                occurs_in_items(items.drop_last(), s) && is_key_reference(s) && k == trim(
                    s,
                    CharClass::Space,
                );
            assert(occurs_in_items(items, s));
        }
        if back.contains(k) {
            let s = choose|s: Seq<char>|
                occurs_in(items.last(), s) && is_key_reference(s) && k == trim(
                    s,
                    CharClass::Space,
                );
            assert(occurs_in_items(items, s));
        }
    }
}

/// `lemma_extraction_exact` for the members of an object.
pub proof fn lemma_extraction_exact_members(members: Seq<(String, Json)>, k: Seq<char>)
    ensures
        keys_of_members(members).contains(k) <==> exists|s: Seq<char>|
            occurs_in_members(members, s) && is_key_reference(s) && k == trim(
                s,
                CharClass::Space,
            ),
        keys_of_members(members).contains(k) ==> is_key_reference(k),
    decreases members,
{
    if members.len() > 0 {
        let front = keys_of_members(members.drop_last());
        let back = keys_of(members.last().1);
        lemma_extraction_exact_members(members.drop_last(), k);
        lemma_extraction_exact(members.last().1, k);
        lemma_contains_concat(front, back, k);
        if front.contains(k) {
            let s = choose|s: Seq<char>|
                occurs_in_members(members.drop_last(), s) && is_key_reference(s) && k == trim(
                    s,
                    CharClass::Space,
                );
            assert(occurs_in_members(members, s));
        }
        if back.contains(k) {
            let s = choose|s: Seq<char>|
                occurs_in(members.last().1, s) && is_key_reference(s) && k == trim(
                    s,
                    CharClass::Space,
                );
            assert(occurs_in_members(members, s));
        }
    }
}

/// A concatenation holds what its two parts hold.
pub proof fn lemma_contains_concat(a: Seq<Seq<char>>, b: Seq<Seq<char>>, k: Seq<char>)
    ensures
        (a + b).contains(k) <==> a.contains(k) || b.contains(k),
{
    if a.contains(k) {
        let i = choose|i: int| 0 <= i < a.len() && a[i] == k;
        assert((a + b)[i] == k);
    }
    if b.contains(k) {
        let i = choose|i: int| 0 <= i < b.len() && b[i] == k;
        assert((a + b)[a.len() + i] == k);
    }
    if (a + b).contains(k) {
        let i = choose|i: int| 0 <= i < (a + b).len() && (a + b)[i] == k;
        if i < a.len() {
            assert(a[i] == k);
        } else {
            assert(b[i - a.len()] == k);
        }
    }
}

} // verus!

//! File names: the extension of a name, and the language tag that the name
//! of a translation file carries.

use vstd::prelude::*;
use crate::order::{key_order, Order};
use crate::text::{chars_of, find_from, scan_for, slice_chars};

verus! {

/// A file found in a directory.
#[derive(Debug)]
pub struct FoundFile {
    /// The path of the file.
    pub path: String,
    /// The file name: the last component of the path.
    pub file_name: String,
}

/// The position of the last dot before position `j`, or `-1` when there is
/// none.
pub open spec fn last_dot(name: Seq<char>, j: int) -> int
    decreases j,
{
    if j <= 0 || j > name.len() {
        -1
    } else if name[j - 1] == '.' {
        j - 1
    } else {
        last_dot(name, j - 1)
    }
}

/// Whether the name parts into a stem and an extension: it has a dot that
/// is not its first character, and it is not the name `..`.
pub open spec fn has_parts(name: Seq<char>) -> bool {
    last_dot(name, name.len() as int) > 0 && name != ".."@
}

/// The extension of a file name: what follows its last dot, if the name
/// parts at all.
pub open spec fn extension_of(name: Seq<char>) -> Option<Seq<char>> {
    if has_parts(name) {
        Some(name.subrange(last_dot(name, name.len() as int) + 1, name.len() as int))
    } else {
        None
    }
}

/// The stem of a file name: what stands before its last dot, or the whole
/// name if the name does not part.
pub open spec fn stem_of(name: Seq<char>) -> Seq<char> {
    if has_parts(name) {
        name.subrange(0, last_dot(name, name.len() as int))
    } else {
        name
    }
}

/// The extension that translation files carry.
pub open spec fn text_extension() -> Seq<char> {
    "txt"@
}

/// The extension that JSON documents carry.
pub open spec fn json_extension() -> Seq<char> {
    "json"@
}

/// The language tag of a file named `name`. A translation file is named
/// `<anything>_<language>.txt`: the tag is what follows the first underscore
/// of the stem. A name with another extension, or without an underscore in
/// its stem, has no tag.
pub open spec fn tag_of(name: Seq<char>) -> Option<Seq<char>> {
    let s = stem_of(name);
    let u = find_from(s, '_', 0);
    if extension_of(name) == Some(text_extension()) && 0 <= u < s.len() {
        Some(s.subrange(u + 1, s.len() as int))
    } else {
        None
    }
}

/// What `last_dot` returns: a dot after which no dot follows before `j`.
pub proof fn lemma_last_dot(name: Seq<char>, j: int)
    requires
        0 <= j <= name.len(),
    ensures
        -1 <= last_dot(name, j) < j,
        last_dot(name, j) >= 0 ==> name[last_dot(name, j)] == '.',
        forall|k: int| last_dot(name, j) < k < j ==> name[k] != '.',
    decreases j,
{
    if j > 0 && name[j - 1] != '.' {
        lemma_last_dot(name, j - 1);
    }
}

/// Finds the last dot of `chars`; returns the length when there is none.
fn scan_last_dot(chars: &Vec<char>) -> (r: usize)
    ensures
        r <= chars@.len(),
        r < chars@.len() ==> r == last_dot(chars@, chars@.len() as int),
        r == chars@.len() ==> last_dot(chars@, chars@.len() as int) == -1,
{
    let n = chars.len();
    let mut j: usize = n;
    while j > 0 && chars[j - 1] != '.'
        invariant
            j <= n,
            n == chars@.len(),
            last_dot(chars@, n as int) == last_dot(chars@, j as int),
        decreases j,
    {
        j -= 1;
    }
    if j > 0 {
        j - 1
    } else {
        n
    }
}

/// Tells where the name parts into stem and extension: the position of the
/// dot between them, or `None` if the name does not part.
fn parting_dot(chars: &Vec<char>) -> (r: Option<usize>)
    ensures
        r is Some <==> has_parts(chars@),
        r is Some ==> r->Some_0 == last_dot(chars@, chars@.len() as int) && r->Some_0
            < chars@.len(),
{
    let n = chars.len();
    let d = scan_last_dot(chars);
    proof {
        reveal_strlit("..");
        lemma_last_dot(chars@, n as int);
    }
    if d == 0 || d >= n {
        return None;
    }
    if n == 2 && chars[0] == '.' && chars[1] == '.' {
        assert(chars@ =~= ".."@);
        return None;
    }
    assert(chars@ != ".."@) by {
        if chars@ == ".."@ {
            assert(chars@.len() == 2 && chars@[0] == '.' && chars@[1] == '.');
        }
    }
    Some(d)
}

/// The extension of a file name.
pub fn extension(name: &str) -> (r: Option<String>)
    ensures
        r is Some <==> extension_of(name@) is Some,
        r is Some ==> r->Some_0@ == extension_of(name@)->Some_0,
{
    let chars = chars_of(name);
    let n = chars.len();
    match parting_dot(&chars) {
        Some(d) => {
            assert(d < n);
            Some(name.substring_char(d + 1, n).to_owned())
        },
        None => None,
    }
}

/// Tells whether a file name carries the extension `wanted`.
pub fn has_extension(name: &str, wanted: &str) -> (r: bool)
    ensures
        r == (extension_of(name@) == Some(wanted@)),
{
    match extension(name) {
        Some(found) => key_order(found.as_str(), wanted) == Order::Equal,
        None => false,
    }
}

/// The language tag of a file named `name`.
pub fn language_tag(name: &str) -> (r: Option<String>)
    ensures
        r is Some <==> tag_of(name@) is Some,
        r is Some ==> r->Some_0@ == tag_of(name@)->Some_0,
{
    if !has_extension(name, "txt") {
        return None;
    }
    let chars = chars_of(name);
    match parting_dot(&chars) {
        Some(d) => {
            let stem = slice_chars(&chars, 0, d);
            let u = scan_for(&stem, '_', 0);
            if u < d {
                assert(stem@.subrange(u + 1, d as int) =~= name@.subrange(u + 1, d as int));
                Some(name.substring_char(u + 1, d).to_owned())
            } else {
                None
            }
        },
        None => None,
    }
}

} // verus!

//! Placeholder entries for missing keys, and the block of text in which
//! they are appended to a translation file.

use vstd::prelude::*;
use vstd::string::StringExecFns;
use crate::json::sentinel;
use crate::keys::views;
use crate::line::{line_end, tab};
use crate::text::{chars_of, find_from, scan_for};

verus! {

/// `s` without the first occurrence of `c`, or `s` itself when `c` does not
/// occur in it.
pub open spec fn without_first(s: Seq<char>, c: char) -> Seq<char> {
    let i = find_from(s, c, 0);
    if 0 <= i < s.len() {
        s.subrange(0, i) + s.subrange(i + 1, s.len() as int)
    } else {
        s
    }
}

/// The placeholder value for `key`: the words `translation for` and the key
/// without its sentinel.
pub open spec fn stub_value(key: Seq<char>) -> Seq<char> {
    "translation for "@ + without_first(key, sentinel())
}

/// The line that provides the placeholder for `key`.
pub open spec fn stub_line(key: Seq<char>) -> Seq<char> {
    key + seq![tab()] + stub_value(key)
}

/// The words that mark the beginning of a block of stubs.
pub open spec fn separator() -> Seq<char> {
    "---------- new translation stubs ----------"@
}

/// The separator line that opens a block of stubs. It begins with a line
/// end, so that the block never continues the last line of the file it is
/// appended to.
pub open spec fn stub_header() -> Seq<char> {
    line_end() + separator() + line_end()
}

/// The stub lines for `keys`, each after a line end.
pub open spec fn stub_lines(keys: Seq<Seq<char>>) -> Seq<char>
    decreases keys.len(),
{
    if keys.len() == 0 {
        Seq::empty()
    } else {
        stub_lines(keys.drop_last()) + line_end() + stub_line(keys.last())
    }
}

/// The block of text that adds stubs for `keys`: the separator, one stub
/// line for each key in the given order, and a closing line end.
pub open spec fn stub_block(keys: Seq<Seq<char>>) -> Seq<char> {
    stub_header() + stub_lines(keys) + line_end()
}

/// `key` without its first sentinel.
pub fn strip_sentinel(key: &str) -> (r: String)
    ensures
        r@ == without_first(key@, sentinel()),
{
    let chars = chars_of(key);
    let i = scan_for(&chars, '$', 0);
    if i < chars.len() {
        let mut out = key.substring_char(0, i).to_owned();
        out.append(key.substring_char(i + 1, chars.len()));
        out
    } else {
        key.to_owned()
    }
}

/// The block of text that adds stubs for `keys`.
pub fn stub_text(keys: &Vec<String>) -> (r: String)
    ensures
        r@ == stub_block(views(keys@)),
{
    let mut out = String::from_str("\r\n");
    out.append("---------- new translation stubs ----------");
    out.append("\r\n");
    let mut i: usize = 0;
    proof {
        reveal_strlit("\r\n");
        assert("\r\n"@ =~= line_end());
    }
    assert(views(keys@.take(0)) =~= Seq::<Seq<char>>::empty());
    assert(out@ =~= stub_header() + stub_lines(views(keys@.take(0))));
    while i < keys.len()
        invariant
            i <= keys@.len(),
            out@ == stub_header() + stub_lines(views(keys@.take(i as int))),
        decreases keys@.len() - i,
    {
        let ghost before = out@;
        let key = keys[i].as_str();
        let bare = strip_sentinel(key);
        out.append("\r\n");
        out.append(key);
        out.append("\ttranslation for ");
        out.append(bare.as_str());
        proof {
            reveal_strlit("\r\n");
            reveal_strlit("\ttranslation for ");
            reveal_strlit("translation for ");
            assert("\r\n"@ =~= line_end());
            assert("\ttranslation for "@ =~= seq![tab()] + "translation for "@);
            let next = views(keys@.take(i + 1));
            assert(next.drop_last() =~= views(keys@.take(i as int)));
            assert(next.last() == key@);
            assert(out@ =~= before + (line_end() + stub_line(key@)));
            assert(out@ =~= stub_header() + stub_lines(next));
        }
        i += 1;
    }
    assert(keys@.take(keys@.len() as int) =~= keys@);
    out.append("\r\n");
    proof {
        reveal_strlit("\r\n");
        assert("\r\n"@ =~= line_end());
    }
    out
}

} // verus!

//! How the reading of lines goes along with the way text is put together:
//! what a first line and a last line give, and what is read from text to
//! which a line end and more text have been appended.

use vstd::prelude::*;
use vstd::utf8::*;
use crate::encoding::{
    lemma_ascii_byte_appended, lemma_ascii_byte_occurs, lemma_encode_ascii, lemma_encode_concat,
};
use crate::line::{
    line_end, line_feed, normalize, parse_from, parse_line, parse_raw, parse_text, tab, LineView,
};
use crate::text::{
    find_from, lemma_find_from, lemma_find_from_is, lemma_find_from_skip, lemma_skip_back,
    lemma_skip_front, lemma_trim_appended_space, skip_front, trim, CharClass,
};

verus! {

/// The carriage return that goes before the line feed in a line end.
pub open spec fn carriage_return() -> u8 {
    0x0D
}

/// Reading from a position on is reading what is left of the text there.
pub proof fn lemma_parse_from_skip(bytes: Seq<u8>, i: int)
    requires
        0 <= i <= bytes.len(),
    ensures
        parse_from(bytes, i) == parse_text(bytes.skip(i)),
    decreases bytes.len() - i,
{
    let rest = bytes.skip(i);
    if i < bytes.len() {
        lemma_find_from(bytes, line_feed(), i);
        lemma_find_from_skip(bytes, line_feed(), i);
        let j = find_from(bytes, line_feed(), i);
        let k = find_from(rest, line_feed(), 0);
        assert(bytes.subrange(i, j) =~= rest.subrange(0, k));
        if j < bytes.len() {
            lemma_parse_from_skip(bytes, j + 1);
            lemma_parse_from_skip(rest, k + 1);
            assert(rest.skip(k + 1) =~= bytes.skip(j + 1));
        }
    }
}

/// A first line that holds no line feed is read on its own, and the text
/// after its line feed is read after it.
pub proof fn lemma_parse_first_line(line: Seq<u8>, rest: Seq<u8>)
    requires
        !line.contains(line_feed()),
    ensures
        parse_text(line + seq![line_feed()] + rest) == parse_raw(line) + parse_text(rest),
{
    let text = line + seq![line_feed()] + rest;
    let n = line.len() as int;
    assert forall|k: int| 0 <= k < n implies text[k] != line_feed() by {
        assert(text[k] == line[k]);
        assert(line.contains(line[k]));
    }
    assert(text[n] == line_feed());
    lemma_find_from_is(text, line_feed(), 0, n);
    assert(text.subrange(0, n) =~= line);
    lemma_parse_from_skip(text, n + 1);
    assert(text.skip(n + 1) =~= rest);
}

/// Text that holds no line feed is one line, or no line when it is empty.
pub proof fn lemma_parse_last_line(line: Seq<u8>)
    requires
        !line.contains(line_feed()),
    ensures
        parse_text(line) == if line.len() == 0 {
            Seq::<LineView>::empty()
        } else {
            parse_raw(line)
        },
{
    let n = line.len() as int;
    if n > 0 {
        assert forall|k: int| 0 <= k < n implies line[k] != line_feed() by {
            assert(line.contains(line[k]));
        }
        lemma_find_from_is(line, line_feed(), 0, n);
        assert(line.subrange(0, n) =~= line);
        assert(parse_raw(line) + Seq::<LineView>::empty() =~= parse_raw(line));
    }
}

/// A carriage return at the end of a raw line makes no difference to how
/// the line is read.
pub proof fn lemma_parse_line_with_return(s: Seq<char>)
    ensures
        parse_line(s + seq!['\r']) == parse_line(s),
{
    lemma_trim_appended_space(s, '\r');
}

/// A carriage return at the end of the bytes of a line makes no difference
/// to what the line gives.
pub proof fn lemma_parse_raw_with_return(line: Seq<u8>)
    ensures
        parse_raw(line + seq![carriage_return()]) == parse_raw(line),
{
    lemma_ascii_byte_appended(line, carriage_return());
    if valid_utf8(line) {
        lemma_parse_line_with_return(decode_utf8(line));
    }
}

/// The text ends in the middle of a line: it is not empty and does not end
/// with a line feed.
pub open spec fn ends_open(text: Seq<u8>) -> bool {
    text.len() > 0 && text.last() != line_feed()
}

/// The line that a line end adds to text which does not end in the middle
/// of a line: an empty line, passed through.
pub open spec fn closing_line(text: Seq<u8>) -> Seq<LineView> {
    if ends_open(text) {
        Seq::empty()
    } else {
        seq![LineView::Passthrough { text: Seq::empty() }]
    }
}

/// What is read from text to which a line end and more text are appended:
/// the lines of the text as they were, then an empty line unless the line
/// end only closes the last line, then the lines of what was appended.
pub proof fn lemma_parse_appended(text: Seq<u8>, more: Seq<u8>)
    ensures
        parse_text(text + seq![carriage_return(), line_feed()] + more) == parse_text(text)
            + closing_line(text) + parse_text(more),
    decreases text.len(),
{
    let end = seq![carriage_return(), line_feed()];
    let whole = text + end + more;
    lemma_find_from(text, line_feed(), 0);
    let j = find_from(text, line_feed(), 0);
    if j < text.len() {
        let line = text.subrange(0, j);
        let rest = text.skip(j + 1);
        assert(!line.contains(line_feed())) by {
            if line.contains(line_feed()) {
                let k = choose|k: int| 0 <= k < line.len() && line[k] == line_feed();
                assert(text[k] == line[k]);
            }
        }
        assert(text =~= line + seq![line_feed()] + rest);
        assert(whole =~= line + seq![line_feed()] + (rest + end + more));
        lemma_parse_first_line(line, rest);
        lemma_parse_first_line(line, rest + end + more);
        lemma_parse_appended(rest, more);
        assert(closing_line(rest) == closing_line(text)) by {
            if rest.len() > 0 {
                assert(rest.last() == text.last());
            }
        }
    } else {
        let line = text + seq![carriage_return()];
        assert(!text.contains(line_feed())) by {
            if text.contains(line_feed()) {
                let k = choose|k: int| 0 <= k < text.len() && text[k] == line_feed();
            }
        }
        assert(!line.contains(line_feed())) by {
            if line.contains(line_feed()) {
                let k = choose|k: int| 0 <= k < line.len() && line[k] == line_feed();
                if k < text.len() {
                    assert(text[k] == line[k]);
                }
            }
        }
        assert(whole =~= line + seq![line_feed()] + more);
        lemma_parse_first_line(line, more);
        lemma_parse_last_line(text);
        lemma_parse_raw_with_return(text);
        if text.len() == 0 {
            assert(valid_utf8(text));
            assert(decode_utf8(text) =~= Seq::<char>::empty());
            lemma_empty_line();
        } else {
            assert(text.last() != line_feed()) by {
                assert(text.contains(text.last()));
            }
        }
    }
}

/// What is read from text that ends with a line feed, or is empty, and has
/// more text after it: the lines of the text, then the lines of what comes
/// after.
pub proof fn lemma_parse_closed(text: Seq<u8>, more: Seq<u8>)
    requires
        !ends_open(text),
    ensures
        parse_text(text + more) == parse_text(text) + parse_text(more),
    decreases text.len(),
{
    if text.len() == 0 {
        assert(text + more =~= more);
        assert(parse_text(text) =~= Seq::<LineView>::empty());
        assert(parse_text(text) + parse_text(more) =~= parse_text(more));
    } else {
        lemma_find_from(text, line_feed(), 0);
        let j = find_from(text, line_feed(), 0);
        assert(j < text.len()) by {
            if j >= text.len() {
                assert(text[text.len() - 1] != line_feed());
            }
        }
        let line = text.subrange(0, j);
        let rest = text.skip(j + 1);
        assert(!line.contains(line_feed())) by {
            if line.contains(line_feed()) {
                let k = choose|k: int| 0 <= k < line.len() && line[k] == line_feed();
                assert(text[k] == line[k]);
            }
        }
        assert(text =~= line + seq![line_feed()] + rest);
        assert(text + more =~= line + seq![line_feed()] + (rest + more));
        lemma_parse_first_line(line, rest);
        lemma_parse_first_line(line, rest + more);
        assert(!ends_open(rest)) by {
            if rest.len() > 0 {
                assert(rest.last() == text.last());
            }
        }
        lemma_parse_closed(rest, more);
    }
}

/// An empty raw line is passed through as the empty line.
pub proof fn lemma_empty_line()
    ensures
        parse_line(Seq::<char>::empty()) == (LineView::Passthrough { text: Seq::empty() }),
{
    assert(normalize(Seq::<char>::empty()) =~= Seq::<char>::empty());
}

/// The bytes that encode the text `line` give the line that `parse_line`
/// reads from it.
pub proof fn lemma_parse_raw_encoded(line: Seq<char>)
    ensures
        parse_raw(encode_utf8(line)) == seq![parse_line(line)],
{
    encode_utf8_valid_utf8(line);
    encode_utf8_decode_utf8(line);
}

/// Encoded text without a line feed is read as one line, or as no line
/// when it is empty.
pub proof fn lemma_parse_encoded_line(line: Seq<char>)
    requires
        !line.contains('\n'),
    ensures
        parse_text(encode_utf8(line)) == if line.len() == 0 {
            Seq::<LineView>::empty()
        } else {
            seq![parse_line(line)]
        },
{
    lemma_ascii_byte_occurs(line, line_feed());
    lemma_parse_last_line(encode_utf8(line));
    lemma_parse_raw_encoded(line);
    crate::wide::lemma_chars_within_bytes(line);
}

/// A normalized line holds only characters of the raw line.
pub proof fn lemma_normalize_within(s: Seq<char>)
    ensures
        forall|x: char| normalize(s).contains(x) ==> s.contains(x),
{
    let space = CharClass::Space;
    let nul = CharClass::Nul;
    lemma_skip_front(s, space, 0);
    let a = skip_front(s, space, 0);
    lemma_skip_back(s, space, a, s.len() as int);
    let u = trim(s, space);
    lemma_skip_front(u, nul, 0);
    let c = skip_front(u, nul, 0);
    lemma_skip_back(u, nul, c, u.len() as int);
    let l = normalize(s);
    assert forall|x: char| l.contains(x) implies s.contains(x) by {
        let k = choose|k: int| 0 <= k < l.len() && l[k] == x;
        assert(l[k] == u[c + k]);
        assert(u[c + k] == s[a + c + k]);
    }
}

/// A raw line without a tab is passed through.
pub proof fn lemma_line_without_tab(s: Seq<char>)
    requires
        !s.contains(tab()),
    ensures
        parse_line(s) is Passthrough,
{
    let l = normalize(s);
    lemma_normalize_within(s);
    lemma_find_from(l, tab(), 0);
    let t = find_from(l, tab(), 0);
    if t < l.len() {
        assert(l.contains(l[t]));
    }
}

/// A line end is encoded as the bytes of the carriage return and the line
/// feed.
pub proof fn lemma_encode_line_end()
    ensures
        encode_utf8(line_end()) == seq![carriage_return(), line_feed()],
{
    assert(line_end() =~= seq!['\r'] + seq!['\n']);
    lemma_encode_concat(seq!['\r'], seq!['\n']);
    lemma_encode_ascii('\r');
    lemma_encode_ascii('\n');
    assert(encode_utf8(line_end()) =~= seq![carriage_return(), line_feed()]);
}

/// Encoded text to which a line end and an encoded line are appended.
pub proof fn lemma_encode_appended_line(text: Seq<char>, line: Seq<char>)
    ensures
        encode_utf8(text + line_end() + line) == encode_utf8(text) + seq![
            carriage_return(),
            line_feed(),
        ] + encode_utf8(line),
{
    lemma_encode_concat(text + line_end(), line);
    lemma_encode_concat(text, line_end());
    lemma_encode_line_end();
}

} // verus!

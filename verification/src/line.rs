//! The lines of a translation file: how decoded text is cut into lines, how
//! one line is read as a key with its value or passed through, and how
//! lines are written back as text.

use vstd::prelude::*;
use vstd::string::StringExecFns;
use vstd::utf8::*;
use crate::text::{
    chars_of, find_from, scan_back, scan_for, scan_front, slice_chars, trim, CharClass,
};

verus! {

/// One line of a translation file.
#[derive(Debug)]
pub enum Line {
    /// A content line, `KEY<TAB>VALUE`.
    Entry { key: String, value: String },
    /// Any other line: a comment, a separator, a blank line.
    Passthrough { text: String },
}

/// A line as character sequences.
pub enum LineView {
    /// A content line.
    Entry { key: Seq<char>, value: Seq<char> },
    /// Any other line.
    Passthrough { text: Seq<char> },
}

impl View for Line {
    type V = LineView;

    open spec fn view(&self) -> LineView {
        match *self {
            Line::Entry { key, value } => LineView::Entry { key: key@, value: value@ },
            Line::Passthrough { text } => LineView::Passthrough { text: text@ },
        }
    }
}

/// The character that marks a passed-through line as a comment.
pub open spec fn comment_mark() -> char {
    '-'
}

/// A line that looks like content and could not be read as an entry: it is
/// passed through, it is not empty, and it does not begin with the comment
/// mark. Such a line is worth a note to whoever maintains the file, and is
/// never an error.
pub open spec fn is_anomaly(line: LineView) -> bool {
    match line {
        LineView::Entry { key, value } => false,
        LineView::Passthrough { text } => text.len() > 0 && text[0] != comment_mark(),
    }
}

impl Line {
    /// Tells whether the line looks like content that could not be read as
    /// an entry.
    pub fn is_anomaly(&self) -> (r: bool)
        ensures
            r == is_anomaly(self@),
    {
        match self {
            Line::Entry { key, value } => false,
            Line::Passthrough { text } => !text.as_str().is_empty() && text.as_str().get_char(0)
                != '-',
        }
    }

    /// A copy of the line.
    pub fn duplicate(&self) -> (r: Line)
        ensures
            r@ == self@,
    {
        match self {
            Line::Entry { key, value } => Line::Entry { key: key.clone(), value: value.clone() },
            Line::Passthrough { text } => Line::Passthrough { text: text.clone() },
        }
    }
}

/// The lines of `lines` as character sequences, in the same order.
pub open spec fn line_views(lines: Seq<Line>) -> Seq<LineView> {
    lines.map_values(|l: Line| l@)
}

/// The tab that parts a key from its value.
pub open spec fn tab() -> char {
    '\t'
}

/// The byte that ends a line of decoded text.
pub open spec fn line_feed() -> u8 {
    0x0A
}

/// A raw line made ready for reading: white space is trimmed from both
/// ends, then NUL characters are.
pub open spec fn normalize(s: Seq<char>) -> Seq<char> {
    trim(trim(s, CharClass::Space), CharClass::Nul)
}

/// How one raw line is read. A normalized line of fewer than four
/// characters, or without a tab, is passed through; any other is an entry
/// whose key stands before the first tab and whose value stands after it.
pub open spec fn parse_line(s: Seq<char>) -> LineView {
    let l = normalize(s);
    let t = find_from(l, tab(), 0);
    if l.len() < 4 || t >= l.len() {
        LineView::Passthrough { text: l }
    } else {
        LineView::Entry { key: l.subrange(0, t), value: l.subrange(t + 1, l.len() as int) }
    }
}

/// What the bytes of one line give: the line as `parse_line` reads it, or
/// nothing when the bytes are not valid UTF-8.
pub open spec fn parse_raw(line: Seq<u8>) -> Seq<LineView> {
    if valid_utf8(line) {
        seq![parse_line(decode_utf8(line))]
    } else {
        Seq::empty()
    }
}

/// The lines that the decoded text holds from position `i` on. The text is
/// cut at every line feed; what follows the last line feed is a line too,
/// unless it is empty. A line that is not valid UTF-8 is dropped; every
/// other line is read by `parse_line`. A carriage return before the line
/// feed goes with the white space that `parse_line` trims.
pub open spec fn parse_from(bytes: Seq<u8>, i: int) -> Seq<LineView>
    decreases bytes.len() - i,
{
    if 0 <= i < bytes.len() {
        let j = find_from(bytes, line_feed(), i);
        let rest = if i <= j < bytes.len() {
            parse_from(bytes, j + 1)
        } else {
            Seq::empty()
        };
        parse_raw(bytes.subrange(i, j)) + rest
    } else {
        Seq::empty()
    }
}

/// The lines that the decoded text holds.
pub open spec fn parse_text(bytes: Seq<u8>) -> Seq<LineView> {
    parse_from(bytes, 0)
}

/// The text that a line is written as: key, tab and value for an entry, and
/// nothing for any other line.
pub open spec fn line_text(line: LineView) -> Seq<char> {
    match line {
        LineView::Entry { key, value } => key + seq![tab()] + value,
        LineView::Passthrough { text } => Seq::empty(),
    }
}

/// The end of a line in text that this library writes: carriage return and
/// line feed.
pub open spec fn line_end() -> Seq<char> {
    seq!['\r', '\n']
}

/// The text that `lines` are written as: the text of each line, with a line
/// end between one line and the next.
pub open spec fn lines_text(lines: Seq<LineView>) -> Seq<char>
    decreases lines.len(),
{
    if lines.len() == 0 {
        Seq::empty()
    } else if lines.len() == 1 {
        line_text(lines[0])
    } else {
        lines_text(lines.drop_last()) + line_end() + line_text(lines.last())
    }
}

/// `String::from_utf8`: the string that `bytes` encode, when they are valid
/// UTF-8, and `None` when they are not.
#[verifier::external_body]
fn string_from_utf8(bytes: Vec<u8>) -> (r: Option<String>)
    ensures
        r is Some <==> valid_utf8(bytes@),
        r is Some ==> r->Some_0@ == decode_utf8(bytes@),
{
    String::from_utf8(bytes).ok()
}

/// Reads one raw line.
pub fn read_line(s: &str) -> (r: Line)
    ensures
        r@ == parse_line(s@),
{
    let chars = chars_of(s);
    let a = scan_front(&chars, CharClass::Space, 0);
    let b = scan_back(&chars, CharClass::Space, a, chars.len());
    let spaced = slice_chars(&chars, a, b);
    let c = scan_front(&spaced, CharClass::Nul, 0);
    let d = scan_back(&spaced, CharClass::Nul, c, spaced.len());
    let clean = slice_chars(&spaced, c, d);
    let t = scan_for(&clean, '\t', 0);
    proof {
        assert(clean@ == normalize(s@));
        assert(clean@ =~= s@.subrange(a + c, a + d));
    }
    if clean.len() < 4 || t >= clean.len() {
        Line::Passthrough { text: s.substring_char(a + c, a + d).to_owned() }
    } else {
        proof {
            assert(clean@.subrange(0, t as int) =~= s@.subrange(a + c, a + c + t));
            assert(clean@.subrange(t + 1, clean@.len() as int) =~= s@.subrange(
                a + c + t + 1,
                a + d,
            ));
        }
        Line::Entry {
            key: s.substring_char(a + c, a + c + t).to_owned(),
            value: s.substring_char(a + c + t + 1, a + d).to_owned(),
        }
    }
}

/// Finds the first line feed at or after `i`; returns the length when there
/// is none.
fn scan_for_feed(bytes: &Vec<u8>, i: usize) -> (r: usize)
    requires
        i <= bytes@.len(),
    ensures
        r == find_from(bytes@, line_feed(), i as int),
        i <= r <= bytes@.len(),
{
    let mut k: usize = i;
    while k < bytes.len() && bytes[k] != 0x0A
        invariant
            i <= k <= bytes@.len(),
            find_from(bytes@, line_feed(), i as int) == find_from(bytes@, line_feed(), k as int),
        decreases bytes@.len() - k,
    {
        k += 1;
    }
    k
}

/// A copy of the bytes of `bytes` from `from` up to `to`.
fn slice_bytes(bytes: &Vec<u8>, from: usize, to: usize) -> (r: Vec<u8>)
    requires
        from <= to <= bytes@.len(),
    ensures
        r@ == bytes@.subrange(from as int, to as int),
{
    let mut out: Vec<u8> = Vec::new();
    let mut k: usize = from;
    while k < to
        invariant
            from <= k <= to <= bytes@.len(),
            out@ == bytes@.subrange(from as int, k as int),
        decreases to - k,
    {
        out.push(bytes[k]);
        k += 1;
    }
    out
}

/// Reads the lines of decoded text.
pub fn read_lines(text: &Vec<u8>) -> (r: Vec<Line>)
    ensures
        line_views(r@) == parse_text(text@),
{
    let mut out: Vec<Line> = Vec::new();
    let mut i: usize = 0;
    assert(line_views(out@) =~= Seq::<LineView>::empty());
    while i < text.len()
        invariant
            i <= text@.len(),
            line_views(out@) + parse_from(text@, i as int) == parse_text(text@),
        decreases text@.len() - i,
    {
        let j = scan_for_feed(text, i);
        let raw = slice_bytes(text, i, j);
        let ghost before = line_views(out@);
        let ghost rest = if j < text@.len() {
            parse_from(text@, j + 1)
        } else {
            Seq::<LineView>::empty()
        };
        match string_from_utf8(raw) {
            Some(s) => {
                let line = read_line(s.as_str());
                out.push(line);
                proof {
                    assert(line_views(out@) =~= before.push(parse_line(s@)));
                    assert(before.push(parse_line(s@)) + rest =~= before + (seq![parse_line(s@)]
                        + rest));
                }
            },
            None => {
                assert(before + rest =~= before + (Seq::<LineView>::empty() + rest));
            },
        }
        i = if j < text.len() {
            j + 1
        } else {
            j
        };
    }
    assert(line_views(out@) + Seq::<LineView>::empty() =~= line_views(out@));
    out
}

/// The text that one line is written as.
pub fn write_line(line: &Line) -> (r: String)
    ensures
        r@ == line_text(line@),
{
    match line {
        Line::Entry { key, value } => {
            let mut out = key.clone();
            out.append("\t");
            out.append(value.as_str());
            proof {
                reveal_strlit("\t");
                assert("\t"@ =~= seq![tab()]);
            }
            out
        },
        Line::Passthrough { text } => String::new(),
    }
}

/// The text that `lines` are written as.
pub fn write_lines(lines: &Vec<Line>) -> (r: String)
    ensures
        r@ == lines_text(line_views(lines@)),
{
    let mut out = String::new();
    let mut i: usize = 0;
    assert(line_views(lines@.take(0)) =~= Seq::<LineView>::empty());
    while i < lines.len()
        invariant
            i <= lines@.len(),
            out@ == lines_text(line_views(lines@.take(i as int))),
        decreases lines@.len() - i,
    {
        if i > 0 {
            out.append("\r\n");
        }
        let piece = write_line(&lines[i]);
        out.append(piece.as_str());
        proof {
            reveal_strlit("\r\n");
            assert("\r\n"@ =~= line_end());
            let next = line_views(lines@.take(i + 1));
            assert(next.drop_last() =~= line_views(lines@.take(i as int)));
            assert(next.last() == lines@[i as int]@);
            if i == 0 {
                assert(out@ =~= line_text(next[0]));
            }
        }
        i += 1;
    }
    assert(lines@.take(lines@.len() as int) =~= lines@);
    out
}

} // verus!

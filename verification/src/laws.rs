//! What holds of translation files as a whole: what an empty file and a
//! file of odd length give, that appended stubs add to what a file provides
//! and leave the rest alone, and that lines written out are read back to
//! the same mapping.

use vstd::prelude::*;
use vstd::utf8::*;
use crate::encoding::{
    lemma_le_units_concat, lemma_text_decodes_to_itself, lemma_units_read_back,
    lemma_units_utf8_concat,
};
use crate::line::{
    line_end, line_feed, line_text, lines_text, normalize, parse_from, parse_line, parse_raw,
    parse_text, tab, LineView,
};
use crate::line_laws::{
    carriage_return, closing_line, ends_open, lemma_encode_appended_line, lemma_line_without_tab,
    lemma_normalize_within, lemma_parse_appended, lemma_parse_closed, lemma_parse_encoded_line,
};
use crate::stub::{
    separator, stub_block, stub_header, stub_line, stub_lines, stub_value, without_first,
};
use crate::text::{
    find_from, is_space, lemma_find_from, lemma_find_from_is, lemma_skip_back,
    lemma_skip_front_is_zero, lemma_trim_dropped_spaces, lemma_trim_ends, lemma_trim_fixed,
    lemma_trim_within, skip_back, trim, CharClass,
};
use crate::translation::{mapping_of, provided_keys, read_bytes};
use crate::wide::{is_bmp, le_units, units_of_text, units_utf8, wide_bytes, EncodingError};

verus! {

/// An empty file is read without error and provides nothing.
pub proof fn lemma_empty_file_provides_nothing()
    ensures
        read_bytes(Seq::<u8>::empty()) == Ok::<Seq<LineView>, EncodingError>(Seq::empty()),
        provided_keys(Seq::<LineView>::empty()) == Seq::<Seq<char>>::empty(),
        mapping_of(Seq::<LineView>::empty()) == Map::<Seq<char>, Seq<char>>::empty(),
{
}

/// A file with an odd number of bytes is not read: it fails as not being
/// wide-character text.
pub proof fn lemma_odd_file_is_not_wide(bytes: Seq<u8>)
    requires
        bytes.len() % 2 != 0,
    ensures
        read_bytes(bytes) == Err::<Seq<LineView>, EncodingError>(EncodingError::NotWide),
{
}

/// What an entry adds to a mapping, and that any other line adds nothing.
pub open spec fn with_line(m: Map<Seq<char>, Seq<char>>, line: LineView) -> Map<
    Seq<char>,
    Seq<char>,
> {
    match line {
        LineView::Entry { key, value } => m.insert(
            trim(key, CharClass::Space),
            trim(value, CharClass::Space),
        ),
        LineView::Passthrough { text } => m,
    }
}

/// The mapping after one more line.
pub proof fn lemma_mapping_push(lines: Seq<LineView>, line: LineView)
    ensures
        mapping_of(lines.push(line)) == with_line(mapping_of(lines), line),
{
    assert(lines.push(line).drop_last() =~= lines);
}

/// The mapping of lines put after other lines: the later lines count where
/// both give a key.
pub proof fn lemma_mapping_concat(a: Seq<LineView>, b: Seq<LineView>)
    ensures
        mapping_of(a + b) == mapping_of(a).union_prefer_right(mapping_of(b)),
    decreases b.len(),
{
    if b.len() == 0 {
        assert(a + b =~= a);
        assert(mapping_of(a).union_prefer_right(mapping_of(b)) =~= mapping_of(a));
    } else {
        lemma_mapping_concat(a, b.drop_last());
        assert((a + b).drop_last() =~= a + b.drop_last());
        assert((a + b).last() == b.last());
        assert(mapping_of(a + b) =~= mapping_of(a).union_prefer_right(mapping_of(b)));
    }
}

/// The provided keys are the keys of the mapping, each once.
pub proof fn lemma_provided_keys(lines: Seq<LineView>)
    ensures
        provided_keys(lines).no_duplicates(),
        provided_keys(lines).to_set() == mapping_of(lines).dom(),
    decreases lines.len(),
{
    if lines.len() == 0 {
        assert(provided_keys(lines).to_set() =~= mapping_of(lines).dom());
    } else {
        let front = lines.drop_last();
        lemma_provided_keys(front);
        let before = provided_keys(front);
        match lines.last() {
            LineView::Entry { key, value } => {
                let k = trim(key, CharClass::Space);
                if !before.contains(k) {
                    before.lemma_push_to_set_commute(k);
                }
                assert(provided_keys(lines).to_set() =~= mapping_of(lines).dom());
            },
            LineView::Passthrough { text } => {},
        }
    }
}

/// The words that every placeholder begins with hold no tab, no line feed
/// and no NUL, and end with `for` and a space.
pub proof fn lemma_placeholder_words()
    ensures
        "translation for "@.len() == 16,
        "translation for "@[14] == 'r',
        !"translation for "@.contains('\t'),
        !"translation for "@.contains('\n'),
        !"translation for "@.contains('\0'),
{
    let w = "translation for "@;
    reveal_strlit("translation for ");
    assert(find_from(w, '\t', 0) == 16 && find_from(w, '\n', 0) == 16 && find_from(w, '\0', 0)
        == 16) by {
        reveal_with_fuel(find_from, 20);
    }
    lemma_find_from(w, '\t', 0);
    lemma_find_from(w, '\n', 0);
    lemma_find_from(w, '\0', 0);
}

/// The separator of a stub block holds no tab and no line feed.
pub proof fn lemma_separator_words()
    ensures
        separator().len() == 43,
        !separator().contains('\t'),
        !separator().contains('\n'),
{
    let w = separator();
    reveal_strlit("---------- new translation stubs ----------");
    assert(find_from(w, '\t', 0) == 43 && find_from(w, '\n', 0) == 43) by {
        reveal_with_fuel(find_from, 50);
    }
    lemma_find_from(w, '\t', 0);
    lemma_find_from(w, '\n', 0);
}

/// A key for which a stub line can be written and read back: it is not
/// empty, neither begins nor ends with white space, and holds no NUL, no
/// tab and no line feed.
pub open spec fn is_stub_key(key: Seq<char>) -> bool {
    &&& key.len() > 0
    &&& !is_space(key.first())
    &&& !is_space(key.last())
    &&& !key.contains('\0')
    &&& !key.contains('\t')
    &&& !key.contains('\n')
}

/// The mapping `m` with a placeholder for each key of `keys`.
pub open spec fn with_stubs(m: Map<Seq<char>, Seq<char>>, keys: Seq<Seq<char>>) -> Map<
    Seq<char>,
    Seq<char>,
>
    decreases keys.len(),
{
    if keys.len() == 0 {
        m
    } else {
        with_stubs(m, keys.drop_last()).insert(
            keys.last(),
            trim(stub_value(keys.last()), CharClass::Space),
        )
    }
}

/// What `with_stubs` gives: the keys of `m` and those of `keys`, the
/// placeholder for each key of `keys`, and for every other key the value
/// that `m` has.
pub proof fn lemma_with_stubs(m: Map<Seq<char>, Seq<char>>, keys: Seq<Seq<char>>)
    ensures
        forall|k: Seq<char>| #[trigger]
            with_stubs(m, keys).contains_key(k) <==> m.contains_key(k) || keys.contains(k),
        forall|k: Seq<char>|
            keys.contains(k) ==> #[trigger] with_stubs(m, keys)[k] == trim(
                stub_value(k),
                CharClass::Space,
            ),
        forall|k: Seq<char>|
            m.contains_key(k) && !keys.contains(k) ==> #[trigger] with_stubs(m, keys)[k] == m[k],
    decreases keys.len(),
{
    if keys.len() > 0 {
        let front = keys.drop_last();
        let last = keys.last();
        let inner = with_stubs(m, front);
        let outer = with_stubs(m, keys);
        lemma_with_stubs(m, front);
        assert(outer == inner.insert(last, trim(stub_value(last), CharClass::Space)));
        assert forall|k: Seq<char>| keys.contains(k) <==> front.contains(k) || k == last by {
            if front.contains(k) {
                let i = choose|i: int| 0 <= i < front.len() && front[i] == k;
                assert(keys[i] == k);
            }
            if keys.contains(k) {
                let i = choose|i: int| 0 <= i < keys.len() && keys[i] == k;
                if i < front.len() {
                    assert(front[i] == k);
                }
            }
            assert(keys[keys.len() - 1] == last);
        }
        assert forall|k: Seq<char>| #[trigger]
            outer.contains_key(k) <==> m.contains_key(k) || keys.contains(k) by {
            assert(inner.contains_key(k) <==> m.contains_key(k) || front.contains(k));
        }
        assert forall|k: Seq<char>| keys.contains(k) implies #[trigger] outer[k] == trim(
            stub_value(k),
            CharClass::Space,
        ) by {
            if k != last {
                assert(front.contains(k));
                assert(inner[k] == trim(stub_value(k), CharClass::Space));
            }
        }
        assert forall|k: Seq<char>| m.contains_key(k) && !keys.contains(k) implies #[trigger] outer[k]
            == m[k] by {
            assert(!front.contains(k));
            assert(inner[k] == m[k]);
        }
    }
}

/// What is left of a sequence when one character is taken out holds only
/// characters of the sequence.
pub proof fn lemma_without_first_within(s: Seq<char>, c: char, x: char)
    requires
        without_first(s, c).contains(x),
    ensures
        s.contains(x),
{
    let r = without_first(s, c);
    let i = find_from(s, c, 0);
    lemma_find_from(s, c, 0);
    let k = choose|k: int| 0 <= k < r.len() && r[k] == x;
    if i < s.len() {
        if k < i {
            assert(s[k] == x);
        } else {
            assert(s[k + 1] == x);
        }
    } else {
        assert(s[k] == x);
    }
}

/// How the stub line for a key is read: as an entry under that very key,
/// whose value trims to what the placeholder trims to.
pub proof fn lemma_stub_line_read(key: Seq<char>)
    requires
        is_stub_key(key),
    ensures
        !stub_line(key).contains('\n'),
        stub_line(key).len() > 0,
        parse_line(stub_line(key)) is Entry,
        parse_line(stub_line(key))->key == key,
        trim(parse_line(stub_line(key))->value, CharClass::Space) == trim(
            stub_value(key),
            CharClass::Space,
        ),
        trim(key, CharClass::Space) == key,
{
    let space = CharClass::Space;
    let nul = CharClass::Nul;
    let words = "translation for "@;
    let bare = without_first(key, crate::json::sentinel());
    let value = stub_value(key);
    let line = stub_line(key);
    let n = key.len() as int;
    lemma_placeholder_words();
    assert(line =~= key + seq![tab()] + words + bare);
    assert forall|x: char| bare.contains(x) implies key.contains(x) by {
        lemma_without_first_within(key, crate::json::sentinel(), x);
    }
    assert forall|k: int| 0 <= k < line.len() implies line[k] != '\n' && line[k] != '\0' by {
        if k < n {
            assert(key.contains(key[k]));
        } else if k == n {
        } else if k < n + 17 {
            assert(words.contains(words[k - n - 1]));
        } else {
            assert(bare.contains(bare[k - n - 17]));
        }
    }
    assert(!line.contains('\n'));
    assert(line[0] == key[0]);
    lemma_skip_front_is_zero(line, space);
    lemma_skip_back(line, space, 0, line.len() as int);
    let b = skip_back(line, space, 0, line.len() as int);
    assert(line[n + 15] == words[14]);
    assert(b >= n + 16) by {
        if b <= n + 15 {
            assert(space.has(line[n + 15]));
        }
    }
    let spaced = trim(line, space);
    assert(spaced =~= line.subrange(0, b));
    assert(spaced.first() == line[0] && spaced.last() == line[b - 1]);
    lemma_trim_fixed(spaced, nul);
    let clean = normalize(line);
    assert(clean == spaced);
    assert forall|k: int| 0 <= k < n implies clean[k] != tab() by {
        assert(clean[k] == key[k]);
        assert(key.contains(key[k]));
    }
    assert(clean[n] == tab());
    lemma_find_from_is(clean, tab(), 0, n);
    assert(clean.subrange(0, n) =~= key);
    assert(line.skip(n + 1) =~= value);
    assert(clean.subrange(n + 1, clean.len() as int) =~= value.subrange(0, b - n - 1));
    assert forall|k: int| b - n - 1 <= k < value.len() implies is_space(#[trigger] value[k]) by {
        assert(value[k] == line[k + n + 1]);
    }
    lemma_trim_dropped_spaces(value, b - n - 1);
    lemma_trim_fixed(key, space);
}

/// The lines that closing a line adds make no difference to the mapping.
pub proof fn lemma_mapping_closing(lines: Seq<LineView>, text: Seq<u8>)
    ensures
        mapping_of(lines + closing_line(text)) == mapping_of(lines),
{
    let extra = closing_line(text);
    if extra.len() == 0 {
        assert(lines + extra =~= lines);
    } else {
        assert(lines + extra =~= lines.push(extra[0]));
        lemma_mapping_push(lines, extra[0]);
    }
}

/// Decoded text with the beginning of a stub block after it: the separator
/// line and the stub lines for `keys`, without the line end that closes the
/// block.
pub open spec fn stubbed(text: Seq<u8>, keys: Seq<Seq<char>>) -> Seq<u8> {
    text + encode_utf8(stub_header() + stub_lines(keys))
}

/// What is read from decoded text with the beginning of a stub block after
/// it: the lines that were there, as they were, and then lines that add a
/// placeholder for each key of the block.
pub proof fn lemma_stubbed_read(text: Seq<u8>, keys: Seq<Seq<char>>)
    requires
        forall|i: int| 0 <= i < keys.len() ==> is_stub_key(#[trigger] keys[i]),
    ensures
        parse_text(text).is_prefix_of(parse_text(stubbed(text, keys))),
        mapping_of(parse_text(stubbed(text, keys))) == with_stubs(mapping_of(parse_text(text)), keys),
    decreases keys.len(),
{
    let feed = seq![carriage_return(), line_feed()];
    let nothing = Seq::<char>::empty();
    if keys.len() == 0 {
        lemma_separator_words();
        let opened = text + feed + encode_utf8(separator());
        assert(stub_header() + stub_lines(keys) =~= nothing + line_end() + separator()
            + line_end() + nothing);
        lemma_encode_appended_line(nothing + line_end() + separator(), nothing);
        lemma_encode_appended_line(nothing, separator());
        assert(encode_utf8(nothing) =~= Seq::<u8>::empty());
        assert(stubbed(text, keys) =~= opened + feed + Seq::<u8>::empty());
        lemma_parse_appended(text, encode_utf8(separator()));
        lemma_parse_encoded_line(separator());
        lemma_parse_appended(opened, Seq::<u8>::empty());
        lemma_line_without_tab(separator());
        let first = parse_text(text) + closing_line(text);
        let second = first + seq![parse_line(separator())];
        assert(second =~= first.push(parse_line(separator())));
        assert(parse_text(Seq::<u8>::empty()) =~= Seq::<LineView>::empty());
        assert(parse_text(stubbed(text, keys)) =~= second + closing_line(opened));
        lemma_mapping_closing(parse_text(text), text);
        lemma_mapping_push(first, parse_line(separator()));
        lemma_mapping_closing(second, opened);
    } else {
        let front = keys.drop_last();
        let key = keys.last();
        assert(is_stub_key(key));
        assert forall|i: int| 0 <= i < front.len() implies is_stub_key(#[trigger] front[i]) by {
            assert(front[i] == keys[i]);
        }
        lemma_stubbed_read(text, front);
        lemma_stub_line_read(key);
        let before = stubbed(text, front);
        assert(stub_header() + stub_lines(keys) =~= (stub_header() + stub_lines(front))
            + line_end() + stub_line(key));
        lemma_encode_appended_line(stub_header() + stub_lines(front), stub_line(key));
        assert(stubbed(text, keys) =~= before + feed + encode_utf8(stub_line(key)));
        lemma_parse_appended(before, encode_utf8(stub_line(key)));
        lemma_parse_encoded_line(stub_line(key));
        let first = parse_text(before) + closing_line(before);
        let line = parse_line(stub_line(key));
        assert(parse_text(stubbed(text, keys)) =~= first.push(line));
        lemma_mapping_closing(parse_text(before), before);
        lemma_mapping_push(first, line);
    }
}

/// What is read from decoded text with a whole stub block after it.
pub proof fn lemma_stub_block_read(text: Seq<u8>, keys: Seq<Seq<char>>)
    requires
        forall|i: int| 0 <= i < keys.len() ==> is_stub_key(#[trigger] keys[i]),
    ensures
        parse_text(text).is_prefix_of(parse_text(text + encode_utf8(stub_block(keys)))),
        mapping_of(parse_text(text + encode_utf8(stub_block(keys)))) == with_stubs(
            mapping_of(parse_text(text)),
            keys,
        ),
{
    let feed = seq![carriage_return(), line_feed()];
    let nothing = Seq::<char>::empty();
    let before = stubbed(text, keys);
    lemma_stubbed_read(text, keys);
    assert(stub_block(keys) =~= (stub_header() + stub_lines(keys)) + line_end() + nothing);
    lemma_encode_appended_line(stub_header() + stub_lines(keys), nothing);
    assert(encode_utf8(nothing) =~= Seq::<u8>::empty());
    assert(text + encode_utf8(stub_block(keys)) =~= before + feed + Seq::<u8>::empty());
    lemma_parse_appended(before, Seq::<u8>::empty());
    assert(parse_text(Seq::<u8>::empty()) =~= Seq::<LineView>::empty());
    assert(parse_text(text + encode_utf8(stub_block(keys))) =~= parse_text(before) + closing_line(
        before,
    ));
    lemma_mapping_closing(parse_text(before), before);
}

/// Appending stubs to a file adds to what the file provides and leaves the
/// rest alone. Take a file that can be read, keys for which stub lines can
/// be written, and the file with the stub block for these keys appended,
/// which can be read too. Then the lines of the first file are the first
/// lines of the second, as they were; the second file provides the keys of
/// the first and the keys of the block, and no others; each key of the block
/// has its placeholder as value; and every other key has the value that it
/// had.
pub proof fn lemma_stubs_extend_file(bytes: Seq<u8>, keys: Seq<Seq<char>>)
    requires
        read_bytes(bytes) is Ok,
        forall|i: int| 0 <= i < keys.len() ==> is_stub_key(#[trigger] keys[i]),
        is_bmp(stub_block(keys)),
        read_bytes(bytes + wide_bytes(stub_block(keys))) is Ok,
    ensures
        ({
            let before = read_bytes(bytes)->Ok_0;
            let after = read_bytes(bytes + wide_bytes(stub_block(keys)))->Ok_0;
            &&& before.is_prefix_of(after)
            &&& mapping_of(after) == with_stubs(mapping_of(before), keys)
            &&& forall|k: Seq<char>| #[trigger]
                mapping_of(after).contains_key(k) <==> mapping_of(before).contains_key(k)
                    || keys.contains(k)
            &&& forall|k: Seq<char>|
                keys.contains(k) ==> #[trigger] mapping_of(after)[k] == trim(
                    stub_value(k),
                    CharClass::Space,
                )
            &&& forall|k: Seq<char>|
                mapping_of(before).contains_key(k) && !keys.contains(k) ==> #[trigger] mapping_of(
                    after,
                )[k] == mapping_of(before)[k]
        }),
{
    let block = stub_block(keys);
    let text = units_utf8(le_units(bytes));
    assert(block.len() > 0) by {
        assert(block =~= line_end() + (separator() + line_end() + stub_lines(keys) + line_end()));
    }
    lemma_decoded_with_text(bytes, block);
    lemma_stub_block_read(text, keys);
    lemma_with_stubs(mapping_of(parse_text(text)), keys);
}

/// What a file decodes to when text is appended to it as wide characters:
/// what it decoded to before, and then the UTF-8 encoding of the text.
pub proof fn lemma_decoded_with_text(bytes: Seq<u8>, text: Seq<char>)
    requires
        read_bytes(bytes) is Ok,
        is_bmp(text),
        text.len() > 0,
        read_bytes(bytes + wide_bytes(text)) is Ok,
    ensures
        read_bytes(bytes)->Ok_0 == parse_text(units_utf8(le_units(bytes))),
        read_bytes(bytes + wide_bytes(text))->Ok_0 == parse_text(
            units_utf8(le_units(bytes)) + encode_utf8(text),
        ),
{
    let added = wide_bytes(text);
    let whole = bytes + added;
    lemma_units_read_back(units_of_text(text));
    lemma_le_units_concat(bytes, added);
    lemma_units_utf8_concat(le_units(bytes), units_of_text(text));
    lemma_text_decodes_to_itself(text);
    assert(whole.len() == bytes.len() + 2 * text.len());
    if bytes.len() == 0 {
        assert(le_units(bytes) =~= Seq::<u16>::empty());
        assert(parse_text(units_utf8(le_units(bytes))) =~= Seq::<LineView>::empty());
    }
}

/// A file with text appended to it can be read if the file can and the
/// text takes no more than two bytes a character in UTF-8, as all text
/// does in which characters of three bytes are no more than those of one.
pub proof fn lemma_appended_text_fits(bytes: Seq<u8>, text: Seq<char>)
    requires
        read_bytes(bytes) is Ok,
        is_bmp(text),
        encode_utf8(text).len() <= 2 * text.len(),
    ensures
        read_bytes(bytes + wide_bytes(text)) is Ok,
{
    let added = wide_bytes(text);
    let whole = bytes + added;
    lemma_units_read_back(units_of_text(text));
    lemma_le_units_concat(bytes, added);
    lemma_units_utf8_concat(le_units(bytes), units_of_text(text));
    lemma_text_decodes_to_itself(text);
    assert(whole.len() == bytes.len() + 2 * text.len());
    if bytes.len() == 0 {
        assert(le_units(bytes) =~= Seq::<u16>::empty());
    }
}

/// A line that is read back as itself from the text it is written as. Any
/// line but an entry is: it is written as an empty line and provides
/// nothing either way.
pub open spec fn reads_back(line: LineView) -> bool {
    match line {
        LineView::Entry { key, value } => parse_line(line_text(line)) == line,
        LineView::Passthrough { text } => true,
    }
}

/// A line that is written and read back as itself: it reads back, and the
/// text it is written as holds no line feed.
pub open spec fn is_settled(line: LineView) -> bool {
    reads_back(line) && !line_text(line).contains('\n')
}

/// A line that can be written: its text holds no line feed, and no
/// character that a single code unit cannot stand for.
pub open spec fn is_writable(line: LineView) -> bool {
    is_bmp(line_text(line)) && !line_text(line).contains('\n')
}

/// Every line read from a raw line without NUL and without line feed is
/// settled.
pub proof fn lemma_read_line_settled(s: Seq<char>)
    requires
        !s.contains('\0'),
        !s.contains('\n'),
    ensures
        is_settled(parse_line(s)),
{
    let space = CharClass::Space;
    let nul = CharClass::Nul;
    let l = normalize(s);
    lemma_normalize_within(s);
    let line = parse_line(s);
    if line is Entry {
        let t = find_from(l, tab(), 0);
        lemma_find_from(l, tab(), 0);
        assert(line_text(line) =~= l);
        assert(!l.contains('\n'));
        assert(!l.contains('\0'));
        let u = trim(s, space);
        lemma_trim_ends(s, space);
        lemma_trim_within(s, space);
        assert(!u.contains('\0'));
        assert(u.len() > 0 ==> u.contains(u.first()) && u.contains(u.last()));
        lemma_trim_fixed(u, nul);
        assert(l == u);
        lemma_trim_fixed(l, space);
        assert(l.contains(l.first()) && l.contains(l.last()));
        lemma_trim_fixed(l, nul);
        assert(normalize(l) == l);
    }
}

/// What is read from the text that settled lines are written as gives the
/// same mapping as the lines.
pub proof fn lemma_written_lines_read(lines: Seq<LineView>)
    requires
        forall|i: int| 0 <= i < lines.len() ==> is_settled(#[trigger] lines[i]),
    ensures
        mapping_of(parse_text(encode_utf8(lines_text(lines)))) == mapping_of(lines),
    decreases lines.len(),
{
    let nothing = Seq::<char>::empty();
    if lines.len() == 0 {
        assert(encode_utf8(nothing) =~= Seq::<u8>::empty());
        assert(parse_text(Seq::<u8>::empty()) =~= Seq::<LineView>::empty());
    } else {
        let last = lines.last();
        let front = lines.drop_last();
        assert(is_settled(last));
        assert(lines =~= front.push(last));
        lemma_mapping_push(front, last);
        let written = line_text(last);
        assert(!written.contains('\n'));
        lemma_parse_encoded_line(written);
        let tail = parse_text(encode_utf8(written));
        assert(mapping_of(Seq::<LineView>::empty()) =~= Map::<Seq<char>, Seq<char>>::empty());
        if last is Entry {
            assert(written[last->key.len() as int] == tab());
            assert(tail =~= Seq::<LineView>::empty().push(last));
        } else {
            assert(tail =~= Seq::<LineView>::empty());
        }
        if lines.len() == 1 {
            assert(front =~= Seq::<LineView>::empty());
            if last is Entry {
                lemma_mapping_push(Seq::<LineView>::empty(), last);
            }
        } else {
            assert forall|i: int| 0 <= i < front.len() implies is_settled(
                #[trigger] front[i],
            ) by {
                assert(front[i] == lines[i]);
            }
            lemma_written_lines_read(front);
            let before = encode_utf8(lines_text(front));
            lemma_encode_appended_line(lines_text(front), written);
            lemma_parse_appended(before, encode_utf8(written));
            lemma_mapping_closing(parse_text(before), before);
            let first = parse_text(before) + closing_line(before);
            if last is Entry {
                assert(first + tail =~= first.push(last));
                lemma_mapping_push(first, last);
            } else {
                assert(first + tail =~= first);
            }
        }
    }
}

/// Writing out the lines of a file and reading them back gives the same
/// mapping from keys to values. Take settled lines, as they are read from a
/// file whose lines hold no NUL, and suppose that they can be written as
/// wide characters and that what was written can be read. Then what is read
/// provides the same keys with the same values as the lines do.
pub proof fn lemma_write_keeps_mapping(lines: Seq<LineView>)
    requires
        forall|i: int| 0 <= i < lines.len() ==> is_settled(#[trigger] lines[i]),
        is_bmp(lines_text(lines)),
        read_bytes(wide_bytes(lines_text(lines))) is Ok,
    ensures
        mapping_of(read_bytes(wide_bytes(lines_text(lines)))->Ok_0) == mapping_of(lines),
{
    let text = lines_text(lines);
    let nothing = Seq::<u8>::empty();
    lemma_written_lines_read(lines);
    lemma_units_read_back(units_of_text(text));
    if text.len() == 0 {
        assert(wide_bytes(text).len() == 0);
        assert(text =~= Seq::<char>::empty());
        assert(encode_utf8(text) =~= nothing);
    } else {
        assert(nothing + wide_bytes(text) =~= wide_bytes(text));
        assert(le_units(nothing) =~= Seq::<u16>::empty());
        assert(units_utf8(le_units(nothing)) + encode_utf8(text) =~= encode_utf8(text));
        lemma_decoded_with_text(nothing, text);
    }
}

/// Every line read from decoded text without a NUL byte is settled.
pub proof fn lemma_plain_text_settled(bytes: Seq<u8>, i: int)
    requires
        0 <= i <= bytes.len(),
        !bytes.contains(0u8),
    ensures
        forall|k: int|
            0 <= k < parse_from(bytes, i).len() ==> is_settled(
                #[trigger] parse_from(bytes, i)[k],
            ),
    decreases bytes.len() - i,
{
    let feed = line_feed();
    if i < bytes.len() {
        lemma_find_from(bytes, feed, i);
        let j = find_from(bytes, feed, i);
        let raw = bytes.subrange(i, j);
        let here = parse_raw(raw);
        let rest = if j < bytes.len() {
            parse_from(bytes, j + 1)
        } else {
            Seq::<LineView>::empty()
        };
        if j < bytes.len() {
            lemma_plain_text_settled(bytes, j + 1);
        }
        if valid_utf8(raw) {
            let s = decode_utf8(raw);
            decode_utf8_encode_utf8(raw);
            crate::encoding::lemma_ascii_byte_occurs(s, feed);
            crate::encoding::lemma_ascii_byte_occurs(s, 0u8);
            assert(!raw.contains(feed)) by {
                if raw.contains(feed) {
                    let k = choose|k: int| 0 <= k < raw.len() && raw[k] == feed;
                    assert(bytes[i + k] == feed);
                }
            }
            assert(!raw.contains(0u8)) by {
                if raw.contains(0u8) {
                    let k = choose|k: int| 0 <= k < raw.len() && raw[k] == 0u8;
                    assert(bytes[i + k] == 0u8);
                }
            }
            lemma_read_line_settled(s);
        }
        assert forall|k: int| 0 <= k < (here + rest).len() implies is_settled(
            #[trigger] (here + rest)[k],
        ) by {
            if k < here.len() {
                assert((here + rest)[k] == here[k]);
            } else {
                assert((here + rest)[k] == rest[k - here.len()]);
            }
        }
    }
}

/// Every file that can be read and holds no NUL character is well formed,
/// and its lines are settled.
pub proof fn lemma_plain_file_settled(bytes: Seq<u8>)
    requires
        read_bytes(bytes) is Ok,
        !le_units(bytes).contains(0u16),
    ensures
        is_well_formed(bytes),
        forall|k: int|
            0 <= k < read_bytes(bytes)->Ok_0.len() ==> is_settled(
                #[trigger] read_bytes(bytes)->Ok_0[k],
            ),
{
    if bytes.len() > 0 {
        let text = units_utf8(le_units(bytes));
        if text.contains(0u8) {
            crate::encoding::lemma_ascii_byte_from_unit(le_units(bytes), 0u8);
        }
        lemma_plain_text_settled(text, 0);
    }
}

/// The text that a line read from a raw line is written as holds only
/// characters of the raw line.
pub proof fn lemma_read_line_within(s: Seq<char>)
    ensures
        forall|x: char| line_text(parse_line(s)).contains(x) ==> s.contains(x),
{
    let l = normalize(s);
    let line = parse_line(s);
    lemma_normalize_within(s);
    lemma_find_from(l, tab(), 0);
    if line is Entry {
        assert(line_text(line) =~= l);
    }
}

/// Every line read from decoded text that holds no byte of `0xF0` or more
/// can be written.
pub proof fn lemma_read_lines_writable(bytes: Seq<u8>, i: int)
    requires
        0 <= i <= bytes.len(),
        forall|k: int| 0 <= k < bytes.len() ==> #[trigger] bytes[k] < 0xF0u8,
    ensures
        forall|k: int|
            0 <= k < parse_from(bytes, i).len() ==> is_writable(
                #[trigger] parse_from(bytes, i)[k],
            ),
    decreases bytes.len() - i,
{
    let feed = line_feed();
    if i < bytes.len() {
        lemma_find_from(bytes, feed, i);
        let j = find_from(bytes, feed, i);
        let raw = bytes.subrange(i, j);
        let here = parse_raw(raw);
        let rest = if j < bytes.len() {
            parse_from(bytes, j + 1)
        } else {
            Seq::<LineView>::empty()
        };
        if j < bytes.len() {
            lemma_read_lines_writable(bytes, j + 1);
        }
        if valid_utf8(raw) {
            let s = decode_utf8(raw);
            let written = line_text(parse_line(s));
            decode_utf8_encode_utf8(raw);
            crate::encoding::lemma_ascii_byte_occurs(s, feed);
            assert(!raw.contains(feed)) by {
                if raw.contains(feed) {
                    let k = choose|k: int| 0 <= k < raw.len() && raw[k] == feed;
                    assert(bytes[i + k] == feed);
                }
            }
            assert forall|k: int| 0 <= k < raw.len() implies #[trigger] raw[k] < 0xF0u8 by {
                assert(raw[k] == bytes[i + k]);
            }
            crate::encoding::lemma_low_bytes_are_bmp(s);
            lemma_read_line_within(s);
            assert forall|k: int| 0 <= k < written.len() implies (#[trigger] written[k]) as u32
                <= 0xFFFF by {
                let x = written[k];
                assert(line_text(parse_line(s)).contains(x));
                assert(s.contains(x));
                let m = choose|m: int| 0 <= m < s.len() && s[m] == x;
                assert(s[m] as u32 <= 0xFFFF);
            }
        }
        assert forall|k: int| 0 <= k < (here + rest).len() implies is_writable(
            #[trigger] (here + rest)[k],
        ) by {
            if k < here.len() {
                assert((here + rest)[k] == here[k]);
            } else {
                assert((here + rest)[k] == rest[k - here.len()]);
            }
        }
    }
}

/// The text that lines are written as holds no character that a single
/// code unit cannot stand for, if the text of each line holds none.
pub proof fn lemma_lines_text_bmp(lines: Seq<LineView>)
    requires
        forall|k: int| 0 <= k < lines.len() ==> is_bmp(line_text(#[trigger] lines[k])),
    ensures
        is_bmp(lines_text(lines)),
    decreases lines.len(),
{
    if lines.len() >= 2 {
        let front = lines.drop_last();
        assert forall|k: int| 0 <= k < front.len() implies is_bmp(
            line_text(#[trigger] front[k]),
        ) by {
            assert(front[k] == lines[k]);
        }
        lemma_lines_text_bmp(front);
        let a = lines_text(front);
        let b = line_text(lines.last());
        let whole = lines_text(lines);
        assert(is_bmp(b));
        assert forall|k: int| 0 <= k < whole.len() implies (#[trigger] whole[k]) as u32
            <= 0xFFFF by {
            if k < a.len() {
                assert(whole[k] == a[k]);
            } else if k < a.len() + 2 {
                assert(whole[k] == line_end()[k - a.len()]);
            } else {
                assert(whole[k] == b[k - a.len() - 2]);
            }
        }
    } else if lines.len() == 1 {
        assert(is_bmp(line_text(lines[0])));
    }
}

/// The lines read from a file can always be written: their text holds no
/// character that a single code unit cannot stand for, and the text of no
/// line holds a line feed.
pub proof fn lemma_file_lines_writable(bytes: Seq<u8>)
    requires
        read_bytes(bytes) is Ok,
    ensures
        is_bmp(lines_text(read_bytes(bytes)->Ok_0)),
        forall|k: int|
            0 <= k < read_bytes(bytes)->Ok_0.len() ==> is_writable(
                #[trigger] read_bytes(bytes)->Ok_0[k],
            ),
{
    let lines = read_bytes(bytes)->Ok_0;
    if bytes.len() > 0 {
        let text = units_utf8(le_units(bytes));
        crate::encoding::lemma_units_bytes_low(le_units(bytes));
        lemma_read_lines_writable(text, 0);
    }
    lemma_lines_text_bmp(lines);
}

/// A file is well formed when each of its entries is read back as itself
/// from the text it is written as. Every file without NUL characters is
/// (`lemma_plain_file_settled`); a file is not where a NUL character at the
/// end of a line hides white space or a tab from trimming.
pub open spec fn is_well_formed(bytes: Seq<u8>) -> bool {
    read_bytes(bytes) is Ok && forall|k: int|
        0 <= k < read_bytes(bytes)->Ok_0.len() ==> reads_back(#[trigger] read_bytes(bytes)->Ok_0[k])
}

/// The lines of a well-formed file are settled.
pub proof fn lemma_well_formed_settled(bytes: Seq<u8>)
    requires
        is_well_formed(bytes),
    ensures
        forall|k: int|
            0 <= k < read_bytes(bytes)->Ok_0.len() ==> is_settled(
                #[trigger] read_bytes(bytes)->Ok_0[k],
            ),
{
    lemma_file_lines_writable(bytes);
    let lines = read_bytes(bytes)->Ok_0;
    assert forall|k: int| 0 <= k < lines.len() implies is_settled(#[trigger] lines[k]) by {
        assert(is_writable(lines[k]));
        assert(reads_back(lines[k]));
    }
}

/// Reading a file, writing its lines out and reading them back gives the
/// same mapping. Take any well-formed file. Its lines can be written as
/// wide characters; and if what was written can be read, which it can
/// unless it decodes to more bytes than it has, then what is read from it
/// provides the same keys with the same values as the file did.
pub proof fn lemma_round_trip(bytes: Seq<u8>)
    requires
        is_well_formed(bytes),
        read_bytes(wide_bytes(lines_text(read_bytes(bytes)->Ok_0))) is Ok,
    ensures
        is_bmp(lines_text(read_bytes(bytes)->Ok_0)),
        mapping_of(read_bytes(wide_bytes(lines_text(read_bytes(bytes)->Ok_0)))->Ok_0)
            == mapping_of(read_bytes(bytes)->Ok_0),
{
    lemma_file_lines_writable(bytes);
    lemma_well_formed_settled(bytes);
    lemma_write_keeps_mapping(read_bytes(bytes)->Ok_0);
}

/// Writing the lines of a file out after the file itself leaves the mapping
/// as it was. Take any well-formed file that ends with a line feed, or is
/// empty, and append to it its own lines, written as wide characters, which
/// they can be. If the longer file can be read, it provides the same keys
/// with the same values as the file did.
pub proof fn lemma_round_trip_appended(bytes: Seq<u8>)
    requires
        is_well_formed(bytes),
        bytes.len() > 0 ==> le_units(bytes).last() == 0x0Au16,
        read_bytes(bytes + wide_bytes(lines_text(read_bytes(bytes)->Ok_0))) is Ok,
    ensures
        is_bmp(lines_text(read_bytes(bytes)->Ok_0)),
        mapping_of(read_bytes(bytes + wide_bytes(lines_text(read_bytes(bytes)->Ok_0)))->Ok_0)
            == mapping_of(read_bytes(bytes)->Ok_0),
{
    let lines = read_bytes(bytes)->Ok_0;
    let written = lines_text(lines);
    let text = units_utf8(le_units(bytes));
    lemma_file_lines_writable(bytes);
    lemma_well_formed_settled(bytes);
    lemma_written_lines_read(lines);
    if written.len() == 0 {
        assert(wide_bytes(written) =~= Seq::<u8>::empty());
        assert(bytes + wide_bytes(written) =~= bytes);
    } else {
        lemma_decoded_with_text(bytes, written);
        assert(!ends_open(text)) by {
            if bytes.len() > 0 {
                let units = le_units(bytes);
                assert(units.len() > 0);
                assert(units_utf8(units) =~= units_utf8(units.drop_last()) + seq![0x0Au8]);
            } else {
                assert(le_units(bytes) =~= Seq::<u16>::empty());
            }
        }
        lemma_parse_closed(text, encode_utf8(written));
        lemma_mapping_concat(parse_text(text), parse_text(encode_utf8(written)));
        assert(mapping_of(lines).union_prefer_right(mapping_of(lines)) =~= mapping_of(lines));
    }
}

} // verus!

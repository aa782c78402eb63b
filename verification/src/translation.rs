//! One language's translation file: its name and language, the lines read
//! from it, the mapping from keys to values that the lines give, and the
//! bytes to append when stubs are added or the lines are written out.

use vstd::prelude::*;
use vstd::hash_map::StringHashMap;
use vstd::hash_set::StringHashSet;
use vstd::string::StringExecFns;
use crate::keys::views;
use crate::line::{
    line_views, parse_text, read_lines, write_lines, lines_text, Line, LineView,
};
use crate::text::{trim, trim_str, CharClass};
use crate::stub::{stub_block, stub_text};
use crate::wide::{
    decode_wide, is_bmp, le_units, units_from_bytes, units_utf8, wide_bytes, wide_text,
    EncodingError,
};

verus! {

/// What reading a run of code units gives: the lines of the text that the
/// units decode to, unless that text takes more bytes than the units do.
pub open spec fn read_units(units: Seq<u16>) -> Result<Seq<LineView>, EncodingError> {
    if units_utf8(units).len() > 2 * units.len() {
        Err(EncodingError::BufferOverflow)
    } else {
        Ok(parse_text(units_utf8(units)))
    }
}

/// What reading the bytes of a translation file gives. An empty file holds
/// no lines; a file with an odd number of bytes is not wide-character text.
pub open spec fn read_bytes(bytes: Seq<u8>) -> Result<Seq<LineView>, EncodingError> {
    if bytes.len() == 0 {
        Ok(Seq::empty())
    } else if bytes.len() % 2 != 0 {
        Err(EncodingError::NotWide)
    } else {
        read_units(le_units(bytes))
    }
}

/// The mapping from keys to values that `lines` give: each entry maps its
/// key to its value, both trimmed of white space, and for a key that occurs
/// more than once the last entry counts.
pub open spec fn mapping_of(lines: Seq<LineView>) -> Map<Seq<char>, Seq<char>>
    decreases lines.len(),
{
    if lines.len() == 0 {
        Map::empty()
    } else {
        let before = mapping_of(lines.drop_last());
        match lines.last() {
            LineView::Entry { key, value } => before.insert(
                trim(key, CharClass::Space),
                trim(value, CharClass::Space),
            ),
            LineView::Passthrough { text } => before,
        }
    }
}

/// The keys that `lines` provide, each once, in the order in which they
/// first occur.
pub open spec fn provided_keys(lines: Seq<LineView>) -> Seq<Seq<char>>
    decreases lines.len(),
{
    if lines.len() == 0 {
        Seq::empty()
    } else {
        let before = provided_keys(lines.drop_last());
        match lines.last() {
            LineView::Entry { key, value } => if before.contains(trim(key, CharClass::Space)) {
                before
            } else {
                before.push(trim(key, CharClass::Space))
            },
            LineView::Passthrough { text } => before,
        }
    }
}

/// The name under which a file is shown: its file name, or a made-up name
/// with the language in it when the path has no file name.
pub open spec fn display_name_for(file_name: Option<Seq<char>>, language: Seq<char>) -> Seq<char> {
    match file_name {
        Some(name) => name,
        None => "something_"@ + language + ".txt"@,
    }
}

/// A file name, if there is one, as a character sequence.
pub open spec fn name_view(file_name: Option<String>) -> Option<Seq<char>> {
    match file_name {
        Some(name) => Some(name@),
        None => None,
    }
}

/// The values of `m` as character sequences.
pub open spec fn value_views(m: Map<Seq<char>, String>) -> Map<Seq<char>, Seq<char>> {
    m.map_values(|v: String| v@)
}

/// A translation file as plain values.
pub struct TranslationView {
    /// The path of the file.
    pub path: Seq<char>,
    /// The name under which the file is shown.
    pub display_name: Seq<char>,
    /// The language tag.
    pub language: Seq<char>,
    /// Whether the lines have been read since the file was last written.
    pub loaded: bool,
    /// The lines, in the order of the file.
    pub lines: Seq<LineView>,
}

/// One language's translation file.
#[derive(Debug)]
pub struct Translation {
    fpath: String,
    display_name: String,
    language: String,
    loaded: bool,
    lines: Vec<Line>,
}

impl View for Translation {
    type V = TranslationView;

    closed spec fn view(&self) -> TranslationView {
        TranslationView {
            path: self.fpath@,
            display_name: self.display_name@,
            language: self.language@,
            loaded: self.loaded,
            lines: line_views(self.lines@),
        }
    }
}

/// The last component of `path` as `std::path::Path::file_name` gives it,
/// with `to_string_lossy` applied. Which part of a path that is depends on
/// the platform's separators, so nothing is stated of the result.
#[verifier::external_body]
fn file_name_of(path: &str) -> Option<String> {
    std::path::Path::new(path).file_name().map(|name| name.to_string_lossy().to_string())
}

impl Translation {
    /// A handle for the file at `fpath` with the given file name, for the
    /// language `lang`. Nothing is read yet.
    pub fn named(fpath: &str, file_name: Option<String>, lang: &str) -> (r: Translation)
        ensures
            r@ == (TranslationView {
                path: fpath@,
                display_name: display_name_for(name_view(file_name), lang@),
                language: lang@,
                loaded: false,
                lines: Seq::empty(),
            }),
    {
        let display_name = match file_name {
            Some(name) => name,
            None => {
                let mut made = String::from_str("something_");
                made.append(lang);
                made.append(".txt");
                made
            },
        };
        let lines: Vec<Line> = Vec::new();
        assert(line_views(lines@) =~= Seq::<LineView>::empty());
        Translation {
            fpath: String::from_str(fpath),
            display_name,
            language: String::from_str(lang),
            loaded: false,
            lines,
        }
    }

    /// A handle for the file at `fpath`, for the language `lang`. The file is
    /// shown under the last component of its path, as the platform tells the
    /// components apart, or under a made-up name when the path has none; see
    /// `named` for the name in either case. Nothing is read yet.
    pub fn new(fpath: &str, lang: &str) -> (r: Translation)
        ensures
            r@.path == fpath@,
            r@.language == lang@,
            !r@.loaded,
            r@.lines == Seq::<LineView>::empty(),
            exists|name: Option<Seq<char>>| r@.display_name == display_name_for(name, lang@),
    {
        let file_name = file_name_of(fpath);
        let ghost name = name_view(file_name);
        let r = Translation::named(fpath, file_name, lang);
        assert(r@.display_name == display_name_for(name, lang@));
        r
    }

    /// A copy of the handle, with its lines.
    pub fn duplicate(&self) -> (r: Translation)
        ensures
            r@ == self@,
    {
        let mut lines: Vec<Line> = Vec::new();
        let mut i: usize = 0;
        while i < self.lines.len()
            invariant
                i <= self.lines@.len(),
                line_views(lines@) =~= line_views(self.lines@.take(i as int)),
            decreases self.lines@.len() - i,
        {
            let ghost before = line_views(lines@);
            lines.push(self.lines[i].duplicate());
            proof {
                assert(line_views(lines@) =~= before.push(self.lines@[i as int]@));
                assert(line_views(self.lines@.take(i + 1)) =~= line_views(
                    self.lines@.take(i as int),
                ).push(self.lines@[i as int]@));
            }
            i += 1;
        }
        assert(self.lines@.take(self.lines@.len() as int) =~= self.lines@);
        Translation {
            fpath: self.fpath.clone(),
            display_name: self.display_name.clone(),
            language: self.language.clone(),
            loaded: self.loaded,
            lines,
        }
    }

    /// The name under which the file is shown.
    pub fn display(&self) -> (r: &str)
        ensures
            r@ == self@.display_name,
    {
        self.display_name.as_str()
    }

    /// The path of the file.
    pub fn path(&self) -> (r: &str)
        ensures
            r@ == self@.path,
    {
        self.fpath.as_str()
    }

    /// The language tag.
    pub fn language(&self) -> (r: &str)
        ensures
            r@ == self@.language,
    {
        self.language.as_str()
    }

    /// Whether the lines have been read since the file was last written.
    pub fn is_loaded(&self) -> (r: bool)
        ensures
            r == self@.loaded,
    {
        self.loaded
    }

    /// The lines, in the order of the file.
    pub fn lines(&self) -> (r: &Vec<Line>)
        ensures
            line_views(r@) == self@.lines,
    {
        &self.lines
    }

    /// Takes `units` as the content of the file. When they decode to text
    /// that fits, the lines of that text replace the handle's lines and the
    /// handle is loaded; otherwise the handle stays as it was.
    pub fn load_units(&mut self, units: &Vec<u16>) -> (r: Result<(), EncodingError>)
        requires
            2 * units@.len() <= usize::MAX,
        ensures
            match read_units(units@) {
                Ok(lines) => r is Ok && final(self)@ == (TranslationView {
                    loaded: true,
                    lines,
                    ..old(self)@
                }),
                Err(e) => r == Err::<(), EncodingError>(e) && final(self)@ == old(self)@,
            },
    {
        match decode_wide(units, 2 * units.len()) {
            Ok(text) => {
                self.lines = read_lines(&text);
                self.loaded = true;
                Ok(())
            },
            Err(e) => Err(e),
        }
    }

    /// Takes `bytes` as the content of the file, and loads what `read_bytes`
    /// gives. An empty file loads as no lines at all. An odd number of bytes
    /// fails with `NotWide`, and text that takes more bytes than the file
    /// has with `BufferOverflow`. A failure leaves the handle as it was.
    pub fn load_translations(&mut self, bytes: Vec<u8>) -> (r: Result<(), EncodingError>)
        ensures
            match read_bytes(bytes@) {
                Ok(lines) => r is Ok && final(self)@ == (TranslationView {
                    loaded: true,
                    lines,
                    ..old(self)@
                }),
                Err(e) => r == Err::<(), EncodingError>(e) && final(self)@ == old(self)@,
            },
    {
        if bytes.len() == 0 {
            self.lines = Vec::new();
            self.loaded = true;
            assert(line_views(self.lines@) =~= Seq::<LineView>::empty());
            return Ok(());
        }
        match units_from_bytes(bytes) {
            Some(units) => self.load_units(&units),
            None => Err(EncodingError::NotWide),
        }
    }

    /// The mapping from keys to values that the lines give, or `None` while
    /// the file has not been read.
    pub fn translations(&self) -> (r: Option<StringHashMap<String>>)
        ensures
            r is Some <==> self@.loaded,
            r is Some ==> value_views(r->Some_0@) == mapping_of(self@.lines),
    {
        if !self.loaded {
            return None;
        }
        let mut map: StringHashMap<String> = StringHashMap::new();
        let mut i: usize = 0;
        assert(line_views(self.lines@.take(0)) =~= Seq::<LineView>::empty());
        assert(value_views(map@) =~= Map::<Seq<char>, Seq<char>>::empty());
        while i < self.lines.len()
            invariant
                i <= self.lines@.len(),
                value_views(map@) == mapping_of(line_views(self.lines@.take(i as int))),
            decreases self.lines@.len() - i,
        {
            let ghost before = map@;
            proof {
                let next = line_views(self.lines@.take(i + 1));
                assert(next.drop_last() =~= line_views(self.lines@.take(i as int)));
                assert(next.last() == self.lines@[i as int]@);
            }
            match &self.lines[i] {
                Line::Entry { key, value } => {
                    let k = trim_str(key.as_str(), CharClass::Space);
                    let v = trim_str(value.as_str(), CharClass::Space);
                    let ghost kv = k@;
                    let ghost vv = v;
                    map.insert(k, v);
                    assert(value_views(map@) =~= value_views(before).insert(kv, vv@));
                },
                Line::Passthrough { text } => {},
            }
            i += 1;
        }
        assert(self.lines@.take(self.lines@.len() as int) =~= self.lines@);
        Some(map)
    }

    /// The keys that the file provides, each once, in the order in which
    /// they first occur, or `None` while the file has not been read.
    pub fn provided_translations(&self) -> (r: Option<Vec<String>>)
        ensures
            r is Some <==> self@.loaded,
            r is Some ==> views(r->Some_0@) == provided_keys(self@.lines),
    {
        if !self.loaded {
            return None;
        }
        let mut seen = StringHashSet::new();
        let mut out: Vec<String> = Vec::new();
        let mut i: usize = 0;
        assert(line_views(self.lines@.take(0)) =~= Seq::<LineView>::empty());
        assert(views(out@) =~= Seq::<Seq<char>>::empty());
        assert(views(out@).to_set() =~= Set::<Seq<char>>::empty());
        while i < self.lines.len()
            invariant
                i <= self.lines@.len(),
                views(out@) == provided_keys(line_views(self.lines@.take(i as int))),
                seen@ == views(out@).to_set(),
            decreases self.lines@.len() - i,
        {
            proof {
                let next = line_views(self.lines@.take(i + 1));
                assert(next.drop_last() =~= line_views(self.lines@.take(i as int)));
                assert(next.last() == self.lines@[i as int]@);
            }
            match &self.lines[i] {
                Line::Entry { key, value } => {
                    let k = trim_str(key.as_str(), CharClass::Space);
                    if !seen.contains(k.as_str()) {
                        let ghost before = views(out@);
                        seen.insert(k.clone());
                        out.push(k);
                        proof {
                            assert(views(out@) =~= before.push(k@));
                            before.lemma_push_to_set_commute(k@);
                        }
                    }
                },
                Line::Passthrough { text } => {},
            }
            i += 1;
        }
        assert(self.lines@.take(self.lines@.len() as int) =~= self.lines@);
        Some(out)
    }

    /// Replaces the lines by one entry for each pair of `entries`, in their
    /// order, and marks the file as read.
    pub fn set_translations(&mut self, entries: Vec<(String, String)>)
        ensures
            final(self)@ == (TranslationView {
                loaded: true,
                lines: entry_lines(entries@),
                ..old(self)@
            }),
    {
        let mut lines: Vec<Line> = Vec::new();
        let mut i: usize = 0;
        assert(line_views(lines@) =~= entry_lines(entries@.take(0)));
        while i < entries.len()
            invariant
                i <= entries@.len(),
                line_views(lines@) == entry_lines(entries@.take(i as int)),
            decreases entries@.len() - i,
        {
            let key = entries[i].0.clone();
            let value = entries[i].1.clone();
            let ghost before = line_views(lines@);
            let ghost entry = LineView::Entry { key: key@, value: value@ };
            lines.push(Line::Entry { key, value });
            proof {
                assert(line_views(lines@) =~= before.push(entry));
                assert(entries@.take(i + 1) =~= entries@.take(i as int).push(entries@[i as int]));
                assert(entry_lines(entries@.take(i + 1)) =~= entry_lines(
                    entries@.take(i as int),
                ).push(entry));
            }
            i += 1;
        }
        assert(entries@.take(entries@.len() as int) =~= entries@);
        self.lines = lines;
        self.loaded = true;
    }

    /// Puts the entry `key`, `value` before the line at position `idx`, or at
    /// the end when there is no such line.
    pub fn insert_at(&mut self, key: String, value: String, idx: usize)
        ensures
            final(self)@ == (TranslationView {
                lines: if idx >= old(self)@.lines.len() {
                    old(self)@.lines.push(LineView::Entry { key: key@, value: value@ })
                } else {
                    old(self)@.lines.insert(
                        idx as int,
                        LineView::Entry { key: key@, value: value@ },
                    )
                },
                ..old(self)@
            }),
    {
        let ghost before = line_views(self.lines@);
        let ghost entry = LineView::Entry { key: key@, value: value@ };
        if idx >= self.lines.len() {
            self.lines.push(Line::Entry { key, value });
            assert(line_views(self.lines@) =~= before.push(entry));
        } else {
            self.lines.insert(idx, Line::Entry { key, value });
            assert(line_views(self.lines@) =~= before.insert(idx as int, entry));
        }
    }

    /// Puts the entry `key`, `value` after the last line.
    pub fn append_translation(&mut self, key: String, value: String)
        ensures
            final(self)@ == (TranslationView {
                lines: old(self)@.lines.push(LineView::Entry { key: key@, value: value@ }),
                ..old(self)@
            }),
    {
        let ghost before = line_views(self.lines@);
        let ghost entry = LineView::Entry { key: key@, value: value@ };
        self.lines.push(Line::Entry { key, value });
        assert(line_views(self.lines@) =~= before.push(entry));
    }
}

impl Translation {
    /// The bytes to append to the file so that it provides a placeholder for
    /// each key of `stubs`: the stub block for these keys as wide-character
    /// text. With these bytes handed out the lines held here are out of
    /// date, so the handle forgets them and has to be loaded again. When
    /// a key holds a character that no code unit stands for, nothing is
    /// handed out and the handle stays as it was.
    pub fn add_stub_translation(&mut self, stubs: &Vec<String>) -> (r: Result<
        Vec<u8>,
        EncodingError,
    >)
        ensures
            is_bmp(stub_block(views(stubs@))) ==> r is Ok && r->Ok_0@ == wide_bytes(
                stub_block(views(stubs@)),
            ) && final(self)@ == (TranslationView {
                loaded: false,
                lines: Seq::empty(),
                ..old(self)@
            }),
            !is_bmp(stub_block(views(stubs@))) ==> r is Err && r->Err_0
                == EncodingError::Unrepresentable && final(self)@ == old(self)@,
    {
        let text = stub_text(stubs);
        match wide_text(text.as_str()) {
            Ok(bytes) => {
                self.lines = Vec::new();
                self.loaded = false;
                assert(line_views(self.lines@) =~= Seq::<LineView>::empty());
                Ok(bytes)
            },
            Err(e) => Err(e),
        }
    }

    /// The bytes that write out all the lines held here: the text of the
    /// lines as wide-character text. It fails when a line holds a character
    /// that no code unit stands for.
    pub fn write(&self) -> (r: Result<Vec<u8>, EncodingError>)
        ensures
            is_bmp(lines_text(self@.lines)) ==> r is Ok && r->Ok_0@ == wide_bytes(
                lines_text(self@.lines),
            ),
            !is_bmp(lines_text(self@.lines)) ==> r is Err && r->Err_0
                == EncodingError::Unrepresentable,
    {
        let text = write_lines(&self.lines);
        wide_text(text.as_str())
    }

    /// What to tell the user when reading or writing this file has failed
    /// with `error`: the reason, and the name of the file, which might not be
    /// a wide-character file.
    pub fn explain(&self, error: EncodingError) -> (r: String)
        ensures
            r@ == reason(error) + ";\n"@ + self@.display_name
                + " might not be a valid UCS-2 file."@,
    {
        let mut out = match error {
            EncodingError::NotWide => String::from_str(
                "The bytes cannot be taken as 16-bit characters",
            ),
            EncodingError::BufferOverflow => String::from_str(
                "Not enough space left in the output buffer to decode UCS-2 characters",
            ),
            EncodingError::Unrepresentable => String::from_str(
                "Input contained a character which cannot be represented in UCS-2",
            ),
        };
        out.append(";\n");
        out.append(self.display_name.as_str());
        out.append(" might not be a valid UCS-2 file.");
        out
    }
}

/// The reason that goes with an error.
pub open spec fn reason(error: EncodingError) -> Seq<char> {
    match error {
        EncodingError::NotWide => "The bytes cannot be taken as 16-bit characters"@,
        EncodingError::BufferOverflow =>
            "Not enough space left in the output buffer to decode UCS-2 characters"@,
        EncodingError::Unrepresentable =>
            "Input contained a character which cannot be represented in UCS-2"@,
    }
}

/// One entry line for each pair of `entries`, in their order.
pub open spec fn entry_lines(entries: Seq<(String, String)>) -> Seq<LineView> {
    entries.map_values(|p: (String, String)| LineView::Entry { key: p.0@, value: p.1@ })
}

} // verus!

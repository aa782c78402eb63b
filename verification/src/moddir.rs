//! A mod's directory as far as translations are concerned: its name, the
//! translation files found in it by language, and the keys that its JSON
//! documents require.

use vstd::prelude::*;
use crate::json::{collect_translation_keys, keys_of, Json};
use crate::keys::{insert_unique, key_set, sort_keys, sorted, strictly_sorted, views};
use crate::line::LineView;
use crate::order::{key_order, Order};
use crate::search::{keep_unfound, unfound};
use crate::names::{has_extension, json_extension, language_tag, tag_of, FoundFile};
use crate::reconcile::{reconcile, Reconciliation};
use crate::translation::{provided_keys, read_bytes, Translation, TranslationView};
use crate::wide::EncodingError;

verus! {

/// A translation file under the key of its language.
#[derive(Debug)]
pub struct LanguageFile {
    /// The key under which the language is looked up: its tag in lowercase.
    pub key: String,
    /// The handle of the file, which keeps the tag as the file name has it.
    pub file: Translation,
}

/// A translation file under the key of its language, as plain values.
pub struct LanguageFileView {
    /// The key under which the language is looked up.
    pub key: Seq<char>,
    /// The handle of the file.
    pub file: TranslationView,
}

impl View for LanguageFile {
    type V = LanguageFileView;

    open spec fn view(&self) -> LanguageFileView {
        LanguageFileView { key: self.key@, file: self.file@ }
    }
}

/// The files of `files` as plain values, in the same order.
pub open spec fn file_views(files: Seq<LanguageFile>) -> Seq<LanguageFileView> {
    files.map_values(|f: LanguageFile| f@)
}

/// The keys of `files`, in the same order.
pub open spec fn keys_of_files(files: Seq<LanguageFileView>) -> Seq<Seq<char>> {
    files.map_values(|f: LanguageFileView| f.key)
}

/// The first position at or after `i` of a file under `key`, or the length
/// of `files` when there is none.
pub open spec fn position_of(files: Seq<LanguageFileView>, key: Seq<char>, i: int) -> int
    decreases files.len() - i,
{
    if 0 <= i < files.len() && files[i].key != key {
        position_of(files, key, i + 1)
    } else {
        i
    }
}

/// The translation file under `key` among `files`, if there is one.
pub open spec fn lookup(files: Seq<LanguageFileView>, key: Seq<char>) -> Option<TranslationView> {
    let i = position_of(files, key, 0);
    if 0 <= i < files.len() {
        Some(files[i].file)
    } else {
        None
    }
}

/// `files` with `entry` put in: in the place of the file that stood under
/// the same key, or at the end when there was none.
pub open spec fn placed(files: Seq<LanguageFileView>, entry: LanguageFileView) -> Seq<
    LanguageFileView,
> {
    let i = position_of(files, entry.key, 0);
    if 0 <= i < files.len() {
        files.update(i, entry)
    } else {
        files.push(entry)
    }
}

/// The handle that a found file gets under the language `tag`.
pub open spec fn handle_for(path: Seq<char>, file_name: Seq<char>, tag: Seq<char>)
    -> TranslationView {
    TranslationView {
        path,
        display_name: file_name,
        language: tag,
        loaded: false,
        lines: Seq::empty(),
    }
}

/// The translation files by language. The key of a language is its tag in
/// lowercase, so that tags which differ in case only are one language; the
/// handle keeps the tag as the file name has it. There is one file for each
/// key, in the order in which the keys first occur; where several files
/// come under one key, the last of them is the one for that language. A
/// file whose name has no tag is left out: one that is no text file, or
/// that has no underscore in its name.
pub open spec fn files_by_language(files: Seq<FoundFile>) -> Seq<LanguageFileView>
    decreases files.len(),
{
    if files.len() == 0 {
        Seq::empty()
    } else {
        let before = files_by_language(files.drop_last());
        let file = files.last();
        match tag_of(file.file_name@) {
            None => before,
            Some(tag) => placed(
                before,
                LanguageFileView {
                    key: lowercased(tag),
                    file: handle_for(file.path@, file.file_name@, tag),
                },
            ),
        }
    }
}

/// The paths of the files among `files` whose names carry the extension
/// `json`, in the given order.
pub open spec fn json_paths(files: Seq<FoundFile>) -> Seq<Seq<char>>
    decreases files.len(),
{
    if files.len() == 0 {
        Seq::empty()
    } else {
        let before = json_paths(files.drop_last());
        if crate::names::extension_of(files.last().file_name@) == Some(json_extension()) {
            before.push(files.last().path@)
        } else {
            before
        }
    }
}

/// The keys that the readable documents among `sources` refer to, in the
/// order of the documents. A document that could not be read stands as
/// `None` and contributes nothing.
pub open spec fn keys_of_sources(sources: Seq<Option<Json>>) -> Seq<Seq<char>>
    decreases sources.len(),
{
    if sources.len() == 0 {
        Seq::empty()
    } else {
        let before = keys_of_sources(sources.drop_last());
        match sources.last() {
            Some(document) => before + keys_of(document),
            None => before,
        }
    }
}

/// The lowercase form of `s` that `str::to_lowercase` gives.
pub uninterp spec fn lowercased(s: Seq<char>) -> Seq<char>;

/// `str::to_lowercase`: the lowercase form of `s`, by the Unicode rules
/// that the standard library follows. The form is not spelled out here; it
/// depends on `s` alone.
#[verifier::external_body]
fn lowercase(s: &str) -> (r: String)
    ensures
        r@ == lowercased(s@),
{
    s.to_lowercase()
}

/// The name that marks a data directory, in lowercase.
pub open spec fn interface_name() -> Seq<char> {
    "interface"@
}

/// A name, in lowercase, that marks a directory as not worth descending
/// into: it begins with a dot, or it is `target`, `build` or `extern`.
pub open spec fn is_ignored_name(lower: Seq<char>) -> bool {
    (lower.len() > 0 && lower[0] == '.') || lower == "target"@ || lower == "build"@ || lower
        == "extern"@
}

/// A directory named `name` is not worth descending into: its name in
/// lowercase is an ignored one.
pub open spec fn is_ignored(name: Seq<char>) -> bool {
    is_ignored_name(lowercased(name))
}

/// Tells whether `lower`, a directory's name in lowercase, marks a data
/// directory.
pub fn marks_data_dir(lower: &str) -> (r: bool)
    ensures
        r == (lower@ == interface_name()),
{
    key_order(lower, "interface") == Order::Equal
}

/// Tells whether `lower`, a directory's name in lowercase, is one not worth
/// descending into.
pub fn marks_ignored_dir(lower: &str) -> (r: bool)
    ensures
        r == is_ignored_name(lower@),
{
    if !lower.is_empty() && lower.get_char(0) == '.' {
        return true;
    }
    key_order(lower, "target") == Order::Equal || key_order(lower, "build") == Order::Equal
        || key_order(lower, "extern") == Order::Equal
}

/// Tells whether one of the directory names in `names` marks a data
/// directory: whether one of them is `interface`, in whatever case.
pub fn is_data_dir(names: &Vec<String>) -> (r: bool)
    ensures
        r <==> exists|i: int| 0 <= i < names@.len() && lowercased(names@[i]@) == interface_name(),
{
    let mut i: usize = 0;
    while i < names.len()
        invariant
            i <= names@.len(),
            forall|j: int| 0 <= j < i ==> lowercased(names@[j]@) != interface_name(),
        decreases names@.len() - i,
    {
        let lower = lowercase(names[i].as_str());
        if marks_data_dir(lower.as_str()) {
            return true;
        }
        i += 1;
    }
    false
}

/// Tells whether a directory named `name` is worth descending into when
/// looking for the data directory.
pub fn is_relevant_dir(name: &str) -> (r: bool)
    ensures
        r == !is_ignored(name@),
{
    let lower = lowercase(name);
    !marks_ignored_dir(lower.as_str())
}

/// A directory with the directories in it, as far as they were looked at.
#[derive(Debug)]
pub struct DirTree {
    /// The path of the directory.
    pub path: String,
    /// The name of the directory: the last component of its path.
    pub name: String,
    /// The directories in it, in the order in which they were found.
    pub children: Vec<DirTree>,
}

/// One of `children` is named `interface`, in whatever case.
pub open spec fn holds_interface(children: Seq<DirTree>) -> bool {
    exists|i: int| 0 <= i < children.len() && lowercased(children[i].name@) == interface_name()
}

/// The data directory at or below `tree`: the directory itself if it holds
/// an `interface` directory, and otherwise the first data directory found
/// below one of its directories.
pub open spec fn data_dir_of(tree: DirTree) -> Option<Seq<char>>
    decreases tree,
{
    if holds_interface(tree.children@) {
        Some(tree.path@)
    } else {
        first_data_dir(tree.children@)
    }
}

/// The first data directory found at or below one of `children`, taken in
/// their order. Directories that are not worth descending into are passed
/// over.
pub open spec fn first_data_dir(children: Seq<DirTree>) -> Option<Seq<char>>
    decreases children,
{
    if children.len() == 0 {
        None
    } else {
        match first_data_dir(children.drop_last()) {
            Some(found) => Some(found),
            None => if is_ignored(children.last().name@) {
                None
            } else {
                data_dir_of(children.last())
            },
        }
    }
}

/// The names of `children`, in the same order.
fn names_of(children: &Vec<DirTree>) -> (r: Vec<String>)
    ensures
        r@.len() == children@.len(),
        forall|i: int| 0 <= i < r@.len() ==> (#[trigger] r@[i])@ == children@[i].name@,
{
    let mut out: Vec<String> = Vec::new();
    let mut i: usize = 0;
    while i < children.len()
        invariant
            i <= children@.len(),
            out@.len() == i,
            forall|j: int| 0 <= j < i ==> (#[trigger] out@[j])@ == children@[j].name@,
        decreases children@.len() - i,
    {
        out.push(children[i].name.clone());
        i += 1;
    }
    out
}

/// Finds the data directory at or below `top`: the first directory, going
/// down through the directories in their order, that holds an `interface`
/// directory.
pub fn find_data_dir(top: &DirTree) -> (r: Option<String>)
    ensures
        r is Some <==> data_dir_of(*top) is Some,
        r is Some ==> r->Some_0@ == data_dir_of(*top)->Some_0,
    decreases top,
{
    let names = names_of(&top.children);
    if is_data_dir(&names) {
        proof {
            let i = choose|i: int|
                0 <= i < names@.len() && lowercased(names@[i]@) == interface_name();
            assert(lowercased(top.children@[i].name@) == interface_name());
        }
        return Some(top.path.clone());
    }
    proof {
        if holds_interface(top.children@) {
            let i = choose|i: int|
                0 <= i < top.children@.len() && lowercased(top.children@[i].name@)
                    == interface_name();
            assert(lowercased(names@[i]@) == interface_name());
        }
    }
    let mut i: usize = 0;
    assert(top.children@.take(0) =~= Seq::<DirTree>::empty());
    while i < top.children.len()
        invariant
            i <= top.children@.len(),
            !holds_interface(top.children@),
            first_data_dir(top.children@.take(i as int)) is None,
        decreases top.children@.len() - i,
    {
        proof {
            let next = top.children@.take(i + 1);
            assert(next.drop_last() =~= top.children@.take(i as int));
            assert(next.last() == top.children@[i as int]);
            assert(decreases_to!(*top => top.children));
            assert(decreases_to!(top.children => top.children@));
            assert(decreases_to!(top.children@ => top.children@[i as int]));
        }
        if is_relevant_dir(top.children[i].name.as_str()) {
            match find_data_dir(&top.children[i]) {
                Some(found) => {
                    proof {
                        lemma_first_data_dir_found(top.children@, i + 1);
                    }
                    return Some(found);
                },
                None => {},
            }
        }
        i += 1;
    }
    assert(top.children@.take(top.children@.len() as int) =~= top.children@);
    None
}

/// A data directory found among the first `n` of `children` is the one
/// found among all of them.
pub proof fn lemma_first_data_dir_found(children: Seq<DirTree>, n: int)
    requires
        0 <= n <= children.len(),
        first_data_dir(children.take(n)) is Some,
    ensures
        first_data_dir(children) == first_data_dir(children.take(n)),
    decreases children.len() - n,
{
    if n < children.len() {
        assert(children.take(n + 1).drop_last() =~= children.take(n));
        lemma_first_data_dir_found(children, n + 1);
    } else {
        assert(children.take(n) =~= children);
    }
}

/// `r` is what asking for the keys of the language under `key` comes to,
/// given the translation files `kept` and the content `bytes` of the
/// language's file. A language without a file is an error of its own.
/// Otherwise the keys are those of the lines that `read_bytes` gives, or the
/// error is the one that it gives.
pub open spec fn is_provided(
    kept: Seq<LanguageFileView>,
    key: Seq<char>,
    bytes: Seq<u8>,
    r: Result<Vec<String>, ProvidedError>,
) -> bool {
    if lookup(kept, key) is None {
        r is Err && r->Err_0 == ProvidedError::NoSuchLanguage
    } else {
        match read_bytes(bytes) {
            Ok(lines) => r is Ok && views(r->Ok_0@) == provided_keys(lines),
            Err(e) => r is Err && r->Err_0 == ProvidedError::Encoding(e),
        }
    }
}

/// `r` is what checking the language under `key` comes to, given the
/// translation files `kept`, the content `bytes` of the language's file,
/// and the required keys with the baseline. A language without a file is an
/// error of its own, and no reconciliation: it is told apart from a
/// language that misses nothing. Otherwise the keys that the content
/// provides are reconciled, unless the content cannot be read.
pub open spec fn is_checked(
    kept: Seq<LanguageFileView>,
    key: Seq<char>,
    bytes: Seq<u8>,
    required: Seq<String>,
    baseline: Seq<String>,
    r: Result<Reconciliation, ProvidedError>,
) -> bool {
    if lookup(kept, key) is None {
        r is Err && r->Err_0 == ProvidedError::NoSuchLanguage
    } else {
        match read_bytes(bytes) {
            Ok(lines) => r is Ok && r->Ok_0.is_between(
                key_set(required),
                provided_keys(lines).to_set(),
                key_set(baseline),
            ),
            Err(e) => r is Err && r->Err_0 == ProvidedError::Encoding(e),
        }
    }
}

/// The translation files that a mod directory keeps after it was asked
/// about a language: those it kept before, or else those of the listing
/// `files`.
pub open spec fn kept_files(before: Option<Seq<LanguageFileView>>, files: Seq<FoundFile>) -> Seq<
    LanguageFileView,
> {
    match before {
        Some(kept) => kept,
        None => files_by_language(files),
    }
}

/// In a sequence of files with one file for each key, a file is found
/// under its key at its own position.
pub proof fn lemma_position_of(files: Seq<LanguageFileView>, key: Seq<char>, i: int)
    requires
        0 <= i <= files.len(),
    ensures
        i <= position_of(files, key, i) <= files.len(),
        forall|k: int| i <= k < position_of(files, key, i) ==> (#[trigger] files[k]).key != key,
        position_of(files, key, i) < files.len() ==> files[position_of(files, key, i)].key == key,
    decreases files.len() - i,
{
    if i < files.len() && files[i].key != key {
        lemma_position_of(files, key, i + 1);
    }
}

/// Putting a file in keeps one file for each key.
pub proof fn lemma_placed_distinct(files: Seq<LanguageFileView>, entry: LanguageFileView)
    requires
        keys_of_files(files).no_duplicates(),
    ensures
        keys_of_files(placed(files, entry)).no_duplicates(),
        lookup(placed(files, entry), entry.key) == Some(entry.file),
        forall|key: Seq<char>|
            key != entry.key ==> #[trigger] lookup(placed(files, entry), key) == lookup(files, key),
{
    let after = placed(files, entry);
    let at = position_of(files, entry.key, 0);
    lemma_position_of(files, entry.key, 0);
    let keys = keys_of_files(files);
    let new_keys = keys_of_files(after);
    assert forall|a: int, b: int| 0 <= a < new_keys.len() && 0 <= b < new_keys.len() && a
        != b implies new_keys[a] != new_keys[b] by {
        if at < files.len() {
            assert(new_keys[a] == keys[a] && new_keys[b] == keys[b]);
        } else {
            if a < files.len() && b < files.len() {
                assert(new_keys[a] == keys[a] && new_keys[b] == keys[b]);
            } else if a < files.len() {
                assert(files[a].key != entry.key);
            } else {
                assert(files[b].key != entry.key);
            }
        }
    }
    assert forall|k: int| 0 <= k < at implies (#[trigger] after[k]).key != entry.key by {
        assert(after[k] == files[k]);
    }
    lemma_position_is(after, entry.key, at);
    assert forall|key: Seq<char>| key != entry.key implies #[trigger] lookup(after, key) == lookup(
        files,
        key,
    ) by {
        lemma_position_of(files, key, 0);
        let p = position_of(files, key, 0);
        assert forall|k: int| 0 <= k < p && k < after.len() implies (#[trigger] after[k]).key
            != key by {
            if k < files.len() && k != at {
                assert(after[k] == files[k]);
            }
        }
        if p < files.len() {
            assert(after[p] == files[p]);
            lemma_position_is(after, key, p);
        } else {
            assert forall|k: int| 0 <= k < after.len() implies (#[trigger] after[k]).key
                != key by {
                if k < files.len() && k != at {
                    assert(after[k] == files[k]);
                }
            }
            lemma_position_is(after, key, after.len() as int);
        }
    }
}

/// A position before which no file stands under `key`, and which holds a
/// file under `key` or is the end, is the one that `position_of` finds.
pub proof fn lemma_position_is(files: Seq<LanguageFileView>, key: Seq<char>, m: int)
    requires
        0 <= m <= files.len(),
        forall|k: int| 0 <= k < m ==> (#[trigger] files[k]).key != key,
        m < files.len() ==> files[m].key == key,
    ensures
        position_of(files, key, 0) == m,
{
    lemma_position_from(files, key, m, 0);
}

/// `lemma_position_is`, for a search that starts at `i`.
proof fn lemma_position_from(files: Seq<LanguageFileView>, key: Seq<char>, m: int, i: int)
    requires
        0 <= i <= m <= files.len(),
        forall|k: int| 0 <= k < m ==> (#[trigger] files[k]).key != key,
        m < files.len() ==> files[m].key == key,
    ensures
        position_of(files, key, i) == m,
    decreases m - i,
{
    if i < m {
        lemma_position_from(files, key, m, i + 1);
    }
}

/// No language occurs twice among the translation files by language: there
/// is one file for each key.
pub proof fn lemma_languages_distinct(files: Seq<FoundFile>)
    ensures
        keys_of_files(files_by_language(files)).no_duplicates(),
    decreases files.len(),
{
    if files.len() > 0 {
        lemma_languages_distinct(files.drop_last());
        let before = files_by_language(files.drop_last());
        let file = files.last();
        match tag_of(file.file_name@) {
            None => {},
            Some(tag) => {
                lemma_placed_distinct(
                    before,
                    LanguageFileView {
                        key: lowercased(tag),
                        file: handle_for(file.path@, file.file_name@, tag),
                    },
                );
            },
        }
    }
}

/// A mod's directory as plain values.
pub struct ModDirectoryView {
    /// The path of the mod's directory.
    pub modpath: Seq<char>,
    /// The name of the mod.
    pub name: Seq<char>,
    /// The path of the data directory found in the mod's directory.
    pub datadir: Seq<char>,
    /// The path of the configuration document, once it was looked for and
    /// found.
    pub config_path: Option<Seq<char>>,
    /// The translation files by language, once they were listed.
    pub translations: Option<Seq<LanguageFileView>>,
}

/// A mod's directory.
#[derive(Debug)]
pub struct ModDirectory {
    modpath: String,
    config_path: Option<String>,
    name: String,
    translations: Option<Vec<LanguageFile>>,
    datadir: String,
}

/// Why the keys of a language could not be given.
#[derive(Clone, Copy, Debug, PartialEq, Eq, Structural)]
pub enum ProvidedError {
    /// No translation file was found for the language.
    NoSuchLanguage,
    /// The language's file could not be read as wide-character text.
    Encoding(EncodingError),
}

impl View for ModDirectory {
    type V = ModDirectoryView;

    closed spec fn view(&self) -> ModDirectoryView {
        ModDirectoryView {
            modpath: self.modpath@,
            name: self.name@,
            datadir: self.datadir@,
            config_path: match self.config_path {
                Some(p) => Some(p@),
                None => None,
            },
            translations: match self.translations {
                Some(files) => Some(file_views(files@)),
                None => None,
            },
        }
    }
}

impl ModDirectory {
    /// The mod named `name` in the directory `modpath`, whose data directory
    /// is `datadir`. Nothing is listed or looked for yet.
    pub fn new(modpath: &str, name: &str, datadir: &str) -> (r: ModDirectory)
        ensures
            r@ == (ModDirectoryView {
                modpath: modpath@,
                name: name@,
                datadir: datadir@,
                config_path: None,
                translations: None,
            }),
    {
        ModDirectory {
            modpath: modpath.to_owned(),
            config_path: None,
            name: name.to_owned(),
            translations: None,
            datadir: datadir.to_owned(),
        }
    }

    /// The name of the mod.
    pub fn name(&self) -> (r: &str)
        ensures
            r@ == self@.name,
    {
        self.name.as_str()
    }

    /// The path of the mod's directory.
    pub fn modpath(&self) -> (r: &str)
        ensures
            r@ == self@.modpath,
    {
        self.modpath.as_str()
    }

    /// The path of the data directory.
    pub fn datadir(&self) -> (r: &str)
        ensures
            r@ == self@.datadir,
    {
        self.datadir.as_str()
    }

    /// Whether the translation files have been listed.
    pub fn is_listed(&self) -> (r: bool)
        ensures
            r == self@.translations is Some,
    {
        self.translations.is_some()
    }

    /// The translation files by language, given the files found in the
    /// directory of translation files.
    pub fn translation_files(&self, files: &Vec<FoundFile>) -> (r: Vec<LanguageFile>)
        ensures
            file_views(r@) == files_by_language(files@),
    {
        let mut out: Vec<LanguageFile> = Vec::new();
        let mut i: usize = 0;
        assert(file_views(out@) =~= files_by_language(files@.take(0)));
        while i < files.len()
            invariant
                i <= files@.len(),
                file_views(out@) == files_by_language(files@.take(i as int)),
            decreases files@.len() - i,
        {
            proof {
                let next = files@.take(i + 1);
                assert(next.drop_last() =~= files@.take(i as int));
                assert(next.last() == files@[i as int]);
            }
            let file = &files[i];
            match language_tag(file.file_name.as_str()) {
                Some(tag) => {
                    let handle = Translation::named(
                        file.path.as_str(),
                        Some(file.file_name.clone()),
                        tag.as_str(),
                    );
                    let key = lowercase(tag.as_str());
                    place_file(&mut out, LanguageFile { key, file: handle });
                },
                None => {},
            }
            i += 1;
        }
        assert(files@.take(files@.len() as int) =~= files@);
        out
    }

    /// The languages for which a translation file was found: their keys, in
    /// ascending order, each once.
    pub fn languages(&self, files: &Vec<FoundFile>) -> (r: Vec<String>)
        ensures
            strictly_sorted(views(r@)),
            key_set(r@) == keys_of_files(files_by_language(files@)).to_set(),
    {
        let found = self.translation_files(files);
        let ghost all = keys_of_files(file_views(found@));
        let mut out: Vec<String> = Vec::new();
        let mut i: usize = 0;
        assert(key_set(out@) =~= all.take(0).to_set());
        while i < found.len()
            invariant
                i <= found@.len(),
                all == keys_of_files(file_views(found@)),
                strictly_sorted(views(out@)),
                key_set(out@) == all.take(i as int).to_set(),
            decreases found@.len() - i,
        {
            let key = found[i].key.clone();
            proof {
                assert(all.take(i + 1) =~= all.take(i as int).push(key@));
                all.take(i as int).lemma_push_to_set_commute(key@);
            }
            insert_unique(&mut out, key);
            i += 1;
        }
        assert(all.take(found@.len() as int) =~= all);
        out
    }

    /// The translation file under the key `key`: a language's tag in
    /// lowercase. The listing in `files` is taken down the first time and
    /// kept; later calls answer from what was kept, whatever `files` holds
    /// then.
    pub fn translation_file_under(&mut self, key: &str, files: &Vec<FoundFile>) -> (r: Option<
        Translation,
    >)
        ensures
            final(self)@ == (ModDirectoryView {
                translations: Some(kept_files(old(self)@.translations, files@)),
                ..old(self)@
            }),
            r is Some <==> lookup(kept_files(old(self)@.translations, files@), key@) is Some,
            r is Some ==> r->Some_0@ == lookup(
                kept_files(old(self)@.translations, files@),
                key@,
            )->Some_0,
    {
        if self.translations.is_none() {
            let found = self.translation_files(files);
            self.translations = Some(found);
        }
        match &self.translations {
            Some(kept) => {
                let at = find_file(kept, key);
                if at < kept.len() {
                    Some(kept[at].file.duplicate())
                } else {
                    None
                }
            },
            None => None,
        }
    }

    /// The translation file for `language`, in whatever case the language is
    /// given and in whatever case the file name has it: both are taken in
    /// lowercase.
    pub fn translation_file_for(&mut self, language: &str, files: &Vec<FoundFile>) -> (r: Option<
        Translation,
    >)
        ensures
            final(self)@ == (ModDirectoryView {
                translations: Some(kept_files(old(self)@.translations, files@)),
                ..old(self)@
            }),
            r is Some <==> lookup(
                kept_files(old(self)@.translations, files@),
                lowercased(language@),
            ) is Some,
            r is Some ==> r->Some_0@ == lookup(
                kept_files(old(self)@.translations, files@),
                lowercased(language@),
            )->Some_0,
    {
        let key = lowercase(language);
        self.translation_file_under(key.as_str(), files)
    }

    /// The keys that the file under the key `key` provides, given the
    /// content of that file in `bytes`.
    pub fn provided_translations_under(
        &mut self,
        key: &str,
        files: &Vec<FoundFile>,
        bytes: Vec<u8>,
    ) -> (r: Result<Vec<String>, ProvidedError>)
        ensures
            final(self)@ == (ModDirectoryView {
                translations: Some(kept_files(old(self)@.translations, files@)),
                ..old(self)@
            }),
            is_provided(kept_files(old(self)@.translations, files@), key@, bytes@, r),
    {
        match self.translation_file_under(key, files) {
            None => Err(ProvidedError::NoSuchLanguage),
            Some(found) => {
                let mut file = found;
                match file.load_translations(bytes) {
                    Err(e) => Err(ProvidedError::Encoding(e)),
                    Ok(()) => match file.provided_translations() {
                        Some(keys) => Ok(keys),
                        None => Err(ProvidedError::NoSuchLanguage),
                    },
                }
            },
        }
    }

    /// The keys that the file for `language` provides, given the content of
    /// that file in `bytes`. The language is looked up in lowercase on both
    /// sides: as it is given here, and as the file name has it.
    pub fn provided_translations_for(
        &mut self,
        language: &str,
        files: &Vec<FoundFile>,
        bytes: Vec<u8>,
    ) -> (r: Result<Vec<String>, ProvidedError>)
        ensures
            final(self)@ == (ModDirectoryView {
                translations: Some(kept_files(old(self)@.translations, files@)),
                ..old(self)@
            }),
            is_provided(
                kept_files(old(self)@.translations, files@),
                lowercased(language@),
                bytes@,
                r,
            ),
    {
        let key = lowercase(language);
        self.provided_translations_under(key.as_str(), files, bytes)
    }

    /// Checks the language under the key `key`: reconciles the keys that
    /// its file provides, given the content of that file in `bytes`, with
    /// the required keys under the baseline.
    pub fn check_language_under(
        &mut self,
        key: &str,
        files: &Vec<FoundFile>,
        bytes: Vec<u8>,
        required: &Vec<String>,
        baseline: &Vec<String>,
    ) -> (r: Result<Reconciliation, ProvidedError>)
        ensures
            final(self)@ == (ModDirectoryView {
                translations: Some(kept_files(old(self)@.translations, files@)),
                ..old(self)@
            }),
            is_checked(
                kept_files(old(self)@.translations, files@),
                key@,
                bytes@,
                required@,
                baseline@,
                r,
            ),
    {
        match self.provided_translations_under(key, files, bytes) {
            Ok(provided) => Ok(reconcile(required, &provided, baseline)),
            Err(e) => Err(e),
        }
    }

    /// Checks `language`, looked up in lowercase on both sides. A language
    /// without a translation file is reported as such, and not as a language
    /// that misses nothing.
    pub fn check_language(
        &mut self,
        language: &str,
        files: &Vec<FoundFile>,
        bytes: Vec<u8>,
        required: &Vec<String>,
        baseline: &Vec<String>,
    ) -> (r: Result<Reconciliation, ProvidedError>)
        ensures
            final(self)@ == (ModDirectoryView {
                translations: Some(kept_files(old(self)@.translations, files@)),
                ..old(self)@
            }),
            is_checked(
                kept_files(old(self)@.translations, files@),
                lowercased(language@),
                bytes@,
                required@,
                baseline@,
                r,
            ),
    {
        let key = lowercase(language);
        self.check_language_under(key.as_str(), files, bytes, required, baseline)
    }

    /// The JSON documents that are searched for required keys: the
    /// auxiliary documents among `files`, in the given order, and after them
    /// the configuration document, if one was found.
    pub fn relevant_jsons(&self, files: &Vec<FoundFile>) -> (r: Vec<String>)
        ensures
            views(r@) == json_paths(files@) + match self@.config_path {
                Some(path) => seq![path],
                None => Seq::empty(),
            },
    {
        let mut out = self.find_i4_jsons(files);
        let ghost before = views(out@);
        match &self.config_path {
            Some(path) => {
                out.push(path.clone());
                assert(views(out@) =~= before + seq![path@]);
            },
            None => {
                assert(views(out@) =~= before + Seq::<Seq<char>>::empty());
            },
        }
        out
    }

    /// The JSON documents among `files`: the paths of the files whose names
    /// carry the extension `json`, in the given order.
    pub fn find_i4_jsons(&self, files: &Vec<FoundFile>) -> (r: Vec<String>)
        ensures
            views(r@) == json_paths(files@),
    {
        let mut out: Vec<String> = Vec::new();
        let mut i: usize = 0;
        assert(views(out@) =~= json_paths(files@.take(0)));
        while i < files.len()
            invariant
                i <= files@.len(),
                views(out@) == json_paths(files@.take(i as int)),
            decreases files@.len() - i,
        {
            proof {
                let next = files@.take(i + 1);
                assert(next.drop_last() =~= files@.take(i as int));
                assert(next.last() == files@[i as int]);
            }
            if has_extension(files[i].file_name.as_str(), "json") {
                let ghost before = views(out@);
                out.push(files[i].path.clone());
                assert(views(out@) =~= before.push(files@[i as int].path@));
            }
            i += 1;
        }
        assert(files@.take(files@.len() as int) =~= files@);
        out
    }

    /// The keys of `lookfor` that are not found in the mod's sources, given
    /// the outcome of the search for each of them: whether it succeeded, or
    /// `None` where it could not be run. Only a key whose search succeeded
    /// is taken out.
    pub fn ripgrep_search(&self, lookfor: Vec<String>, outcomes: &Vec<Option<bool>>) -> (r: Vec<
        String,
    >)
        ensures
            views(r@) == unfound(views(lookfor@), outcomes@),
    {
        keep_unfound(lookfor, outcomes)
    }

    /// The path of the configuration document: the first of `candidates`,
    /// which is remembered, or `None` when there is no candidate.
    pub fn find_config(&mut self, candidates: &Vec<String>) -> (r: Option<String>)
        ensures
            r is Some <==> candidates@.len() > 0,
            r is Some ==> r->Some_0@ == candidates@[0]@,
            final(self)@ == (ModDirectoryView {
                config_path: if candidates@.len() > 0 {
                    Some(candidates@[0]@)
                } else {
                    None
                },
                ..old(self)@
            }),
    {
        if candidates.len() > 0 {
            self.config_path = Some(candidates[0].clone());
            Some(candidates[0].clone())
        } else {
            self.config_path = None;
            None
        }
    }

    /// The keys that the mod requires: those that the readable documents of
    /// `sources` refer to, in ascending order, each as often as it occurs. A
    /// document that could not be read is skipped.
    pub fn all_needed_translations(&self, sources: &Vec<Option<Json>>) -> (r: Vec<String>)
        ensures
            sorted(views(r@)),
            views(r@).to_multiset() == keys_of_sources(sources@).to_multiset(),
    {
        let mut all: Vec<String> = Vec::new();
        let mut i: usize = 0;
        assert(views(all@) =~= keys_of_sources(sources@.take(0)));
        while i < sources.len()
            invariant
                i <= sources@.len(),
                views(all@) == keys_of_sources(sources@.take(i as int)),
            decreases sources@.len() - i,
        {
            proof {
                let next = sources@.take(i + 1);
                assert(next.drop_last() =~= sources@.take(i as int));
                assert(next.last() == sources@[i as int]);
            }
            match &sources[i] {
                Some(document) => {
                    let ghost before = views(all@);
                    let mut found = collect_translation_keys(document);
                    let ghost added = views(found@);
                    all.append(&mut found);
                    assert(views(all@) =~= before + added);
                },
                None => {},
            }
            i += 1;
        }
        assert(sources@.take(sources@.len() as int) =~= sources@);
        sort_keys(&all)
    }
}

/// The position of the first file under `key` in `files`, or their number
/// when there is none.
pub fn find_file(files: &Vec<LanguageFile>, key: &str) -> (r: usize)
    ensures
        r == position_of(file_views(files@), key@, 0),
        r <= files@.len(),
{
    let mut i: usize = 0;
    while i < files.len() && key_order(files[i].key.as_str(), key) != Order::Equal
        invariant
            i <= files@.len(),
            position_of(file_views(files@), key@, 0) == position_of(
                file_views(files@),
                key@,
                i as int,
            ),
        decreases files@.len() - i,
    {
        assert(file_views(files@)[i as int].key != key@);
        i += 1;
    }
    assert(i < files@.len() ==> file_views(files@)[i as int].key == key@);
    i
}

/// Puts `entry` among `files`: in the place of the file that stood under
/// the same key, or at the end when there was none.
pub fn place_file(files: &mut Vec<LanguageFile>, entry: LanguageFile)
    ensures
        file_views(final(files)@) == placed(file_views(old(files)@), entry@),
{
    let ghost before = file_views(files@);
    let ghost shown = entry@;
    let at = find_file(files, entry.key.as_str());
    if at < files.len() {
        files.set(at, entry);
        assert(file_views(files@) =~= before.update(at as int, shown));
    } else {
        files.push(entry);
        assert(file_views(files@) =~= before.push(shown));
    }
}

} // verus!

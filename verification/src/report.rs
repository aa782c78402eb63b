//! What is reported of one language: the rows of the report, and the words
//! that count missing keys, unused keys and stubs.

use vstd::prelude::*;
use vstd::string::StringExecFns;
use crate::keys::views;
use vstd::utf8::encode_utf8;
use crate::reconcile::Reconciliation;
use crate::translation::Translation;

verus! {

/// The decimal digit for `d`.
pub open spec fn digit(d: nat) -> char {
    if d == 0 {
        '0'
    } else if d == 1 {
        '1'
    } else if d == 2 {
        '2'
    } else if d == 3 {
        '3'
    } else if d == 4 {
        '4'
    } else if d == 5 {
        '5'
    } else if d == 6 {
        '6'
    } else if d == 7 {
        '7'
    } else if d == 8 {
        '8'
    } else {
        '9'
    }
}

/// The decimal numeral for `n`, without leading zeros.
pub open spec fn decimal(n: nat) -> Seq<char>
    decreases n,
{
    if n < 10 {
        seq![digit(n)]
    } else {
        decimal(n / 10).push(digit(n % 10))
    }
}

/// The words that count `n` things: `one` for a single thing, and otherwise
/// the numeral followed by `many`.
pub open spec fn counted(n: nat, one: Seq<char>, many: Seq<char>) -> Seq<char> {
    if n == 1 {
        one
    } else {
        decimal(n) + many
    }
}

/// The words that tell how many translations a language is missing.
pub open spec fn missing_count(n: nat) -> Seq<char> {
    counted(n, "1 missing translation found"@, " missing translations found"@)
}

/// The words that tell how many unused translations a language has, where
/// they are not listed.
pub open spec fn unused_count(n: nat) -> Seq<char> {
    decimal(n) + " translations"@
}

/// The words that tell how many stubs were added.
pub open spec fn stub_count(n: nat) -> Seq<char> {
    counted(n, "1 stub"@, " stubs"@)
}

/// What a row of the report is about.
#[derive(Clone, Copy, Debug, PartialEq, Eq, Structural)]
pub enum RowKind {
    /// The language and the number of its missing keys.
    Language,
    /// The missing keys.
    Missing,
    /// The unused keys.
    Unused,
}

/// What a row of the report shows beside its label.
#[derive(Debug)]
pub enum RowContent {
    /// Words to show as they are.
    Words(String),
    /// Keys to lay out in a grid as wide as the terminal allows.
    Grid(Vec<String>),
}

/// A row of the report.
#[derive(Debug)]
pub struct ReportRow {
    /// What the row is about.
    pub kind: RowKind,
    /// The label: the language, or `missing`, or `unused`.
    pub label: String,
    /// What is shown beside the label.
    pub content: RowContent,
}

/// A row's content as plain values.
pub enum ContentView {
    /// Words to show as they are.
    Words(Seq<char>),
    /// Keys to lay out in a grid.
    Grid(Seq<Seq<char>>),
}

/// A row as plain values.
pub struct RowView {
    /// What the row is about.
    pub kind: RowKind,
    /// The label.
    pub label: Seq<char>,
    /// What is shown beside the label.
    pub content: ContentView,
}

impl View for ReportRow {
    type V = RowView;

    open spec fn view(&self) -> RowView {
        RowView {
            kind: self.kind,
            label: self.label@,
            content: match self.content {
                RowContent::Words(w) => ContentView::Words(w@),
                RowContent::Grid(keys) => ContentView::Grid(views(keys@)),
            },
        }
    }
}

/// The rows of `rows` as plain values, in the same order.
pub open spec fn row_views(rows: Seq<ReportRow>) -> Seq<RowView> {
    rows.map_values(|r: ReportRow| r@)
}

/// The row that lists `keys` under `label`: nothing for no key, the key
/// itself for a single key, and for more keys either a grid of them or,
/// where `listed` is false, only their number.
pub open spec fn key_rows(kind: RowKind, label: Seq<char>, keys: Seq<Seq<char>>, listed: bool)
    -> Seq<RowView> {
    if keys.len() == 0 {
        Seq::empty()
    } else if keys.len() == 1 {
        seq![RowView { kind, label, content: ContentView::Words(keys[0]) }]
    } else if listed {
        seq![RowView { kind, label, content: ContentView::Grid(keys) }]
    } else {
        seq![RowView { kind, label, content: ContentView::Words(unused_count(keys.len())) }]
    }
}

/// The rows that report one language. A clean language has no rows.
/// Otherwise the first row names the language and counts its missing keys;
/// unless the report is quiet, a row with the missing keys and a row with
/// the unused keys follow, where there are any. More than one unused key is
/// listed only in a verbose report, and counted otherwise.
pub open spec fn report_rows_for(
    language: Seq<char>,
    missing: Seq<Seq<char>>,
    unused: Seq<Seq<char>>,
    quiet: bool,
    verbose: bool,
) -> Seq<RowView> {
    if missing.len() == 0 && unused.len() == 0 {
        Seq::empty()
    } else {
        let heading = seq![
            RowView {
                kind: RowKind::Language,
                label: language,
                content: ContentView::Words(missing_count(missing.len())),
            },
        ];
        if quiet {
            heading
        } else {
            heading + key_rows(RowKind::Missing, "missing"@, missing, true) + key_rows(
                RowKind::Unused,
                "unused"@,
                unused,
                verbose,
            )
        }
    }
}

/// The decimal digit for `d`, as a string.
fn digit_text(d: usize) -> (r: &'static str)
    requires
        d < 10,
    ensures
        r@ == seq![digit(d as nat)],
{
    proof {
        reveal_strlit("0");
        reveal_strlit("1");
        reveal_strlit("2");
        reveal_strlit("3");
        reveal_strlit("4");
        reveal_strlit("5");
        reveal_strlit("6");
        reveal_strlit("7");
        reveal_strlit("8");
        reveal_strlit("9");
    }
    let r = if d == 0 {
        "0"
    } else if d == 1 {
        "1"
    } else if d == 2 {
        "2"
    } else if d == 3 {
        "3"
    } else if d == 4 {
        "4"
    } else if d == 5 {
        "5"
    } else if d == 6 {
        "6"
    } else if d == 7 {
        "7"
    } else if d == 8 {
        "8"
    } else {
        "9"
    };
    assert(r@ =~= seq![digit(d as nat)]);
    r
}

/// The decimal numeral for `n`.
pub fn decimal_text(n: usize) -> (r: String)
    ensures
        r@ == decimal(n as nat),
    decreases n,
{
    if n < 10 {
        String::from_str(digit_text(n))
    } else {
        let mut out = decimal_text(n / 10);
        out.append(digit_text(n % 10));
        assert(out@ =~= decimal((n / 10) as nat).push(digit((n % 10) as nat)));
        out
    }
}

/// The words that count `n` things.
fn counted_text(n: usize, one: &str, many: &str) -> (r: String)
    ensures
        r@ == counted(n as nat, one@, many@),
{
    if n == 1 {
        String::from_str(one)
    } else {
        let mut out = decimal_text(n);
        out.append(many);
        out
    }
}

/// The words that tell how many translations a language is missing.
pub fn missing_count_text(n: usize) -> (r: String)
    ensures
        r@ == missing_count(n as nat),
{
    counted_text(n, "1 missing translation found", " missing translations found")
}

/// The words that tell how many stubs were added.
pub fn stub_count_text(n: usize) -> (r: String)
    ensures
        r@ == stub_count(n as nat),
{
    counted_text(n, "1 stub", " stubs")
}

/// A copy of `keys`.
fn copy_keys(keys: &Vec<String>) -> (r: Vec<String>)
    ensures
        views(r@) == views(keys@),
{
    let mut out: Vec<String> = Vec::new();
    let mut i: usize = 0;
    while i < keys.len()
        invariant
            i <= keys@.len(),
            views(out@) =~= views(keys@.take(i as int)),
        decreases keys@.len() - i,
    {
        let ghost before = views(out@);
        out.push(keys[i].clone());
        proof {
            assert(views(out@) =~= before.push(keys@[i as int]@));
            assert(views(keys@.take(i + 1)) =~= views(keys@.take(i as int)).push(
                keys@[i as int]@,
            ));
        }
        i += 1;
    }
    assert(keys@.take(keys@.len() as int) =~= keys@);
    out
}

/// Appends to `rows` the row that lists `keys` under `label`.
fn push_key_rows(
    rows: &mut Vec<ReportRow>,
    kind: RowKind,
    label: &str,
    keys: &Vec<String>,
    listed: bool,
)
    ensures
        row_views(final(rows)@) == row_views(old(rows)@) + key_rows(
            kind,
            label@,
            views(keys@),
            listed,
        ),
{
    let ghost before = row_views(rows@);
    if keys.len() == 0 {
        assert(row_views(rows@) =~= before + Seq::<RowView>::empty());
        return ;
    }
    let content = if keys.len() == 1 {
        RowContent::Words(keys[0].clone())
    } else if listed {
        RowContent::Grid(copy_keys(keys))
    } else {
        let mut words = decimal_text(keys.len());
        words.append(" translations");
        RowContent::Words(words)
    };
    let row = ReportRow { kind, label: String::from_str(label), content };
    let ghost shown = row@;
    rows.push(row);
    proof {
        assert(row_views(rows@) =~= before.push(shown));
        assert(key_rows(kind, label@, views(keys@), listed) =~= seq![shown]);
        assert(before.push(shown) =~= before + seq![shown]);
    }
}

/// The rows that report the reconciliation of `language`.
pub fn report_rows(language: &str, result: &Reconciliation, quiet: bool, verbose: bool) -> (r: Vec<
    ReportRow,
>)
    ensures
        row_views(r@) == report_rows_for(
            language@,
            views(result.missing@),
            views(result.unused@),
            quiet,
            verbose,
        ),
{
    let mut rows: Vec<ReportRow> = Vec::new();
    assert(row_views(rows@) =~= Seq::<RowView>::empty());
    if result.is_clean() {
        return rows;
    }
    let heading = ReportRow {
        kind: RowKind::Language,
        label: String::from_str(language),
        content: RowContent::Words(missing_count_text(result.missing.len())),
    };
    let ghost first = heading@;
    rows.push(heading);
    assert(row_views(rows@) =~= seq![first]);
    if quiet {
        return rows;
    }
    push_key_rows(&mut rows, RowKind::Missing, "missing", &result.missing, true);
    push_key_rows(&mut rows, RowKind::Unused, "unused", &result.unused, verbose);
    rows
}

/// The least width that labels are given.
pub open spec fn least_label_width() -> nat {
    30
}

/// The width to which the names of `files` are padded when they label the
/// lines of a listing: the length in bytes of the longest name, and the
/// least width at least.
pub open spec fn label_width(files: Seq<Translation>) -> nat
    decreases files.len(),
{
    if files.len() == 0 {
        least_label_width()
    } else {
        let before = label_width(files.drop_last());
        let name = encode_utf8(files.last()@.display_name).len();
        if name > before {
            name
        } else {
            before
        }
    }
}

/// The width to which the names of `files` are padded.
pub fn padding_for(files: &Vec<Translation>) -> (r: usize)
    ensures
        r == label_width(files@),
{
    let mut width: usize = 30;
    let mut i: usize = 0;
    assert(files@.take(0) =~= Seq::<Translation>::empty());
    while i < files.len()
        invariant
            i <= files@.len(),
            width == label_width(files@.take(i as int)),
        decreases files@.len() - i,
    {
        proof {
            let next = files@.take(i + 1);
            assert(next.drop_last() =~= files@.take(i as int));
            assert(next.last() == files@[i as int]);
        }
        let name = files[i].display().as_bytes().len();
        if name > width {
            width = name;
        }
        i += 1;
    }
    assert(files@.take(files@.len() as int) =~= files@);
    width
}

} // verus!

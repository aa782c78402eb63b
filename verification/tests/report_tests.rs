use mcm_meta_helper::reconcile::{reconcile, Reconciliation};
use mcm_meta_helper::report::{
    decimal_text, missing_count_text, report_rows, stub_count_text, ReportRow, RowContent, RowKind,
};
use mcm_meta_helper::translation::Translation;
use mcm_meta_helper::update::{update_language, Update, UpdateError};
use mcm_meta_helper::wide::EncodingError;

fn keys(items: &[&str]) -> Vec<String> {
    items.iter().map(|s| s.to_string()).collect()
}

fn wide(text: &str) -> Vec<u8> {
    text.encode_utf16().flat_map(|u| u.to_le_bytes()).collect()
}

fn shown(row: &ReportRow) -> (RowKind, String, Option<String>, Vec<String>) {
    match &row.content {
        RowContent::Words(words) => (row.kind, row.label.clone(), Some(words.clone()), Vec::new()),
        RowContent::Grid(grid) => (row.kind, row.label.clone(), None, grid.clone()),
    }
}

fn rows(missing: &[&str], unused: &[&str], quiet: bool, verbose: bool) -> Vec<(RowKind, String, Option<String>, Vec<String>)> {
    let result = Reconciliation { missing: keys(missing), unused: keys(unused) };
    report_rows("french", &result, quiet, verbose).iter().map(shown).collect()
}

fn words(kind: RowKind, label: &str, text: &str) -> (RowKind, String, Option<String>, Vec<String>) {
    (kind, label.to_string(), Some(text.to_string()), Vec::new())
}

fn grid(kind: RowKind, label: &str, items: &[&str]) -> (RowKind, String, Option<String>, Vec<String>) {
    (kind, label.to_string(), None, keys(items))
}

#[test]
fn numbers_are_written_in_decimal() {
    assert_eq!(decimal_text(0), "0");
    assert_eq!(decimal_text(7), "7");
    assert_eq!(decimal_text(10), "10");
    assert_eq!(decimal_text(209), "209");
    assert_eq!(decimal_text(1234567890), "1234567890");
    assert_eq!(decimal_text(usize::MAX), usize::MAX.to_string());
}

#[test]
fn counts_tell_one_from_many() {
    assert_eq!(missing_count_text(0), "0 missing translations found");
    assert_eq!(missing_count_text(1), "1 missing translation found");
    assert_eq!(missing_count_text(2), "2 missing translations found");
    assert_eq!(missing_count_text(31), "31 missing translations found");
    assert_eq!(stub_count_text(1), "1 stub");
    assert_eq!(stub_count_text(0), "0 stubs");
    assert_eq!(stub_count_text(12), "12 stubs");
}

#[test]
fn a_clean_language_has_no_rows() {
    assert!(rows(&[], &[], false, false).is_empty());
    assert!(rows(&[], &[], true, true).is_empty());
}

#[test]
fn a_quiet_report_has_the_heading_only() {
    assert_eq!(
        rows(&["$a", "$b"], &["$c"], true, true),
        vec![words(RowKind::Language, "french", "2 missing translations found")]
    );
    assert_eq!(
        rows(&[], &["$c"], true, false),
        vec![words(RowKind::Language, "french", "0 missing translations found")]
    );
}

#[test]
fn single_keys_are_shown_as_they_are() {
    assert_eq!(
        rows(&["$a"], &["$c"], false, false),
        vec![
            words(RowKind::Language, "french", "1 missing translation found"),
            words(RowKind::Missing, "missing", "$a"),
            words(RowKind::Unused, "unused", "$c"),
        ]
    );
}

#[test]
fn several_keys_are_laid_out_or_counted() {
    assert_eq!(
        rows(&["$a", "$b"], &["$c", "$d", "$e"], false, false),
        vec![
            words(RowKind::Language, "french", "2 missing translations found"),
            grid(RowKind::Missing, "missing", &["$a", "$b"]),
            words(RowKind::Unused, "unused", "3 translations"),
        ]
    );
    assert_eq!(
        rows(&[], &["$c", "$d"], false, true),
        vec![
            words(RowKind::Language, "french", "0 missing translations found"),
            grid(RowKind::Unused, "unused", &["$c", "$d"]),
        ]
    );
    assert_eq!(
        rows(&["$a", "$b", "$c"], &[], false, true),
        vec![
            words(RowKind::Language, "french", "3 missing translations found"),
            grid(RowKind::Missing, "missing", &["$a", "$b", "$c"]),
        ]
    );
}

#[test]
fn report_rows_follow_a_reconciliation() {
    let result = reconcile(&keys(&["$Foo", "$Bar", "$Baz"]), &keys(&["$Bar", "$Qux"]), &keys(&["$Baz"]));
    let found: Vec<(RowKind, String, Option<String>, Vec<String>)> =
        report_rows("english", &result, false, false).iter().map(shown).collect();
    assert_eq!(
        found,
        vec![
            words(RowKind::Language, "english", "1 missing translation found"),
            words(RowKind::Missing, "missing", "$Foo"),
            words(RowKind::Unused, "unused", "$Qux"),
        ]
    );
}

#[test]
fn an_unread_file_is_not_updated() {
    let mut t = Translation::new("x_english.txt", "english");
    let result = update_language(&mut t, &keys(&["$a"]), &keys(&[]));
    assert!(matches!(result, Err(UpdateError::Unread)));
    assert!(!t.is_loaded());
}

#[test]
fn a_complete_file_needs_nothing() {
    let mut t = Translation::new("x_english.txt", "english");
    assert_eq!(t.load_translations(wide("$a\tone\r\n$b\ttwo\r\n")), Ok(()));
    let result = update_language(&mut t, &keys(&["$b", "$a", "$base"]), &keys(&["$base"]));
    assert!(matches!(result, Ok(Update::NoneNeeded)));
    assert!(t.is_loaded());
    assert_eq!(t.lines().len(), 2);
}

#[test]
fn missing_keys_are_stubbed_in_order() {
    let mut t = Translation::new("x_english.txt", "english");
    assert_eq!(t.load_translations(wide("$b\ttwo\r\n")), Ok(()));
    let result = update_language(&mut t, &keys(&["$c", "$b", "$a", "$c", "$base"]), &keys(&["$base"]));
    match result {
        Ok(Update::Append { stubs, bytes }) => {
            assert_eq!(stubs, keys(&["$a", "$c"]));
            assert_eq!(
                bytes,
                wide("\r\n---------- new translation stubs ----------\r\n\r\n$a\ttranslation for a\r\n$c\ttranslation for c\r\n")
            );
        }
        other => panic!("stubs were to be appended, not {:?}", other),
    }
    assert!(!t.is_loaded());
    assert!(t.lines().is_empty());
}

#[test]
fn stubs_that_cannot_be_written_change_nothing() {
    let mut t = Translation::new("x_english.txt", "english");
    assert_eq!(t.load_translations(wide("$b\ttwo\r\n")), Ok(()));
    let result = update_language(&mut t, &keys(&["$\u{1f600}"]), &keys(&[]));
    assert!(matches!(result, Err(UpdateError::Encoding(EncodingError::Unrepresentable))));
    assert!(t.is_loaded());
    assert_eq!(t.lines().len(), 1);
}

#[test]
fn an_updated_file_needs_no_second_update() {
    let required = keys(&["$c", "$b", "$a"]);
    let baseline = keys(&[]);
    let mut file = wide("$b\ttwo");
    let mut t = Translation::new("x_english.txt", "english");
    assert_eq!(t.load_translations(file.clone()), Ok(()));
    match update_language(&mut t, &required, &baseline) {
        Ok(Update::Append { stubs, bytes }) => {
            assert_eq!(stubs.len(), 2);
            file.extend(bytes);
        }
        other => panic!("stubs were to be appended, not {:?}", other),
    }
    assert_eq!(t.load_translations(file), Ok(()));
    assert!(matches!(update_language(&mut t, &required, &baseline), Ok(Update::NoneNeeded)));
    let provided = t.provided_translations().expect("the file was read");
    assert!(reconcile(&required, &provided, &baseline).is_clean());
}

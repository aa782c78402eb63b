use mcm_meta_helper::baseline::filter_skyui_translations;
use mcm_meta_helper::keys::{insert_unique, insertion_point, sort_keys};
use mcm_meta_helper::order::{key_order, Order};
use mcm_meta_helper::reconcile::{key_index, keys_outside, reconcile, reconcile_all, LanguageKeys};

fn keys(items: &[&str]) -> Vec<String> {
    items.iter().map(|s| s.to_string()).collect()
}

#[test]
fn reconcile_reports_missing_and_unused() {
    let required = keys(&["$Foo", "$Bar", "$Baz"]);
    let baseline = keys(&["$Baz"]);
    let provided = keys(&["$Bar", "$Qux"]);
    let result = reconcile(&required, &provided, &baseline);
    assert_eq!(result.missing, keys(&["$Foo"]));
    assert_eq!(result.unused, keys(&["$Qux"]));
    assert!(!result.is_clean());
    assert!(!result.passes());
}

#[test]
fn reconcile_keeps_missing_apart_from_provided() {
    let required = keys(&["$d", "$a", "$c", "$b", "$a"]);
    let provided = keys(&["$c", "$z", "$y", "$a"]);
    let baseline = keys(&["$b"]);
    let result = reconcile(&required, &provided, &baseline);
    assert_eq!(result.missing, keys(&["$d"]));
    assert_eq!(result.unused, keys(&["$y", "$z"]));
    for key in &result.missing {
        assert!(!provided.contains(key));
    }
    for key in &result.unused {
        assert!(!required.contains(key));
    }
}

#[test]
fn reconcile_does_not_excuse_unused_baseline_keys() {
    let required = keys(&["$Foo"]);
    let provided = keys(&["$Foo", "$Baz"]);
    let baseline = keys(&["$Baz"]);
    let result = reconcile(&required, &provided, &baseline);
    assert!(result.missing.is_empty());
    assert_eq!(result.unused, keys(&["$Baz"]));
    assert!(result.passes());
    assert!(!result.is_clean());
}

#[test]
fn reconcile_of_nothing_is_clean() {
    let result = reconcile(&keys(&[]), &keys(&[]), &keys(&["$Baz"]));
    assert!(result.is_clean());
    assert!(result.passes());
}

#[test]
fn reconcile_sorts_and_drops_duplicates() {
    let required = keys(&["$b", "$a", "$b", "$C", "$a"]);
    let result = reconcile(&required, &keys(&[]), &keys(&[]));
    assert_eq!(result.missing, keys(&["$C", "$a", "$b"]));
}

#[test]
fn reconcile_all_reports_every_language() {
    let required = keys(&["$Foo", "$Bar"]);
    let baseline = keys(&[]);
    let languages = vec![
        LanguageKeys { language: "english".to_string(), provided: keys(&["$Foo"]) },
        LanguageKeys { language: "french".to_string(), provided: keys(&["$Foo", "$Bar"]) },
        LanguageKeys { language: "german".to_string(), provided: keys(&["$Qux"]) },
    ];
    let (reports, passed) = reconcile_all(&required, &languages, &baseline);
    assert!(!passed);
    assert_eq!(reports.len(), 3);
    assert_eq!(reports[0].missing, keys(&["$Bar"]));
    assert!(reports[1].is_clean());
    assert_eq!(reports[2].missing, keys(&["$Bar", "$Foo"]));
    assert_eq!(reports[2].unused, keys(&["$Qux"]));
}

#[test]
fn reconcile_all_passes_when_nothing_is_missing() {
    let required = keys(&["$Foo"]);
    let languages = vec![
        LanguageKeys { language: "english".to_string(), provided: keys(&["$Foo", "$Extra"]) },
        LanguageKeys { language: "french".to_string(), provided: keys(&["$Foo"]) },
    ];
    let (reports, passed) = reconcile_all(&required, &languages, &keys(&[]));
    assert!(passed);
    assert_eq!(reports.len(), 2);
    let (none, passed_none) = reconcile_all(&required, &Vec::new(), &keys(&[]));
    assert!(passed_none);
    assert!(none.is_empty());
}

#[test]
fn keys_outside_takes_two_exclusions() {
    let first = key_index(&keys(&["$a"]));
    let second = key_index(&keys(&["$c"]));
    let left = keys_outside(&keys(&["$c", "$b", "$a", "$d", "$b"]), &first, &second);
    assert_eq!(left, keys(&["$b", "$d"]));
}

#[test]
fn key_order_follows_the_bytes() {
    assert_eq!(key_order("$Bar", "$Baz"), Order::Less);
    assert_eq!(key_order("$Baz", "$Bar"), Order::Greater);
    assert_eq!(key_order("$Bar", "$Bar"), Order::Equal);
    assert_eq!(key_order("$Ba", "$Bar"), Order::Less);
    assert_eq!(key_order("", "$"), Order::Less);
    assert_eq!(key_order("", ""), Order::Equal);
    assert_eq!(key_order("Z", "a"), Order::Less);
    assert_eq!(key_order("z", "\u{e9}"), Order::Less);
    assert_eq!(key_order("\u{ffff}", "\u{10000}"), Order::Less);
}

#[test]
fn sort_keys_agrees_with_the_standard_sort() {
    let input = keys(&["$b", "$a", "", "$B", "$a", "\u{e9}t\u{e9}", "$aa", "$\u{4e2d}", "$A"]);
    let mut expected = input.clone();
    expected.sort();
    assert_eq!(sort_keys(&input), expected);
    assert_eq!(sort_keys(&keys(&[])), keys(&[]));
}

#[test]
fn insertion_point_and_unique_insertion() {
    let sorted = keys(&["$a", "$c", "$e"]);
    assert_eq!(insertion_point(&sorted, "$"), 0);
    assert_eq!(insertion_point(&sorted, "$a"), 0);
    assert_eq!(insertion_point(&sorted, "$b"), 1);
    assert_eq!(insertion_point(&sorted, "$e"), 2);
    assert_eq!(insertion_point(&sorted, "$f"), 3);
    let mut grown = sorted.clone();
    insert_unique(&mut grown, "$d".to_string());
    insert_unique(&mut grown, "$a".to_string());
    assert_eq!(grown, keys(&["$a", "$c", "$d", "$e"]));
}

#[test]
fn filter_skyui_translations_keeps_order_and_duplicates() {
    let baseline = keys(&["$Gold", "$Armor"]);
    let input = keys(&["$Mine", "$Gold", "$Yours", "$Mine", "$Armor"]);
    assert_eq!(filter_skyui_translations(&input, &baseline), keys(&["$Mine", "$Yours", "$Mine"]));
    assert_eq!(filter_skyui_translations(&input, &keys(&[])), input);
}

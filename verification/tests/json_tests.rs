use mcm_meta_helper::json::{
    collect_translation_keys, keys_from_array, keys_from_mapping, starts_with_sentinel, Json,
};
use mcm_meta_helper::moddir::ModDirectory;

fn text(s: &str) -> Json {
    Json::Text(s.to_string())
}

fn object(members: Vec<(&str, Json)>) -> Json {
    Json::Object(members.into_iter().map(|(k, v)| (k.to_string(), v)).collect())
}

#[test]
fn extractor_finds_nested_reference() {
    let document = object(vec![(
        "a",
        object(vec![("b", Json::Array(vec![text("$Foo"), text("bar")]))]),
    )]);
    assert_eq!(collect_translation_keys(&document), vec!["$Foo".to_string()]);
}

#[test]
fn extractor_ignores_names_and_other_scalars() {
    let document = object(vec![
        ("$NotAKey", Json::Number("12".to_string())),
        ("flag", Json::Bool(true)),
        ("nothing", Json::Null),
        ("plain", text("no sentinel")),
        ("late", text("a$b")),
        ("empty", text("")),
    ]);
    assert!(collect_translation_keys(&document).is_empty());
}

#[test]
fn extractor_keeps_order_and_duplicates_and_trims() {
    let document = Json::Array(vec![
        text("$B  "),
        object(vec![("x", text("$A\t")), ("y", Json::Array(vec![text("$B"), text(" $C")]))]),
        text("$A"),
    ]);
    let found = collect_translation_keys(&document);
    assert_eq!(found, vec!["$B", "$A", "$B", "$A"]);
    for key in &found {
        assert!(key.starts_with('$'));
    }
}

#[test]
fn extractor_takes_a_lone_string() {
    assert_eq!(collect_translation_keys(&text("$Alone ")), vec!["$Alone".to_string()]);
    assert!(collect_translation_keys(&text("alone")).is_empty());
    assert!(collect_translation_keys(&Json::Null).is_empty());
}

#[test]
fn extractor_entry_points_for_arrays_and_objects() {
    let items = vec![text("$One"), Json::Array(vec![text("$Two")])];
    assert_eq!(keys_from_array(&items), vec!["$One", "$Two"]);
    let members = vec![("k".to_string(), text("$Three")), ("$Four".to_string(), Json::Null)];
    assert_eq!(keys_from_mapping(&members), vec!["$Three"]);
}

#[test]
fn sentinel_is_the_dollar_sign() {
    assert!(starts_with_sentinel("$"));
    assert!(starts_with_sentinel("$x"));
    assert!(!starts_with_sentinel(""));
    assert!(!starts_with_sentinel(" $x"));
    assert!(!starts_with_sentinel("x$"));
}

#[test]
fn all_needed_translations_skips_unreadable_sources_and_sorts() {
    let moddir = ModDirectory::new("/mods/example", "example", "/mods/example/data");
    let sources = vec![
        Some(Json::Array(vec![text("$b"), text("$a")])),
        None,
        Some(object(vec![("k", text("$a")), ("l", text("$C"))])),
    ];
    assert_eq!(moddir.all_needed_translations(&sources), vec!["$C", "$a", "$a", "$b"]);
    assert!(moddir.all_needed_translations(&Vec::new()).is_empty());
}

use mcm_meta_helper::moddir::{
    find_data_dir, find_file, is_data_dir, is_relevant_dir, marks_data_dir, marks_ignored_dir,
    place_file, DirTree, LanguageFile, ModDirectory, ProvidedError,
};
use mcm_meta_helper::translation::Translation;
use mcm_meta_helper::names::{extension, has_extension, language_tag, FoundFile};
use mcm_meta_helper::search::{keep_unfound, pattern_for};
use mcm_meta_helper::wide::EncodingError;

fn found(path: &str, file_name: &str) -> FoundFile {
    FoundFile { path: path.to_string(), file_name: file_name.to_string() }
}

fn wide(text: &str) -> Vec<u8> {
    text.encode_utf16().flat_map(|u| u.to_le_bytes()).collect()
}

fn listing() -> Vec<FoundFile> {
    vec![
        found("/t/Mod_french.txt", "Mod_french.txt"),
        found("/t/readme.txt", "readme.txt"),
        found("/t/Mod_spanish.bak", "Mod_spanish.bak"),
        found("/t/Mod_english.txt", "Mod_english.txt"),
        found("/t/Other_french.txt", "Other_french.txt"),
        found("/t/Mod_GERMAN.txt", "Mod_GERMAN.txt"),
    ]
}

#[test]
fn language_tag_follows_the_first_underscore() {
    assert_eq!(language_tag("Mod_english.txt"), Some("english".to_string()));
    assert_eq!(language_tag("My_Mod_english.txt"), Some("Mod_english".to_string()));
    assert_eq!(language_tag("readme.txt"), None);
    assert_eq!(language_tag("Mod_.txt"), Some("".to_string()));
    assert_eq!(language_tag("_x.txt"), Some("x".to_string()));
    assert_eq!(language_tag("_x"), None);
    assert_eq!(language_tag("Mod_english.TXT"), None);
    assert_eq!(language_tag("Mod_english.json"), None);
    assert_eq!(language_tag(".txt"), None);
    assert_eq!(language_tag(""), None);
    assert_eq!(language_tag("a_b.txt.txt"), Some("b.txt".to_string()));
    assert_eq!(language_tag("a.b_c.txt"), Some("c".to_string()));
}

#[test]
fn extensions_follow_the_last_dot() {
    assert_eq!(extension("config.json"), Some("json".to_string()));
    assert_eq!(extension("a.b.c"), Some("c".to_string()));
    assert_eq!(extension("trailing."), Some("".to_string()));
    assert_eq!(extension(".hidden"), None);
    assert_eq!(extension(".hidden.txt"), Some("txt".to_string()));
    assert_eq!(extension("plain"), None);
    assert_eq!(extension(""), None);
    assert_eq!(extension(".."), None);
    assert_eq!(extension("..."), Some("".to_string()));
    assert_eq!(extension("."), None);
    for name in ["config.json", "a.b.c", "trailing.", ".hidden", ".hidden.txt", "plain", "", "...", "x..y"] {
        let expected = std::path::Path::new(name).extension().map(|e| e.to_string_lossy().to_string());
        assert_eq!(extension(name), expected, "for {:?}", name);
    }
    assert!(has_extension("x.json", "json"));
    assert!(!has_extension("x.json", "JSON"));
    assert!(!has_extension("json", "json"));
    assert!(has_extension("x.", ""));
}

#[test]
fn json_documents_are_picked_by_extension() {
    let moddir = ModDirectory::new("/mods/example", "example", "/mods/example");
    let files = vec![
        found("/i4/one.json", "one.json"),
        found("/i4/notes.txt", "notes.txt"),
        found("/i4/.json", ".json"),
        found("/i4/two.JSON", "two.JSON"),
        found("/i4/three.old.json", "three.old.json"),
    ];
    assert_eq!(moddir.find_i4_jsons(&files), vec!["/i4/one.json", "/i4/three.old.json"]);
    assert!(moddir.find_i4_jsons(&Vec::new()).is_empty());
}

#[test]
fn translation_files_are_kept_by_language() {
    let moddir = ModDirectory::new("/mods/example", "example", "/mods/example");
    let files = moddir.translation_files(&listing());
    let seen: Vec<(String, String, String, String)> = files
        .iter()
        .map(|f| {
            (
                f.key.clone(),
                f.file.language().to_string(),
                f.file.display().to_string(),
                f.file.path().to_string(),
            )
        })
        .collect();
    assert_eq!(
        seen,
        vec![
            (
                "french".to_string(),
                "french".to_string(),
                "Other_french.txt".to_string(),
                "/t/Other_french.txt".to_string()
            ),
            (
                "english".to_string(),
                "english".to_string(),
                "Mod_english.txt".to_string(),
                "/t/Mod_english.txt".to_string()
            ),
            (
                "german".to_string(),
                "GERMAN".to_string(),
                "Mod_GERMAN.txt".to_string(),
                "/t/Mod_GERMAN.txt".to_string()
            ),
        ]
    );
    assert!(files.iter().all(|f| !f.file.is_loaded()));
    assert!(moddir.translation_files(&Vec::new()).is_empty());
}

#[test]
fn tags_that_differ_in_case_are_one_language() {
    let moddir = ModDirectory::new("/mods/example", "example", "/mods/example");
    let files = vec![
        found("/t/a_English.txt", "a_English.txt"),
        found("/t/a_french.txt", "a_french.txt"),
        found("/t/b_ENGLISH.txt", "b_ENGLISH.txt"),
    ];
    let kept = moddir.translation_files(&files);
    assert_eq!(kept.len(), 2);
    assert_eq!(kept[0].key, "english");
    assert_eq!(kept[0].file.language(), "ENGLISH");
    assert_eq!(kept[0].file.display(), "b_ENGLISH.txt");
    assert_eq!(kept[1].key, "french");
    assert_eq!(moddir.languages(&files), vec!["english", "french"]);
}

#[test]
fn files_are_placed_under_their_keys() {
    let mut files: Vec<LanguageFile> = Vec::new();
    let file = |key: &str, name: &str| LanguageFile {
        key: key.to_string(),
        file: Translation::named(name, Some(name.to_string()), key),
    };
    place_file(&mut files, file("english", "one"));
    place_file(&mut files, file("french", "two"));
    place_file(&mut files, file("english", "three"));
    place_file(&mut files, file("English", "four"));
    let seen: Vec<(String, String)> =
        files.iter().map(|f| (f.key.clone(), f.file.display().to_string())).collect();
    assert_eq!(
        seen,
        vec![
            ("english".to_string(), "three".to_string()),
            ("french".to_string(), "two".to_string()),
            ("English".to_string(), "four".to_string()),
        ]
    );
    assert_eq!(find_file(&files, "english"), 0);
    assert_eq!(find_file(&files, "French"), 3);
    assert_eq!(find_file(&files, "English"), 2);
    assert_eq!(find_file(&Vec::new(), "english"), 0);
}

#[test]
fn languages_are_sorted() {
    let moddir = ModDirectory::new("/mods/example", "example", "/mods/example");
    assert_eq!(moddir.languages(&listing()), vec!["english", "french", "german"]);
    assert!(moddir.languages(&Vec::new()).is_empty());
}

#[test]
fn moddir_remembers_what_it_was_given() {
    let mut moddir = ModDirectory::new("/mods/example", "example", "/mods/example/data");
    assert_eq!(moddir.name(), "example");
    assert_eq!(moddir.modpath(), "/mods/example");
    assert_eq!(moddir.datadir(), "/mods/example/data");
    assert!(!moddir.is_listed());
    assert_eq!(moddir.find_config(&Vec::new()), None);
    assert_eq!(
        moddir.find_config(&vec!["/a/config.json".to_string(), "/b/config.json".to_string()]),
        Some("/a/config.json".to_string())
    );
}

#[test]
fn translation_file_for_answers_from_the_first_listing() {
    let mut moddir = ModDirectory::new("/mods/example", "example", "/mods/example");
    let file = moddir.translation_file_for("english", &listing()).expect("there is an english file");
    assert_eq!(file.display(), "Mod_english.txt");
    assert!(moddir.is_listed());
    let german = moddir.translation_file_for("german", &listing()).expect("there is a german file");
    assert_eq!(german.language(), "GERMAN");
    assert_eq!(german.display(), "Mod_GERMAN.txt");
    assert!(moddir.translation_file_for("GERMAN", &listing()).is_some());
    assert!(moddir.translation_file_for("German", &listing()).is_some());
    assert!(moddir.translation_file_for("ENGLISH", &listing()).is_some());
    assert!(moddir.translation_file_for("klingon", &listing()).is_none());
    let later = moddir.translation_file_for("french", &Vec::new()).expect("the listing was kept");
    assert_eq!(later.path(), "/t/Other_french.txt");
    let mut fresh = ModDirectory::new("/mods/example", "example", "/mods/example");
    assert!(fresh.translation_file_for("french", &Vec::new()).is_none());
    assert!(fresh.translation_file_for("french", &listing()).is_none());
}

#[test]
fn a_file_in_upper_case_is_found_in_any_case() {
    let files = vec![found("/t/mymod_ENGLISH.txt", "mymod_ENGLISH.txt")];
    let bytes = wide("$Foo\tfoo\r\n");
    let mut moddir = ModDirectory::new("/mods/example", "example", "/mods/example");
    assert_eq!(
        moddir.provided_translations_for("english", &files, bytes.clone()),
        Ok(vec!["$Foo".to_string()])
    );
    assert_eq!(
        moddir.provided_translations_for("ENGLISH", &files, bytes.clone()),
        Ok(vec!["$Foo".to_string()])
    );
    assert_eq!(
        moddir.provided_translations_for("English", &files, bytes),
        Ok(vec!["$Foo".to_string()])
    );
}

#[test]
fn provided_translations_for_looks_up_in_lowercase() {
    let mut moddir = ModDirectory::new("/mods/example", "example", "/mods/example");
    let bytes = wide("$One\tone\r\n$Two\ttwo\r\n$One\tagain\r\n");
    assert_eq!(
        moddir.provided_translations_for("ENGLISH", &listing(), bytes.clone()),
        Ok(vec!["$One".to_string(), "$Two".to_string()])
    );
    assert_eq!(
        moddir.provided_translations_for("German", &listing(), bytes.clone()),
        Ok(vec!["$One".to_string(), "$Two".to_string()])
    );
    assert_eq!(
        moddir.provided_translations_for("klingon", &listing(), bytes.clone()),
        Err(ProvidedError::NoSuchLanguage)
    );
    assert_eq!(moddir.provided_translations_for("french", &listing(), Vec::new()), Ok(Vec::new()));
    assert_eq!(
        moddir.provided_translations_for("french", &listing(), vec![0x41, 0x00, 0x42]),
        Err(ProvidedError::Encoding(EncodingError::NotWide))
    );
    assert_eq!(
        moddir.provided_translations_for("french", &listing(), wide("\u{4e2d}\u{6587}")),
        Err(ProvidedError::Encoding(EncodingError::BufferOverflow))
    );
}

#[test]
fn data_directories_are_told_by_their_interface_folder() {
    assert!(is_data_dir(&vec!["scripts".to_string(), "Interface".to_string()]));
    assert!(is_data_dir(&vec!["INTERFACE".to_string()]));
    assert!(!is_data_dir(&vec!["interfaces".to_string(), "mcm".to_string()]));
    assert!(!is_data_dir(&Vec::new()));
    assert!(is_relevant_dir("data"));
    assert!(is_relevant_dir("Interface"));
    assert!(!is_relevant_dir(".git"));
    assert!(!is_relevant_dir("Target"));
    assert!(!is_relevant_dir("build"));
    assert!(!is_relevant_dir("EXTERN"));
    assert!(is_relevant_dir("builds"));
    assert!(is_relevant_dir(""));
    assert!(marks_data_dir("interface"));
    assert!(!marks_data_dir("Interface"));
    assert!(!marks_data_dir("interfac"));
    assert!(marks_ignored_dir(".git"));
    assert!(marks_ignored_dir("."));
    assert!(marks_ignored_dir("target"));
    assert!(marks_ignored_dir("build"));
    assert!(marks_ignored_dir("extern"));
    assert!(!marks_ignored_dir("Target"));
    assert!(!marks_ignored_dir("external"));
    assert!(!marks_ignored_dir(""));
}

#[test]
fn provided_translations_under_takes_the_key_as_it_is() {
    let mut moddir = ModDirectory::new("/mods/example", "example", "/mods/example");
    let bytes = wide("$One\tone\r\n");
    assert_eq!(
        moddir.provided_translations_under("german", &listing(), bytes.clone()),
        Ok(vec!["$One".to_string()])
    );
    assert_eq!(
        moddir.provided_translations_under("GERMAN", &listing(), bytes.clone()),
        Err(ProvidedError::NoSuchLanguage)
    );
    assert_eq!(
        moddir.provided_translations_under("ENGLISH", &listing(), bytes),
        Err(ProvidedError::NoSuchLanguage)
    );
    assert!(moddir.translation_file_under("english", &listing()).is_some());
    assert!(moddir.translation_file_under("English", &listing()).is_none());
}

#[test]
fn relevant_jsons_end_with_the_configuration() {
    let mut moddir = ModDirectory::new("/mods/example", "example", "/mods/example");
    let files = vec![
        found("/i4/one.json", "one.json"),
        found("/i4/notes.txt", "notes.txt"),
        found("/i4/two.json", "two.json"),
    ];
    assert_eq!(moddir.relevant_jsons(&files), vec!["/i4/one.json", "/i4/two.json"]);
    moddir.find_config(&vec!["/mcm/config/x/config.json".to_string()]);
    assert_eq!(
        moddir.relevant_jsons(&files),
        vec!["/i4/one.json", "/i4/two.json", "/mcm/config/x/config.json"]
    );
    assert_eq!(moddir.relevant_jsons(&Vec::new()), vec!["/mcm/config/x/config.json"]);
    moddir.find_config(&Vec::new());
    assert!(moddir.relevant_jsons(&Vec::new()).is_empty());
}

fn dir(path: &str, children: Vec<DirTree>) -> DirTree {
    let name = path.rsplit('/').next().unwrap_or_default().to_string();
    DirTree { path: path.to_string(), name, children }
}

#[test]
fn the_data_directory_is_the_first_with_an_interface() {
    let top = dir("/mod", vec![dir("/mod/Interface", vec![]), dir("/mod/src", vec![])]);
    assert_eq!(find_data_dir(&top), Some("/mod".to_string()));

    let nested = dir(
        "/mod",
        vec![
            dir("/mod/docs", vec![dir("/mod/docs/img", vec![])]),
            dir("/mod/dist", vec![dir("/mod/dist/data", vec![dir("/mod/dist/data/INTERFACE", vec![])])]),
            dir("/mod/other", vec![dir("/mod/other/interface", vec![])]),
        ],
    );
    assert_eq!(find_data_dir(&nested), Some("/mod/dist/data".to_string()));

    let hidden = dir(
        "/mod",
        vec![
            dir("/mod/.git", vec![dir("/mod/.git/interface", vec![])]),
            dir("/mod/Target", vec![dir("/mod/Target/interface", vec![])]),
            dir("/mod/build", vec![dir("/mod/build/interface", vec![])]),
            dir("/mod/extern", vec![dir("/mod/extern/interface", vec![])]),
        ],
    );
    assert_eq!(find_data_dir(&hidden), None);

    assert_eq!(find_data_dir(&dir("/mod", vec![])), None);
    assert_eq!(find_data_dir(&dir("/interface", vec![])), None);
    let ignored_top = dir("/x/build", vec![dir("/x/build/interface", vec![])]);
    assert_eq!(find_data_dir(&ignored_top), Some("/x/build".to_string()));
}

#[test]
fn search_patterns_escape_the_sentinel() {
    assert_eq!(pattern_for("$Key"), "\\$Key");
    assert_eq!(pattern_for("$A$B$"), "\\$A\\$B\\$");
    assert_eq!(pattern_for("plain"), "plain");
    assert_eq!(pattern_for(""), "");
    assert_eq!(pattern_for("$"), "\\$");
    assert_eq!(pattern_for("\u{e9}$\u{e9}"), "\u{e9}\\$\u{e9}");
    for key in ["$Key", "a$$b", "", "no sentinel", "$"] {
        assert_eq!(pattern_for(key), key.replace('$', "\\$"));
    }
}

#[test]
fn keys_found_by_the_search_are_taken_out() {
    let moddir = ModDirectory::new("/mods/example", "example", "/mods/example");
    let lookfor: Vec<String> = ["$a", "$b", "$c", "$d", "$e"].iter().map(|s| s.to_string()).collect();
    let outcomes = vec![Some(true), Some(false), None, Some(true)];
    assert_eq!(moddir.ripgrep_search(lookfor.clone(), &outcomes), vec!["$b", "$c", "$e"]);
    assert_eq!(keep_unfound(lookfor.clone(), &Vec::new()), lookfor);
    assert!(keep_unfound(Vec::new(), &outcomes).is_empty());
    assert!(keep_unfound(lookfor, &vec![Some(true); 5]).is_empty());
}

#[test]
fn a_language_without_a_file_is_not_a_clean_language() {
    let required = vec!["$One".to_string(), "$Two".to_string(), "$Base".to_string()];
    let baseline = vec!["$Base".to_string()];
    let mut moddir = ModDirectory::new("/mods/example", "example", "/mods/example");
    let bytes = wide("$One\tone\r\n$Extra\textra\r\n");
    let found = moddir
        .check_language("GERMAN", &listing(), bytes.clone(), &required, &baseline)
        .expect("there is a german file");
    assert_eq!(found.missing, vec!["$Two"]);
    assert_eq!(found.unused, vec!["$Extra"]);
    let none = moddir.check_language("klingon", &listing(), bytes.clone(), &required, &baseline);
    assert!(matches!(none, Err(ProvidedError::NoSuchLanguage)));
    let clean = moddir
        .check_language("french", &listing(), wide("$One\t1\r\n$Two\t2\r\n"), &required, &baseline)
        .expect("there is a french file");
    assert!(clean.is_clean());
    let odd = moddir.check_language("french", &listing(), vec![1, 2, 3], &required, &baseline);
    assert!(matches!(odd, Err(ProvidedError::Encoding(EncodingError::NotWide))));
    let under = moddir.check_language_under("GERMAN", &listing(), bytes, &required, &baseline);
    assert!(matches!(under, Err(ProvidedError::NoSuchLanguage)));
}

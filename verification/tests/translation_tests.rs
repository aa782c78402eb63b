use mcm_meta_helper::line::{read_line, read_lines, write_line, write_lines, Line};
use mcm_meta_helper::stub::{strip_sentinel, stub_text};
use mcm_meta_helper::text::{trim_str, CharClass};
use mcm_meta_helper::translation::Translation;
use mcm_meta_helper::wide::{
    bytes_from_units, decode_wide, encode_wide, pair_up, units_after_cast, units_from_bytes,
    wide_text, EncodingError,
};

fn wide(text: &str) -> Vec<u8> {
    text.encode_utf16().flat_map(|u| u.to_le_bytes()).collect()
}

fn pairs(t: &Translation) -> Vec<(String, String)> {
    let map = t.translations().expect("the file was read");
    let keys = t.provided_translations().expect("the file was read");
    keys.iter().map(|k| (k.clone(), map.get(k.as_str()).expect("a provided key").clone())).collect()
}

fn entry(key: &str, value: &str) -> (String, String) {
    (key.to_string(), value.to_string())
}

fn shape(line: &Line) -> (Option<String>, String) {
    match line {
        Line::Entry { key, value } => (Some(key.clone()), value.clone()),
        Line::Passthrough { text } => (None, text.clone()),
    }
}

#[test]
fn empty_file_provides_nothing() {
    let mut t = Translation::new("/mods/x/Interface/Translations/x_english.txt", "english");
    assert!(!t.is_loaded());
    assert!(t.translations().is_none());
    assert!(t.provided_translations().is_none());
    assert_eq!(t.load_translations(Vec::new()), Ok(()));
    assert!(t.is_loaded());
    assert!(t.lines().is_empty());
    assert_eq!(t.provided_translations(), Some(Vec::new()));
    assert!(t.translations().expect("loaded").is_empty());
}

#[test]
fn odd_byte_count_is_an_encoding_error() {
    let mut t = Translation::new("x_english.txt", "english");
    let mut bytes = wide("$Bar\tvaleur\r\n");
    bytes.push(0x41);
    assert_eq!(t.load_translations(bytes), Err(EncodingError::NotWide));
    assert!(!t.is_loaded());
    assert!(t.lines().is_empty());
    assert_eq!(t.load_translations(vec![0x41]), Err(EncodingError::NotWide));
}

#[test]
fn text_too_long_for_its_file_overflows() {
    let mut t = Translation::new("x_chinese.txt", "chinese");
    let bytes = wide("\u{4e2d}\u{6587}\u{7ffb}\u{8bd1}");
    assert_eq!(t.load_translations(bytes), Err(EncodingError::BufferOverflow));
    assert!(!t.is_loaded());
    assert_eq!(t.load_units(&vec![0x4e2d, 0x00e9]), Err(EncodingError::BufferOverflow));
    assert_eq!(t.load_units(&vec![0x4e2d, 0x0041]), Ok(()));
    assert!(t.is_loaded());
}

#[test]
fn file_is_read_low_byte_first() {
    let mut t = Translation::new("x_english.txt", "english");
    let bytes = vec![
        0x24, 0x00, 0x41, 0x00, 0x09, 0x00, 0xe9, 0x00, 0x74, 0x00, 0xe9, 0x00, 0x0d, 0x00, 0x0a,
        0x00,
    ];
    assert_eq!(t.load_translations(bytes), Ok(()));
    assert_eq!(pairs(&t), vec![entry("$A", "\u{e9}t\u{e9}")]);
}

#[test]
fn lines_are_classified() {
    let mut t = Translation::new("x_english.txt", "english");
    let text = "-- comment --\r\n$Key\tvalue\r\n\r\nab\tc\r\n$NoTab here\r\n  $Pad \t padded  \r\n$Key\tagain\r\nlast\tline";
    assert_eq!(t.load_translations(wide(text)), Ok(()));
    let shapes: Vec<(Option<String>, String)> = t.lines().iter().map(shape).collect();
    assert_eq!(
        shapes,
        vec![
            (None, "-- comment --".to_string()),
            (Some("$Key".to_string()), "value".to_string()),
            (None, "".to_string()),
            (Some("ab".to_string()), "c".to_string()),
            (None, "$NoTab here".to_string()),
            (Some("$Pad ".to_string()), " padded".to_string()),
            (Some("$Key".to_string()), "again".to_string()),
            (Some("last".to_string()), "line".to_string()),
        ]
    );
    assert_eq!(
        pairs(&t),
        vec![entry("$Key", "again"), entry("ab", "c"), entry("$Pad", "padded"), entry("last", "line")]
    );
}

#[test]
fn short_lines_and_padding_pass_through() {
    assert_eq!(shape(&read_line("a\tb")), (None, "a\tb".to_string()));
    assert_eq!(shape(&read_line("a\tbc")), (Some("a".to_string()), "bc".to_string()));
    assert_eq!(shape(&read_line("\0\0$K\tv\0\0")), (Some("$K".to_string()), "v".to_string()));
    assert_eq!(shape(&read_line(" \u{a0}\u{3000}$K\tv\u{2028}\r")), (Some("$K".to_string()), "v".to_string()));
    assert_eq!(shape(&read_line("abc \0")), (None, "abc ".to_string()));
    assert_eq!(shape(&read_line("abc\t\0")), (Some("abc".to_string()), "".to_string()));
    assert_eq!(shape(&read_line("\u{e9}\tb")), (None, "\u{e9}\tb".to_string()));
    assert_eq!(shape(&read_line("a\tb\tc")), (Some("a".to_string()), "b\tc".to_string()));
    assert_eq!(shape(&read_line("   ")), (None, "".to_string()));
}

#[test]
fn anomalies_are_lines_that_look_like_content() {
    let mut t = Translation::new("x_english.txt", "english");
    let text = "-- comment --\r\n$Key\tvalue\r\n\r\n$NoTab here\r\nab\r\n-\r\n";
    assert_eq!(t.load_translations(wide(text)), Ok(()));
    let flags: Vec<bool> = t.lines().iter().map(|line| line.is_anomaly()).collect();
    assert_eq!(flags, vec![false, false, false, true, true, false]);
}

#[test]
fn a_line_that_is_not_text_is_dropped() {
    let mut t = Translation::new("x_english.txt", "english");
    let mut units: Vec<u16> = "$A\tone\n".encode_utf16().collect();
    units.extend("$B\t".encode_utf16());
    units.push(0xd800);
    units.extend("two\n$C\tthree\n\n\n\n".encode_utf16());
    assert_eq!(t.load_units(&units), Ok(()));
    assert_eq!(pairs(&t), vec![entry("$A", "one"), entry("$C", "three")]);
    assert_eq!(t.lines().len(), 5);
    let lines = read_lines(&vec![0x61, 0x0a, 0xff, 0x0a, 0x62]);
    assert_eq!(lines.len(), 2);
}

#[test]
fn stubs_are_appended_after_what_is_there() {
    let mut t = Translation::new("x_french.txt", "french");
    let existing = wide("$Bar\tvaleur");
    assert_eq!(t.load_translations(existing.clone()), Ok(()));
    assert_eq!(pairs(&t), vec![entry("$Bar", "valeur")]);
    let block = t.add_stub_translation(&vec!["$Foo".to_string()]).expect("the stub can be written");
    assert_eq!(
        block,
        wide("\r\n---------- new translation stubs ----------\r\n\r\n$Foo\ttranslation for Foo\r\n")
    );
    assert!(!t.is_loaded());
    assert!(t.translations().is_none());
    let mut file = existing.clone();
    file.extend(block);
    assert_eq!(&file[..existing.len()], &existing[..]);
    assert_eq!(t.load_translations(file), Ok(()));
    assert_eq!(pairs(&t), vec![entry("$Bar", "valeur"), entry("$Foo", "translation for Foo")]);
}

#[test]
fn stubs_add_to_what_was_provided() {
    let mut t = Translation::new("x_german.txt", "german");
    let existing = wide("$One\teins\r\n-- half --\r\n$Two\tzwei\r\n");
    assert_eq!(t.load_translations(existing.clone()), Ok(()));
    let before = pairs(&t);
    let missing = vec!["$Four".to_string(), "$Three".to_string(), "$Zw\u{f6}lf".to_string()];
    let block = t.add_stub_translation(&missing).expect("the stubs can be written");
    let mut file = existing;
    file.extend(block);
    assert_eq!(t.load_translations(file), Ok(()));
    let after = pairs(&t);
    for pair in &before {
        assert!(after.contains(pair));
    }
    assert!(after.contains(&entry("$Four", "translation for Four")));
    assert!(after.contains(&entry("$Three", "translation for Three")));
    assert!(after.contains(&entry("$Zw\u{f6}lf", "translation for Zw\u{f6}lf")));
    assert_eq!(after.len(), 5);
}

#[test]
fn stub_text_is_exact() {
    assert_eq!(stub_text(&Vec::new()), "\r\n---------- new translation stubs ----------\r\n\r\n");
    assert_eq!(
        stub_text(&vec!["$A".to_string(), "B$C$".to_string(), "plain".to_string()]),
        "\r\n---------- new translation stubs ----------\r\n\r\n$A\ttranslation for A\r\nB$C$\ttranslation for BC$\r\nplain\ttranslation for plain\r\n"
    );
    assert_eq!(strip_sentinel("$Key"), "Key");
    assert_eq!(strip_sentinel("Ke$y$"), "Key$");
    assert_eq!(strip_sentinel("Key"), "Key");
    assert_eq!(strip_sentinel(""), "");
}

#[test]
fn a_stub_outside_the_plane_cannot_be_written() {
    let mut t = Translation::new("x_english.txt", "english");
    assert_eq!(t.load_translations(wide("$A\tone\r\n")), Ok(()));
    let result = t.add_stub_translation(&vec!["$Smile\u{1f600}".to_string()]);
    assert_eq!(result, Err(EncodingError::Unrepresentable));
    assert!(t.is_loaded());
    assert_eq!(pairs(&t), vec![entry("$A", "one")]);
    assert_eq!(wide_text("\u{10000}"), Err(EncodingError::Unrepresentable));
    assert_eq!(encode_wide("a\u{1f600}"), Err(EncodingError::Unrepresentable));
}

#[test]
fn written_lines_read_back_to_the_same_mapping() {
    let mut t = Translation::new("x_spanish.txt", "spanish");
    let text = "; header\r\n$Uno\tprimero\r\n\r\n$Dos \t segundo\r\n$Uno\totra vez\r\n$\u{c9}t\u{e9}\tver\u{e3}o\r\n";
    assert_eq!(t.load_translations(wide(text)), Ok(()));
    let before = pairs(&t);
    let written = t.write().expect("the lines can be written");
    assert_eq!(
        written,
        wide("\r\n$Uno\tprimero\r\n\r\n$Dos \t segundo\r\n$Uno\totra vez\r\n$\u{c9}t\u{e9}\tver\u{e3}o")
    );
    let mut again = Translation::new("x_spanish.txt", "spanish");
    assert_eq!(again.load_translations(written), Ok(()));
    assert_eq!(pairs(&again), before);
}

#[test]
fn written_lines_of_an_open_ended_file_read_back() {
    let mut t = Translation::new("x_french.txt", "french");
    assert_eq!(t.load_translations(wide("; note\n$Bar\tvaleur")), Ok(()));
    let before = pairs(&t);
    assert_eq!(before, vec![entry("$Bar", "valeur")]);
    let written = t.write().expect("the lines can be written");
    assert_eq!(written, wide("\r\n$Bar\tvaleur"));
    let mut again = Translation::new("x_french.txt", "french");
    assert_eq!(again.load_translations(written), Ok(()));
    assert_eq!(pairs(&again), before);
}

#[test]
fn written_lines_appended_keep_the_mapping() {
    let mut t = Translation::new("x_italian.txt", "italian");
    let existing = wide("$Uno\tprimo\r\n; note\r\n$Due\tsecondo\r\n");
    assert_eq!(t.load_translations(existing.clone()), Ok(()));
    let before = pairs(&t);
    let written = t.write().expect("the lines can be written");
    let mut file = existing;
    file.extend(written);
    let mut again = Translation::new("x_italian.txt", "italian");
    assert_eq!(again.load_translations(file), Ok(()));
    assert_eq!(pairs(&again), before);
    assert_eq!(again.lines().len(), 6);
}

#[test]
fn lines_are_written_with_tabs_and_line_ends() {
    let entry_line = Line::Entry { key: "$K".to_string(), value: "v w".to_string() };
    let other = Line::Passthrough { text: "-- gone --".to_string() };
    assert_eq!(write_line(&entry_line), "$K\tv w");
    assert_eq!(write_line(&other), "");
    assert_eq!(write_lines(&Vec::new()), "");
    assert_eq!(write_lines(&vec![entry_line.duplicate()]), "$K\tv w");
    assert_eq!(
        write_lines(&vec![other.duplicate(), entry_line.duplicate(), other, entry_line]),
        "\r\n$K\tv w\r\n\r\n$K\tv w"
    );
}

#[test]
fn lines_can_be_edited() {
    let mut t = Translation::new("x_english.txt", "english");
    t.set_translations(vec![entry("$A", "one"), entry("$B", "two")]);
    assert!(t.is_loaded());
    t.insert_at("$C".to_string(), "three".to_string(), 1);
    t.insert_at("$D".to_string(), "four".to_string(), 99);
    t.append_translation(" $E ".to_string(), " five ".to_string());
    t.insert_at("$F".to_string(), "six".to_string(), 0);
    let shapes: Vec<(Option<String>, String)> = t.lines().iter().map(shape).collect();
    assert_eq!(
        shapes,
        vec![
            (Some("$F".to_string()), "six".to_string()),
            (Some("$A".to_string()), "one".to_string()),
            (Some("$C".to_string()), "three".to_string()),
            (Some("$B".to_string()), "two".to_string()),
            (Some("$D".to_string()), "four".to_string()),
            (Some(" $E ".to_string()), " five ".to_string()),
        ]
    );
    assert_eq!(
        t.provided_translations(),
        Some(vec![
            "$F".to_string(),
            "$A".to_string(),
            "$C".to_string(),
            "$B".to_string(),
            "$D".to_string(),
            "$E".to_string()
        ])
    );
    assert_eq!(t.translations().expect("loaded").get("$E"), Some(&"five".to_string()));
    assert_eq!(
        t.write(),
        Ok(wide("$F\tsix\r\n$A\tone\r\n$C\tthree\r\n$B\ttwo\r\n$D\tfour\r\n $E \t five "))
    );
    let copy = t.duplicate();
    assert_eq!(copy.lines().len(), 6);
    assert_eq!(copy.display(), "x_english.txt");
}

#[test]
fn handle_names_its_file() {
    let t = Translation::new("/mods/x/Interface/Translations/Mod_english.txt", "english");
    assert_eq!(t.display(), "Mod_english.txt");
    assert_eq!(t.path(), "/mods/x/Interface/Translations/Mod_english.txt");
    assert_eq!(t.language(), "english");
    let unnamed = Translation::named("..", None, "klingon");
    assert_eq!(unnamed.display(), "something_klingon.txt");
    let named = Translation::named("a/b.txt", Some("b.txt".to_string()), "b");
    assert_eq!(named.display(), "b.txt");
    assert_eq!(Translation::new("..", "klingon").display(), "something_klingon.txt");
}

#[test]
fn errors_are_explained_with_the_file_name() {
    let t = Translation::new("Mod_english.txt", "english");
    assert_eq!(
        t.explain(EncodingError::BufferOverflow),
        "Not enough space left in the output buffer to decode UCS-2 characters;\nMod_english.txt might not be a valid UCS-2 file."
    );
    assert_eq!(
        t.explain(EncodingError::Unrepresentable),
        "Input contained a character which cannot be represented in UCS-2;\nMod_english.txt might not be a valid UCS-2 file."
    );
    assert_eq!(
        t.explain(EncodingError::NotWide),
        "The bytes cannot be taken as 16-bit characters;\nMod_english.txt might not be a valid UCS-2 file."
    );
}

#[test]
fn codec_round_trips() {
    assert_eq!(units_from_bytes(vec![0x34, 0x12, 0xff, 0x00]), Some(vec![0x1234, 0x00ff]));
    assert_eq!(units_from_bytes(vec![0x34, 0x12, 0xff]), None);
    assert_eq!(bytes_from_units(&vec![0x1234, 0x00ff]), vec![0x34, 0x12, 0xff, 0x00]);
    assert_eq!(decode_wide(&vec![0x41, 0xe9, 0x4e2d], 6), Ok(vec![0x41, 0xc3, 0xa9, 0xe4, 0xb8, 0xad]));
    assert_eq!(decode_wide(&vec![0x41, 0xe9, 0x4e2d], 5), Err(EncodingError::BufferOverflow));
    assert_eq!(decode_wide(&vec![0x7f, 0x80, 0x7ff, 0x800, 0xffff], 11), Ok("\u{7f}\u{80}\u{7ff}\u{800}\u{ffff}".as_bytes().to_vec()));
    assert_eq!(decode_wide(&Vec::new(), 0), Ok(Vec::new()));
    assert_eq!(encode_wide("A\u{e9}\u{4e2d}"), Ok(vec![0x41, 0xe9, 0x4e2d]));
    assert_eq!(encode_wide(""), Ok(Vec::new()));
    assert_eq!(wide_text("A\u{e9}"), Ok(vec![0x41, 0x00, 0xe9, 0x00]));
}

#[test]
fn white_space_is_what_the_standard_library_trims() {
    for code in 0u32..=0x2ffff {
        let Some(c) = char::from_u32(code) else {
            continue;
        };
        let s = format!("{c}{c}x{c}y{c}");
        assert_eq!(trim_str(&s, CharClass::Space), s.trim(), "for U+{:04X}", code);
        assert_eq!(CharClass::Space.contains(c), c.is_whitespace(), "for U+{:04X}", code);
    }
    assert_eq!(trim_str("\0\0a\0b\0", CharClass::Nul), "a\0b");
    assert_eq!(trim_str(" \0 ", CharClass::Nul), " \0 ");
    assert_eq!(trim_str("", CharClass::Space), "");
    assert_eq!(trim_str(" \t\r\n", CharClass::Space), "");
    assert!(CharClass::Nul.contains('\0'));
    assert!(!CharClass::Nul.contains(' '));
}

#[test]
fn units_are_read_wherever_the_bytes_lie() {
    let bytes = vec![0x34, 0x12, 0xff, 0x00, 0x00, 0x80];
    assert_eq!(pair_up(&bytes), vec![0x1234, 0x00ff, 0x8000]);
    assert_eq!(pair_up(&Vec::new()), Vec::<u16>::new());
    assert_eq!(pair_up(&vec![0xff, 0xff]), vec![0xffff]);
    assert_eq!(units_after_cast(&bytes, None), Some(vec![0x1234, 0x00ff, 0x8000]));
    assert_eq!(
        units_after_cast(&bytes, Some(vec![0x1234, 0x00ff, 0x8000])),
        Some(vec![0x1234, 0x00ff, 0x8000])
    );
    assert_eq!(units_after_cast(&vec![0x34, 0x12, 0xff], None), None);
    assert_eq!(units_after_cast(&Vec::new(), None), Some(Vec::new()));
    for shift in 0..4usize {
        let mut padded = vec![0u8; shift];
        padded.extend_from_slice(&bytes);
        assert_eq!(
            units_from_bytes(padded[shift..].to_vec()),
            Some(vec![0x1234, 0x00ff, 0x8000])
        );
    }
}

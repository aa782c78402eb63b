use mcm_meta_helper::cli::{is_all_languages, Args, Command, LogLevel};
use mcm_meta_helper::report::padding_for;
use mcm_meta_helper::translation::Translation;

fn args(moddir: &str, verbose: bool, quiet: bool, cmd: Command) -> Args {
    Args { moddir: moddir.to_string(), verbose, quiet, cmd }
}

fn check(language: &str) -> Command {
    Command::Check { language: language.to_string() }
}

#[test]
fn commands_are_written_back() {
    assert_eq!(check("all").describe(), "check --all");
    assert_eq!(check("french").describe(), "check --language french");
    assert_eq!(check("ALL").describe(), "check --language ALL");
    assert_eq!(check("").describe(), "check --language ");
    assert_eq!(Command::Update.describe(), "update");
    assert_eq!(Command::Validate.describe(), "validate");
    assert!(is_all_languages("all"));
    assert!(!is_all_languages("All"));
    assert!(!is_all_languages("al"));
}

#[test]
fn arguments_are_written_back() {
    assert_eq!(args(".", false, false, Command::Update).describe(), "mcm-meta-helper  update");
    assert_eq!(
        args(".", true, false, check("all")).describe(),
        "mcm-meta-helper --verbose check --all"
    );
    assert_eq!(
        args("../my mod", true, true, check("german")).describe(),
        "mcm-meta-helper --verbose--quiet--moddir '../my mod' check --language german"
    );
    assert_eq!(
        args("", false, true, Command::Validate).describe(),
        "mcm-meta-helper --quiet--moddir '' validate"
    );
}

#[test]
fn verbose_outranks_quiet() {
    assert_eq!(args(".", true, true, Command::Update).log_level(), LogLevel::Debug);
    assert_eq!(args(".", true, false, Command::Update).log_level(), LogLevel::Debug);
    assert_eq!(args(".", false, true, Command::Update).log_level(), LogLevel::Warn);
    assert_eq!(args(".", false, false, Command::Update).log_level(), LogLevel::Info);
}

#[test]
fn labels_are_padded_to_the_longest_name() {
    assert_eq!(padding_for(&Vec::new()), 30);
    let short = Translation::named("a", Some("Mod_english.txt".to_string()), "english");
    assert_eq!(padding_for(&vec![short.duplicate()]), 30);
    let long = Translation::named("b", Some("A_rather_long_mod_name_indeed_french.txt".to_string()), "french");
    assert_eq!(padding_for(&vec![short.duplicate(), long, short.duplicate()]), 40);
    let accented = Translation::named("c", Some("\u{e9}".repeat(16)), "x");
    assert_eq!(padding_for(&vec![accented, short]), 32);
}

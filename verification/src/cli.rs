//! The command line as plain values: what was asked for, how it is written
//! back for the user, and how much is to be logged.

use vstd::prelude::*;
use vstd::string::StringExecFns;
use crate::order::{key_order, Order};

verus! {

/// What to do.
#[derive(Debug)]
pub enum Command {
    /// Cross-check the required keys with those of one language, or of all
    /// languages when the language is `all`.
    Check { language: String },
    /// Add stubs for the missing keys to every translation file.
    Update,
    /// Validate the configuration document.
    Validate,
}

/// The arguments of one run.
#[derive(Debug)]
pub struct Args {
    /// The directory of the mod.
    pub moddir: String,
    /// Whether more is to be printed.
    pub verbose: bool,
    /// Whether only what matters most is to be printed.
    pub quiet: bool,
    /// What to do.
    pub cmd: Command,
}

/// How much is logged.
#[derive(Clone, Copy, Debug, PartialEq, Eq, Structural)]
pub enum LogLevel {
    /// What helps a modder find a problem.
    Debug,
    /// What a modder reads in the normal course.
    Info,
    /// Only problems and results that matter.
    Warn,
}

/// The word that stands for every language.
pub open spec fn all_languages() -> Seq<char> {
    "all"@
}

/// A command as plain values.
pub enum CommandView {
    /// Cross-check one language, or all.
    Check { language: Seq<char> },
    /// Add stubs.
    Update,
    /// Validate the configuration document.
    Validate,
}

impl View for Command {
    type V = CommandView;

    open spec fn view(&self) -> CommandView {
        match *self {
            Command::Check { language } => CommandView::Check { language: language@ },
            Command::Update => CommandView::Update,
            Command::Validate => CommandView::Validate,
        }
    }
}

/// How a command is written back.
pub open spec fn command_text(cmd: CommandView) -> Seq<char> {
    match cmd {
        CommandView::Check { language } => if language == all_languages() {
            "check --all"@
        } else {
            "check --language "@ + language
        },
        CommandView::Update => "update"@,
        CommandView::Validate => "validate"@,
    }
}

/// How the arguments of a run are written back: the name of the program,
/// the flags that were given, the directory unless it is the current one,
/// and the command.
pub open spec fn args_text(moddir: Seq<char>, verbose: bool, quiet: bool, cmd: CommandView) -> Seq<
    char,
> {
    "mcm-meta-helper "@ + (if verbose {
        "--verbose"@
    } else {
        Seq::empty()
    }) + (if quiet {
        "--quiet"@
    } else {
        Seq::empty()
    }) + (if moddir != "."@ {
        "--moddir '"@ + moddir + "'"@
    } else {
        Seq::empty()
    }) + " "@ + command_text(cmd)
}

/// Tells whether `language` stands for every language.
pub fn is_all_languages(language: &str) -> (r: bool)
    ensures
        r == (language@ == all_languages()),
{
    key_order(language, "all") == Order::Equal
}

impl Command {
    /// The command as it is written back for the user.
    pub fn describe(&self) -> (r: String)
        ensures
            r@ == command_text(self@),
    {
        match self {
            Command::Check { language } => {
                if is_all_languages(language.as_str()) {
                    String::from_str("check --all")
                } else {
                    let mut out = String::from_str("check --language ");
                    out.append(language.as_str());
                    out
                }
            },
            Command::Update => String::from_str("update"),
            Command::Validate => String::from_str("validate"),
        }
    }
}

impl Args {
    /// The arguments as they are written back for the user.
    pub fn describe(&self) -> (r: String)
        ensures
            r@ == args_text(self.moddir@, self.verbose, self.quiet, self.cmd@),
    {
        let mut out = String::from_str("mcm-meta-helper ");
        let ghost start = out@;
        if self.verbose {
            out.append("--verbose");
        }
        let ghost first = out@;
        if self.quiet {
            out.append("--quiet");
        }
        let ghost second = out@;
        if key_order(self.moddir.as_str(), ".") != Order::Equal {
            out.append("--moddir '");
            out.append(self.moddir.as_str());
            out.append("'");
        }
        let ghost third = out@;
        out.append(" ");
        let text = self.cmd.describe();
        out.append(text.as_str());
        proof {
            let nothing = Seq::<char>::empty();
            assert(first =~= start + (if self.verbose {
                "--verbose"@
            } else {
                nothing
            }));
            assert(second =~= first + (if self.quiet {
                "--quiet"@
            } else {
                nothing
            }));
            assert(third =~= second + (if self.moddir@ != "."@ {
                "--moddir '"@ + self.moddir@ + "'"@
            } else {
                nothing
            }));
        }
        out
    }

    /// How much is to be logged: everything down to debugging notes in a
    /// verbose run, warnings only in a quiet run, and otherwise what a modder
    /// reads in the normal course.
    pub fn log_level(&self) -> (r: LogLevel)
        ensures
            r == if self.verbose {
                LogLevel::Debug
            } else if self.quiet {
                LogLevel::Warn
            } else {
                LogLevel::Info
            },
    {
        if self.verbose {
            LogLevel::Debug
        } else if self.quiet {
            LogLevel::Warn
        } else {
            LogLevel::Info
        }
    }
}

} // verus!

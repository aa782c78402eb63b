//! Localization bookkeeping for mod configuration menus: which translation
//! keys a mod asks for, which ones each language file supplies, and how the
//! wide-character translation files are read and extended.
//!
//! - `json` finds the keys that a JSON document refers to.
//! - `wide`, `line` and `translation` read and write translation files:
//!   bytes to code units, code units to text, text to lines, lines to a
//!   mapping from keys to values. `stub` writes placeholders for missing
//!   keys.
//! - `keys`, `order` and `reconcile` compare what is required with what is
//!   provided; `baseline` takes out what the host itself supplies; `report`
//!   and `update` say what is shown and what is appended for a language.
//! - `names` and `moddir` tell languages from file names and collect the
//!   required keys of a mod; `search` says which keys a search of the
//!   sources has not found.
//! - `cli` holds the command line as plain values.
//! - `laws`, with `encoding` and `line_laws` under it, states what holds of
//!   translation files as a whole.
//!
//! Nothing here touches the file system: bytes come in and bytes go out.

pub mod baseline;
pub mod cli;
pub mod encoding;
pub mod json;
pub mod keys;
pub mod laws;
pub mod line;
pub mod line_laws;
pub mod moddir;
pub mod names;
pub mod order;
pub mod reconcile;
pub mod report;
pub mod search;
pub mod stub;
pub mod text;
pub mod translation;
pub mod update;
pub mod wide;

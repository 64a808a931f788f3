//! User configuration: the settings read from `config.toml` (every field
//! optional, with defaults), and the single-setting rewrite of that file
//! that keeps everything else in it.

use vstd::prelude::*;
use crate::git::review::{trim, trim_bounds};
use crate::text::{chars_of, str_eq, string_of_range};
use crate::view::DiffMode;

verus! {

#[verifier::external_type_specification]
#[verifier::external_body]
pub struct ExDocumentMut(toml_edit::DocumentMut);

#[verifier::external_type_specification]
#[verifier::external_body]
pub struct ExTomlError(toml_edit::TomlError);

/// The user's settings; a missing field takes its default.
pub struct Config {
    /// Theme name: a built-in preset or a file in `themes/`.
    pub theme: Option<String>,
    /// Default diff mode: `unified` or `side-by-side`.
    pub diff_mode: Option<String>,
    /// Keybinding overrides: action name → key chords, in file order.
    pub keys: Option<Vec<(String, Vec<String>)>>,
    /// Refresh on filesystem and git changes (on by default).
    pub auto_refresh: Option<bool>,
    /// Show line-number gutters in the diff pane (on by default).
    pub line_numbers: Option<bool>,
    /// Show the top menu bar (on by default).
    pub menu_bar: Option<bool>,
    /// Hard-wrap long diff lines at the pane width (off by default).
    pub wrap_lines: Option<bool>,
}

impl Default for Config {
    fn default() -> (c: Config)
        ensures
            c.theme is None,
            c.diff_mode is None,
            c.keys is None,
            c.auto_refresh is None,
            c.line_numbers is None,
            c.menu_bar is None,
            c.wrap_lines is None,
    {
        Config {
            theme: None,
            diff_mode: None,
            keys: None,
            auto_refresh: None,
            line_numbers: None,
            menu_bar: None,
            wrap_lines: None,
        }
    }
}

/// The diff mode a `diff_mode` setting names: side-by-side for
/// `side-by-side`, `sidebyside` or `split` (surrounding whitespace ignored),
/// unified for anything else or nothing.
pub open spec fn mode_named(setting: Option<Seq<char>>) -> DiffMode {
    match setting {
        Some(s) => {
            let t = trim(s);
            if t == "side-by-side"@ || t == "sidebyside"@ || t == "split"@ {
                DiffMode::SideBySide
            } else {
                DiffMode::Unified
            }
        },
        None => DiffMode::Unified,
    }
}

/// `o`'s value, or `d` when it has none.
pub open spec fn or_default(o: Option<bool>, d: bool) -> bool {
    match o {
        Some(b) => b,
        None => d,
    }
}

impl Config {
    /// The configured default diff mode.
    pub fn diff_mode(&self) -> (m: DiffMode)
        ensures
            m == mode_named(match self.diff_mode {
                Some(s) => Some(s@),
                None => None::<Seq<char>>,
            }),
    {
        match &self.diff_mode {
            Some(s) => {
                let cs = chars_of(s.as_str());
                let (a, b) = trim_bounds(&cs);
                let t = string_of_range(cs.as_slice(), a, b);
                if str_eq(t.as_str(), "side-by-side") || str_eq(t.as_str(), "sidebyside") || str_eq(
                    t.as_str(),
                    "split",
                ) {
                    DiffMode::SideBySide
                } else {
                    DiffMode::Unified
                }
            },
            None => DiffMode::Unified,
        }
    }

    /// Whether to refresh on changes (default on).
    pub fn auto_refresh(&self) -> (b: bool)
        ensures
            b == or_default(self.auto_refresh, true),
    {
        match self.auto_refresh {
            Some(b) => b,
            None => true,
        }
    }

    /// Whether to show line numbers (default on).
    pub fn line_numbers(&self) -> (b: bool)
        ensures
            b == or_default(self.line_numbers, true),
    {
        match self.line_numbers {
            Some(b) => b,
            None => true,
        }
    }

    /// Whether to show the menu bar (default on).
    pub fn menu_bar(&self) -> (b: bool)
        ensures
            b == or_default(self.menu_bar, true),
    {
        match self.menu_bar {
            Some(b) => b,
            None => true,
        }
    }

    /// Whether to wrap long lines (default off).
    pub fn wrap_lines(&self) -> (b: bool)
        ensures
            b == or_default(self.wrap_lines, false),
    {
        match self.wrap_lines {
            Some(b) => b,
            None => false,
        }
    }
}

/// A single setting written back to `config.toml` by an in-app action.
pub enum Setting {
    Theme(String),
    DiffMode(DiffMode),
    LineNumbers(bool),
    MenuBar(bool),
    WrapLines(bool),
}

/// The value a setting stores.
pub enum SettingValue {
    Text(String),
    Flag(bool),
}

/// How a diff mode is spelled in `config.toml`.
pub open spec fn mode_word(mode: DiffMode) -> Seq<char> {
    match mode {
        DiffMode::Unified => "unified"@,
        DiffMode::SideBySide => "side-by-side"@,
    }
}

/// The spelling of `mode` in `config.toml`.
pub fn mode_name(mode: DiffMode) -> (s: &'static str)
    ensures
        s@ == mode_word(mode),
{
    match mode {
        DiffMode::Unified => "unified",
        DiffMode::SideBySide => "side-by-side",
    }
}

/// The top-level key a setting is stored under.
pub open spec fn setting_key(setting: Setting) -> Seq<char> {
    match setting {
        Setting::Theme(_) => "theme"@,
        Setting::DiffMode(_) => "diff_mode"@,
        Setting::LineNumbers(_) => "line_numbers"@,
        Setting::MenuBar(_) => "menu_bar"@,
        Setting::WrapLines(_) => "wrap_lines"@,
    }
}

/// The key and value a setting is stored as.
pub fn setting_entry(setting: Setting) -> (r: (&'static str, SettingValue))
    ensures
        r.0@ == setting_key(setting),
        match setting {
            Setting::Theme(name) => r.1 matches SettingValue::Text(t) && t == name,
            Setting::DiffMode(mode) => r.1 matches SettingValue::Text(t) && t@ == mode_word(mode),
            Setting::LineNumbers(b) | Setting::MenuBar(b) | Setting::WrapLines(b) => r.1
                == SettingValue::Flag(b),
        },
{
    match setting {
        Setting::Theme(name) => ("theme", SettingValue::Text(name)),
        Setting::DiffMode(mode) => {
            let word = mode_name(mode);
            let cs = chars_of(word);
            ("diff_mode", SettingValue::Text(crate::text::string_of(cs.as_slice())))
        },
        Setting::LineNumbers(b) => ("line_numbers", SettingValue::Flag(b)),
        Setting::MenuBar(b) => ("menu_bar", SettingValue::Flag(b)),
        Setting::WrapLines(b) => ("wrap_lines", SettingValue::Flag(b)),
    }
}

/// Whether toml_edit parses `text` as a TOML document.
pub uninterp spec fn toml_parses(text: Seq<char>) -> bool;

/// The text toml_edit renders for the document `base` (a fresh empty one
/// when `None`) with top-level `key` set to the string `value`.
pub uninterp spec fn toml_with_text(base: Option<Seq<char>>, key: Seq<char>, value: Seq<char>) -> Seq<char>;

/// The text toml_edit renders for the document `base` (a fresh empty one
/// when `None`) with top-level `key` set to the boolean `value`.
pub uninterp spec fn toml_with_flag(base: Option<Seq<char>>, key: Seq<char>, value: bool) -> Seq<char>;

/// The document text `base`, if any.
pub open spec fn base_view(base: Option<&str>) -> Option<Seq<char>> {
    match base {
        Some(t) => Some(t@),
        None => None,
    }
}

/// Whether the document to edit is there: a missing file is a fresh one; an
/// existing text must parse.
pub open spec fn base_ok(base: Option<&str>) -> bool {
    match base {
        Some(t) => toml_parses(t@),
        None => true,
    }
}

/// toml_edit's `DocumentMut::from_str` on `base` (`DocumentMut::new` when
/// there is none), then `doc[key] = toml_edit::value(value)` and the
/// document's `Display`: the text with `key` holding the string `value`,
/// comments and formatting kept. Parsing fails exactly when `base` is not
/// TOML; what the rendered text is, is named rather than restated.
#[verifier::external_body]
fn set_text_in(base: Option<&str>, key: &str, value: &str) -> (r: Result<String, toml_edit::TomlError>)
    ensures
        r is Ok <==> (base matches Some(t) ==> toml_parses(t@)),
        r matches Ok(s) ==> s@ == toml_with_text(base_view(base), key@, value@),
{
    let mut doc = match base {
        Some(text) => text.parse::<toml_edit::DocumentMut>()?,
        None => toml_edit::DocumentMut::new(),
    };
    doc[key] = toml_edit::value(value);
    Ok(doc.to_string())
}

/// As `set_text_in`, with `key` holding the boolean `value`.
#[verifier::external_body]
fn set_flag_in(base: Option<&str>, key: &str, value: bool) -> (r: Result<String, toml_edit::TomlError>)
    ensures
        r is Ok <==> (base matches Some(t) ==> toml_parses(t@)),
        r matches Ok(s) ==> s@ == toml_with_flag(base_view(base), key@, value),
{
    let mut doc = match base {
        Some(text) => text.parse::<toml_edit::DocumentMut>()?,
        None => toml_edit::DocumentMut::new(),
    };
    doc[key] = toml_edit::value(value);
    Ok(doc.to_string())
}

/// The message of a toml_edit parse error (its `Display`).
#[verifier::external_body]
fn toml_error_text(err: &toml_edit::TomlError) -> (s: String) {
    format!("{err}")
}

/// Why a setting could not be written.
pub enum PersistError {
    /// The existing `config.toml` is not TOML; it must stay untouched.
    Parse(String),
}

/// The text `config.toml` holds with `setting` stored over `existing`.
pub open spec fn stored_text(existing: Option<Seq<char>>, setting: Setting) -> Seq<char> {
    match setting {
        Setting::Theme(name) => toml_with_text(existing, "theme"@, name@),
        Setting::DiffMode(mode) => toml_with_text(existing, "diff_mode"@, mode_word(mode)),
        Setting::LineNumbers(b) => toml_with_flag(existing, "line_numbers"@, b),
        Setting::MenuBar(b) => toml_with_flag(existing, "menu_bar"@, b),
        Setting::WrapLines(b) => toml_with_flag(existing, "wrap_lines"@, b),
    }
}

/// The new text of `config.toml` with `setting` stored, given the file's
/// current text (`None` when it does not exist). An existing file that does
/// not parse is refused, so nothing gets written over it.
pub fn persisted_text(existing: Option<&str>, setting: Setting) -> (r: Result<String, PersistError>)
    ensures
        r is Err <==> !base_ok(existing),
        r matches Ok(s) ==> s@ == stored_text(base_view(existing), setting),
{
    let (key, value) = setting_entry(setting);
    let written = match value {
        SettingValue::Text(t) => set_text_in(existing, key, t.as_str()),
        SettingValue::Flag(b) => set_flag_in(existing, key, b),
    };
    match written {
        Ok(text) => Ok(text),
        Err(err) => Err(PersistError::Parse(toml_error_text(&err))),
    }
}

} // verus!

use strix::config::{persisted_text, Config, PersistError, Setting};
use strix::keys::{parse_action, parse_chord, parse_key, Action, Chord, Key, KeyMods, Keymap};
use strix::view::DiffMode;

fn mods(control: bool, alt: bool, shift: bool) -> KeyMods {
    KeyMods { shift, control, alt, super_key: false, hyper: false, meta: false }
}

#[test]
fn config_defaults_and_overrides() {
    let c = Config::default();
    assert_eq!(c.diff_mode(), DiffMode::Unified);
    assert!(c.auto_refresh());
    assert!(c.line_numbers());
    assert!(c.menu_bar());
    assert!(!c.wrap_lines());
    let c = Config {
        diff_mode: Some("  split ".to_string()),
        wrap_lines: Some(true),
        line_numbers: Some(false),
        ..Config::default()
    };
    assert_eq!(c.diff_mode(), DiffMode::SideBySide);
    assert!(c.wrap_lines());
    assert!(!c.line_numbers());
    let c = Config { diff_mode: Some("side-by-side".to_string()), ..Config::default() };
    assert_eq!(c.diff_mode(), DiffMode::SideBySide);
    let c = Config { diff_mode: Some("Split".to_string()), ..Config::default() };
    assert_eq!(c.diff_mode(), DiffMode::Unified);
}

#[test]
fn persisting_a_setting_keeps_the_rest_of_the_file() {
    let text = "# my settings\ntheme = \"dark\"\n\n[keys]\nquit = [\"x\"]\n";
    let out = persisted_text(Some(text), Setting::DiffMode(DiffMode::SideBySide)).ok().unwrap();
    assert!(out.contains("# my settings"));
    assert!(out.contains("theme = \"dark\""));
    assert!(out.contains("diff_mode = \"side-by-side\""));
    assert!(out.contains("quit = [\"x\"]"));
    let fresh = persisted_text(None, Setting::WrapLines(true)).ok().unwrap();
    assert!(fresh.contains("wrap_lines = true"));
    let theme = persisted_text(Some("theme = \"a\"\n"), Setting::Theme("light".to_string())).ok().unwrap();
    assert!(theme.contains("theme = \"light\""));
    assert!(!theme.contains("\"a\""));
}

#[test]
fn persisting_refuses_a_broken_file() {
    match persisted_text(Some("theme = = broken"), Setting::LineNumbers(false)) {
        Err(PersistError::Parse(msg)) => assert!(!msg.is_empty()),
        Ok(_) => panic!("a broken config must not be rewritten"),
    }
}

#[test]
fn chords_parse_with_modifiers() {
    assert_eq!(parse_chord("ctrl-d"), Some(Chord { code: Key::Char('d'), mods: mods(true, false, false) }));
    assert_eq!(parse_chord("Control-Alt-x"), Some(Chord { code: Key::Char('x'), mods: mods(true, true, false) }));
    // Shift is folded into a character key.
    assert_eq!(parse_chord("shift-G"), Some(Chord { code: Key::Char('G'), mods: mods(false, false, false) }));
    assert_eq!(parse_chord("shift-tab"), Some(Chord { code: Key::Tab, mods: mods(false, false, true) }));
    assert_eq!(parse_chord("SPACE"), Some(Chord { code: Key::Char(' '), mods: mods(false, false, false) }));
    assert_eq!(parse_chord("hyper-x"), None);
    assert_eq!(parse_chord("ctrl-"), None);
    assert_eq!(parse_chord(""), None);
    assert_eq!(parse_chord("ab"), None);
    assert_eq!(parse_key("PageDown"), Some(Key::PageDown));
    assert_eq!(parse_key("G"), Some(Key::Char('G')));
    assert_eq!(parse_key("del"), Some(Key::Delete));
}

#[test]
fn action_names_parse() {
    assert_eq!(parse_action("toggle-diff-mode"), Some(Action::ToggleDiffMode));
    assert_eq!(parse_action("split"), Some(Action::ToggleDiffMode));
    assert_eq!(parse_action("next-file"), Some(Action::Down));
    assert_eq!(parse_action("discard"), Some(Action::Discard));
    assert_eq!(parse_action("nope"), None);
}

#[test]
fn default_keymap_resolves_keys() {
    let km = Keymap::default();
    let none = KeyMods::none();
    assert_eq!(km.action(Key::Char('q'), none), Some(Action::Quit));
    assert_eq!(km.action(Key::Char('c'), mods(true, false, false)), Some(Action::Quit));
    assert_eq!(km.action(Key::Char('G'), mods(false, false, true)), Some(Action::Bottom));
    assert_eq!(km.action(Key::Down, none), Some(Action::Down));
    assert_eq!(km.action(Key::Enter, none), Some(Action::ToggleStage));
    assert_eq!(km.action(Key::Char('z'), none), None);
    assert_eq!(km.action(Key::Other, none), None);
}

#[test]
fn overrides_replace_an_actions_chords() {
    let overrides = vec![
        ("quit".to_string(), vec!["x".to_string(), "ctrl-q".to_string(), "bad-chord-".to_string()]),
        ("unknown-action".to_string(), vec!["q".to_string()]),
    ];
    let km = Keymap::from_config(Some(&overrides));
    let none = KeyMods::none();
    assert_eq!(km.action(Key::Char('q'), none), None);
    assert_eq!(km.action(Key::Char('c'), mods(true, false, false)), None);
    assert_eq!(km.action(Key::Char('x'), none), Some(Action::Quit));
    assert_eq!(km.action(Key::Char('q'), mods(true, false, false)), Some(Action::Quit));
    assert_eq!(km.action(Key::Char('j'), none), Some(Action::Down));
}

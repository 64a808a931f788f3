use strix::editor::EditOp;
use strix::keys::{Action, Key, KeyMods, Keymap};
use strix::routing::{editor_key, menu_key, menu_sibling, modal_key, route_key, EditorKey, InputState, KeyRoute, MenuKey, ModalKey};
use strix::view::{MenuId, ViewMode};

fn idle(view: ViewMode) -> InputState {
    InputState { modal_open: false, editing: false, menu_open: false, view }
}

fn ctrl() -> KeyMods {
    KeyMods { control: true, ..KeyMods::none() }
}

#[test]
fn capturing_layers_come_before_the_keymap() {
    let keymap = Keymap::from_config(None);
    let none = KeyMods::none();
    assert_eq!(route_key(&keymap, Key::Char('q'), none, idle(ViewMode::Status)), KeyRoute::Dispatch(Action::Quit));
    let editing = InputState { editing: true, ..idle(ViewMode::Status) };
    assert_eq!(route_key(&keymap, Key::Char('q'), none, editing), KeyRoute::Editor);
    let modal = InputState { modal_open: true, editing: true, ..idle(ViewMode::Status) };
    assert_eq!(route_key(&keymap, Key::Char('q'), none, modal), KeyRoute::Modal);
    let menu = InputState { menu_open: true, ..idle(ViewMode::Status) };
    assert_eq!(route_key(&keymap, Key::Char('q'), none, menu), KeyRoute::Menu);
    // Ctrl-C quits through every layer.
    assert_eq!(route_key(&keymap, Key::Char('c'), ctrl(), modal), KeyRoute::Quit);
    // Esc leaves history only.
    assert_eq!(route_key(&keymap, Key::Esc, none, idle(ViewMode::History)), KeyRoute::LeaveHistory);
    assert_eq!(route_key(&keymap, Key::Esc, none, idle(ViewMode::Review)), KeyRoute::Ignored);
    assert_eq!(route_key(&keymap, Key::Other, none, idle(ViewMode::Status)), KeyRoute::Ignored);
}

#[test]
fn editor_keys_edit_save_or_discard() {
    let none = KeyMods::none();
    let shift = KeyMods { shift: true, ..KeyMods::none() };
    let alt = KeyMods { alt: true, ..KeyMods::none() };
    assert_eq!(editor_key(Key::Enter, none), EditorKey::Save);
    assert_eq!(editor_key(Key::Enter, shift), EditorKey::Edit(EditOp::Newline));
    assert_eq!(editor_key(Key::Enter, alt), EditorKey::Edit(EditOp::Newline));
    assert_eq!(editor_key(Key::Char('j'), ctrl()), EditorKey::Edit(EditOp::Newline));
    assert_eq!(editor_key(Key::Char('x'), none), EditorKey::Edit(EditOp::Insert('x')));
    assert_eq!(editor_key(Key::Char('X'), shift), EditorKey::Edit(EditOp::Insert('X')));
    assert_eq!(editor_key(Key::Char('x'), ctrl()), EditorKey::Ignored);
    assert_eq!(editor_key(Key::Esc, ctrl()), EditorKey::Discard);
    assert_eq!(editor_key(Key::Left, none), EditorKey::Edit(EditOp::Left));
    assert_eq!(editor_key(Key::Left, alt), EditorKey::Ignored);
    assert_eq!(editor_key(Key::PageUp, none), EditorKey::Ignored);
}

#[test]
fn modal_and_menu_keys() {
    assert_eq!(modal_key(true, Key::Char('y')), ModalKey::Dismiss);
    assert_eq!(modal_key(false, Key::Char('y')), ModalKey::Confirm);
    assert_eq!(modal_key(false, Key::Enter), ModalKey::Confirm);
    assert_eq!(modal_key(false, Key::Esc), ModalKey::Dismiss);
    assert_eq!(modal_key(false, Key::Char('x')), ModalKey::Ignored);
    assert_eq!(menu_key(Key::Tab), MenuKey::Sibling { next: true });
    assert_eq!(menu_key(Key::BackTab), MenuKey::Sibling { next: false });
    assert_eq!(menu_key(Key::Down), MenuKey::Step { down: true });
    assert_eq!(menu_key(Key::Char(' ')), MenuKey::Activate);
    assert_eq!(menu_key(Key::Char('q')), MenuKey::Close);
    assert_eq!(menu_sibling(MenuId::View, true), MenuId::Theme);
    assert_eq!(menu_sibling(MenuId::Theme, true), MenuId::View);
    assert_eq!(menu_sibling(MenuId::View, false), MenuId::Theme);
}

//! Where a key press goes. Ctrl-C always quits; otherwise an open modal, the
//! in-place editor, or an open dropdown captures the key before the keymap,
//! in that order, and Esc leaves the history view. Each capturing layer then
//! decides what the key does there.

use vstd::prelude::*;
use crate::editor::EditOp;
use crate::keys::{Action, Key, KeyMods, Keymap, chord};
use crate::view::{MenuId, ViewMode};

verus! {

/// What the app is showing that can capture keys.
#[derive(Clone, Copy, Debug, PartialEq, Eq, Structural)]
pub struct InputState {
    pub modal_open: bool,
    pub editing: bool,
    pub menu_open: bool,
    pub view: ViewMode,
}

/// Where a key press goes.
#[derive(Clone, Copy, Debug, PartialEq, Eq, Structural)]
pub enum KeyRoute {
    /// Ctrl-C: quit, whatever is open.
    Quit,
    /// The open modal takes it.
    Modal,
    /// The in-place editor takes it.
    Editor,
    /// The open dropdown takes it.
    Menu,
    /// Esc in the history view: back to the session's home view.
    LeaveHistory,
    /// The keymap binds it to this action.
    Dispatch(Action),
    /// Nothing handles it.
    Ignored,
}

/// Whether the key is Ctrl-C.
pub open spec fn is_ctrl_c(key: Key, mods: KeyMods) -> bool {
    key == Key::Char('c') && mods.control
}

/// Routes a key press.
pub fn route_key(keymap: &Keymap, key: Key, mods: KeyMods, state: InputState) -> (r: KeyRoute)
    ensures
        r == if is_ctrl_c(key, mods) {
            KeyRoute::Quit
        } else if state.modal_open {
            KeyRoute::Modal
        } else if state.editing {
            KeyRoute::Editor
        } else if state.menu_open {
            KeyRoute::Menu
        } else if key == Key::Esc {
            if state.view == ViewMode::History {
                KeyRoute::LeaveHistory
            } else {
                KeyRoute::Ignored
            }
        } else if keymap@.contains_key(chord(key, mods)) {
            KeyRoute::Dispatch(keymap@[chord(key, mods)])
        } else {
            KeyRoute::Ignored
        },
{
    if key == Key::Char('c') && mods.control {
        KeyRoute::Quit
    } else if state.modal_open {
        KeyRoute::Modal
    } else if state.editing {
        KeyRoute::Editor
    } else if state.menu_open {
        KeyRoute::Menu
    } else if key == Key::Esc {
        if state.view == ViewMode::History {
            KeyRoute::LeaveHistory
        } else {
            KeyRoute::Ignored
        }
    } else {
        match keymap.action(key, mods) {
            Some(action) => KeyRoute::Dispatch(action),
            None => KeyRoute::Ignored,
        }
    }
}

/// What a key does in the in-place editor.
#[derive(Clone, Copy, Debug, PartialEq, Eq, Structural)]
pub enum EditorKey {
    /// Apply an editing operation.
    Edit(EditOp),
    /// Enter: save the note.
    Save,
    /// Esc: close without saving.
    Discard,
    /// Other Ctrl/Alt chords do nothing.
    Ignored,
}

/// What a key does in the editor: Enter saves and Esc discards; Shift+Enter,
/// Alt+Enter and Ctrl-J break the line; unmodified editing keys edit and
/// plain characters insert (including those bound to actions elsewhere);
/// other Ctrl/Alt chords are ignored.
pub fn editor_key(key: Key, mods: KeyMods) -> (r: EditorKey)
    ensures
        r == {
            let plain = !mods.control && !mods.alt;
            match key {
                Key::Enter => if mods.shift || mods.alt {
                    EditorKey::Edit(EditOp::Newline)
                } else {
                    EditorKey::Save
                },
                Key::Char(c) => if c == 'j' && mods.control {
                    EditorKey::Edit(EditOp::Newline)
                } else if plain {
                    EditorKey::Edit(EditOp::Insert(c))
                } else {
                    EditorKey::Ignored
                },
                Key::Esc => EditorKey::Discard,
                Key::Backspace => if plain {
                    EditorKey::Edit(EditOp::Backspace)
                } else {
                    EditorKey::Ignored
                },
                Key::Delete => if plain {
                    EditorKey::Edit(EditOp::Delete)
                } else {
                    EditorKey::Ignored
                },
                Key::Left => if plain {
                    EditorKey::Edit(EditOp::Left)
                } else {
                    EditorKey::Ignored
                },
                Key::Right => if plain {
                    EditorKey::Edit(EditOp::Right)
                } else {
                    EditorKey::Ignored
                },
                Key::Up => if plain {
                    EditorKey::Edit(EditOp::Up)
                } else {
                    EditorKey::Ignored
                },
                Key::Down => if plain {
                    EditorKey::Edit(EditOp::Down)
                } else {
                    EditorKey::Ignored
                },
                Key::Home => if plain {
                    EditorKey::Edit(EditOp::Home)
                } else {
                    EditorKey::Ignored
                },
                Key::End => if plain {
                    EditorKey::Edit(EditOp::End)
                } else {
                    EditorKey::Ignored
                },
                _ => EditorKey::Ignored,
            }
        },
{
    let plain = !mods.control && !mods.alt;
    let edit = |op: EditOp| -> (k: EditorKey)
        ensures
            k == (if plain {
                EditorKey::Edit(op)
            } else {
                EditorKey::Ignored
            }),
        {
            if plain {
                EditorKey::Edit(op)
            } else {
                EditorKey::Ignored
            }
        };
    match key {
        Key::Enter => {
            if mods.shift || mods.alt {
                EditorKey::Edit(EditOp::Newline)
            } else {
                EditorKey::Save
            }
        },
        Key::Char(c) => {
            if c == 'j' && mods.control {
                EditorKey::Edit(EditOp::Newline)
            } else {
                edit(EditOp::Insert(c))
            }
        },
        Key::Esc => EditorKey::Discard,
        Key::Backspace => edit(EditOp::Backspace),
        Key::Delete => edit(EditOp::Delete),
        Key::Left => edit(EditOp::Left),
        Key::Right => edit(EditOp::Right),
        Key::Up => edit(EditOp::Up),
        Key::Down => edit(EditOp::Down),
        Key::Home => edit(EditOp::Home),
        Key::End => edit(EditOp::End),
        _ => EditorKey::Ignored,
    }
}

/// What a key does while a modal is open.
#[derive(Clone, Copy, Debug, PartialEq, Eq, Structural)]
pub enum ModalKey {
    /// Close the modal without acting.
    Dismiss,
    /// Confirm the modal's action.
    Confirm,
    /// Nothing.
    Ignored,
}

/// What a key does in a modal: any key dismisses the help overlay; a
/// confirmation takes `y` or Enter as yes, `n` or Esc as no, and ignores the
/// rest.
pub fn modal_key(help: bool, key: Key) -> (r: ModalKey)
    ensures
        r == if help {
            ModalKey::Dismiss
        } else {
            match key {
                Key::Char('y') | Key::Enter => ModalKey::Confirm,
                Key::Char('n') | Key::Esc => ModalKey::Dismiss,
                _ => ModalKey::Ignored,
            }
        },
{
    if help {
        return ModalKey::Dismiss;
    }
    match key {
        Key::Char('y') | Key::Enter => ModalKey::Confirm,
        Key::Char('n') | Key::Esc => ModalKey::Dismiss,
        _ => ModalKey::Ignored,
    }
}

/// What a key does while a dropdown is open.
#[derive(Clone, Copy, Debug, PartialEq, Eq, Structural)]
pub enum MenuKey {
    /// Switch to the next (or previous) menu of the bar.
    Sibling { next: bool },
    /// Move the highlight down (or up).
    Step { down: bool },
    /// Activate the highlighted row, then close.
    Activate,
    /// Close the dropdown; the key is consumed.
    Close,
}

/// What a key does in an open dropdown: Left/BackTab and Right/Tab switch
/// menus, Up/Down move, Enter/Space activate; every other key closes it.
pub fn menu_key(key: Key) -> (r: MenuKey)
    ensures
        r == match key {
            Key::Left | Key::BackTab => MenuKey::Sibling { next: false },
            Key::Right | Key::Tab => MenuKey::Sibling { next: true },
            Key::Up => MenuKey::Step { down: false },
            Key::Down => MenuKey::Step { down: true },
            Key::Enter | Key::Char(' ') => MenuKey::Activate,
            _ => MenuKey::Close,
        },
{
    match key {
        Key::Left | Key::BackTab => MenuKey::Sibling { next: false },
        Key::Right | Key::Tab => MenuKey::Sibling { next: true },
        Key::Up => MenuKey::Step { down: false },
        Key::Down => MenuKey::Step { down: true },
        Key::Enter | Key::Char(' ') => MenuKey::Activate,
        _ => MenuKey::Close,
    }
}

/// The menu next to `menu` in the bar (View, then Theme), wrapping round.
pub fn menu_sibling(menu: MenuId, next: bool) -> (r: MenuId)
    ensures
        r == match menu {
            MenuId::View => MenuId::Theme,
            MenuId::Theme => MenuId::View,
        },
{
    match menu {
        MenuId::View => MenuId::Theme,
        MenuId::Theme => MenuId::View,
    }
}

} // verus!

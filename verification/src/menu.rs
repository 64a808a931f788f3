//! The header's dropdown menus: the rows of the View menu, built from the
//! current settings so each marker shows its state, and the rows of the Theme
//! menu, one per available theme.

use vstd::prelude::*;
use crate::panes::menu_first_selectable;
use crate::pointer::{Position, Rect};
use crate::text::str_eq;
use crate::view::{DiffMode, MenuId, OpenMenu, ViewMode};

verus! {

/// A row's left-gutter marker: a radio (one choice of a group) or a checkbox.
#[derive(Clone, Copy, Debug, PartialEq, Eq, Structural)]
pub enum Marker {
    Radio(bool),
    Check(bool),
}

/// What activating a dropdown row does.
#[derive(Clone, Debug, PartialEq, Eq)]
pub enum MenuCommand {
    SetDiffMode(DiffMode),
    SetLineNumbers(bool),
    SetWrap(bool),
    SetCrossFileScroll(bool),
    GoHome,
    EnterHistory,
    SetTheme(String),
    ToggleChangesPanel,
}

/// One row of a dropdown: a dim rule, or an activatable item.
#[derive(Clone, Debug, PartialEq, Eq)]
pub enum MenuRow {
    Separator,
    Item { label: String, marker: Marker, hint: Option<&'static str>, command: MenuCommand },
}

/// The settings the View menu shows.
#[derive(Clone, Copy, Debug, PartialEq, Eq, Structural)]
pub struct ViewSettings {
    pub diff_mode: DiffMode,
    pub line_numbers: bool,
    pub wrap_lines: bool,
    pub cross_file_scroll: bool,
    pub show_changes: bool,
    pub view: ViewMode,
    /// Whether the session is a branch review, whose home is the review
    /// view rather than the status view.
    pub in_review: bool,
}

/// The session's home view: the review from a review session, else status.
pub open spec fn home_of(in_review: bool) -> ViewMode {
    if in_review {
        ViewMode::Review
    } else {
        ViewMode::Status
    }
}

/// The session's home view.
pub fn home_view(in_review: bool) -> (v: ViewMode)
    ensures
        v == home_of(in_review),
{
    if in_review {
        ViewMode::Review
    } else {
        ViewMode::Status
    }
}

/// Whether `row` is the item with these label, marker, hint and command.
pub open spec fn is_item(
    row: MenuRow,
    label: Seq<char>,
    marker: Marker,
    hint: Option<&'static str>,
    command: MenuCommand,
) -> bool {
    row matches MenuRow::Item { label: l, marker: m, hint: h, command: c } && l@ == label && m
        == marker && h == hint && c == command
}

fn item(label: &str, marker: Marker, hint: Option<&'static str>, command: MenuCommand) -> (row:
    MenuRow)
    ensures
        is_item(row, label@, marker, hint, command),
{
    MenuRow::Item { label: label.to_owned(), marker, hint, command }
}

/// The View menu: the two diff modes, the three toggles, the Changes panel,
/// and the two views, in groups split by rules. From a review session the
/// home row reads "Review".
pub fn view_menu_items(s: ViewSettings) -> (rows: Vec<MenuRow>)
    ensures
        rows@.len() == 11,
        is_item(
            rows@[0],
            "Unified"@,
            Marker::Radio(s.diff_mode == DiffMode::Unified),
            Some("d"),
            MenuCommand::SetDiffMode(DiffMode::Unified),
        ),
        is_item(
            rows@[1],
            "Side by side"@,
            Marker::Radio(s.diff_mode == DiffMode::SideBySide),
            None,
            MenuCommand::SetDiffMode(DiffMode::SideBySide),
        ),
        rows@[2] is Separator,
        is_item(
            rows@[3],
            "Line numbers"@,
            Marker::Check(s.line_numbers),
            Some("n"),
            MenuCommand::SetLineNumbers(!s.line_numbers),
        ),
        is_item(
            rows@[4],
            "Wrap lines"@,
            Marker::Check(s.wrap_lines),
            Some("w"),
            MenuCommand::SetWrap(!s.wrap_lines),
        ),
        is_item(
            rows@[5],
            "Cross-file scroll"@,
            Marker::Check(s.cross_file_scroll),
            Some("f"),
            MenuCommand::SetCrossFileScroll(!s.cross_file_scroll),
        ),
        rows@[6] is Separator,
        is_item(
            rows@[7],
            "Changes panel"@,
            Marker::Check(s.show_changes),
            Some("b"),
            MenuCommand::ToggleChangesPanel,
        ),
        rows@[8] is Separator,
        is_item(
            rows@[9],
            if s.in_review {
                "Review"@
            } else {
                "Status"@
            },
            Marker::Radio(s.view == home_of(s.in_review)),
            Some("1"),
            MenuCommand::GoHome,
        ),
        is_item(
            rows@[10],
            "History"@,
            Marker::Radio(s.view == ViewMode::History),
            Some("2"),
            MenuCommand::EnterHistory,
        ),
{
    let home = home_view(s.in_review);
    let home_label = if s.in_review {
        "Review"
    } else {
        "Status"
    };
    let mut rows: Vec<MenuRow> = Vec::new();
    rows.push(
        item(
            "Unified",
            Marker::Radio(s.diff_mode == DiffMode::Unified),
            Some("d"),
            MenuCommand::SetDiffMode(DiffMode::Unified),
        ),
    );
    rows.push(
        item(
            "Side by side",
            Marker::Radio(s.diff_mode == DiffMode::SideBySide),
            None,
            MenuCommand::SetDiffMode(DiffMode::SideBySide),
        ),
    );
    rows.push(MenuRow::Separator);
    rows.push(
        item(
            "Line numbers",
            Marker::Check(s.line_numbers),
            Some("n"),
            MenuCommand::SetLineNumbers(!s.line_numbers),
        ),
    );
    rows.push(
        item("Wrap lines", Marker::Check(s.wrap_lines), Some("w"), MenuCommand::SetWrap(!s.wrap_lines)),
    );
    rows.push(
        item(
            "Cross-file scroll",
            Marker::Check(s.cross_file_scroll),
            Some("f"),
            MenuCommand::SetCrossFileScroll(!s.cross_file_scroll),
        ),
    );
    rows.push(MenuRow::Separator);
    rows.push(
        item(
            "Changes panel",
            Marker::Check(s.show_changes),
            Some("b"),
            MenuCommand::ToggleChangesPanel,
        ),
    );
    rows.push(MenuRow::Separator);
    rows.push(item(home_label, Marker::Radio(s.view == home), Some("1"), MenuCommand::GoHome));
    rows.push(
        item(
            "History",
            Marker::Radio(s.view == ViewMode::History),
            Some("2"),
            MenuCommand::EnterHistory,
        ),
    );
    rows
}

/// Whether `row` is the Theme menu's row for theme `name`, checked when it
/// is the current theme.
pub open spec fn is_theme_row(row: MenuRow, name: Seq<char>, current: Seq<char>) -> bool {
    row matches MenuRow::Item { label, marker, hint, command } && label@ == name && marker
        == Marker::Radio(name == current) && hint is None && (command matches MenuCommand::SetTheme(
        n,
    ) && n@ == name)
}

/// The Theme menu: one radio row per available theme, in the order given,
/// checked on the current one.
pub fn theme_menu_items(names: &Vec<String>, current: &str) -> (rows: Vec<MenuRow>)
    ensures
        rows@.len() == names@.len(),
        forall|i: int| 0 <= i < names@.len() ==> #[trigger] is_theme_row(rows@[i], names@[i]@, current@),
{
    let mut rows: Vec<MenuRow> = Vec::new();
    let mut i: usize = 0;
    while i < names.len()
        invariant
            i <= names@.len(),
            rows@.len() == i,
            forall|k: int| 0 <= k < i ==> #[trigger] is_theme_row(rows@[k], names@[k]@, current@),
        decreases names.len() - i,
    {
        let name = &names[i];
        let checked = str_eq(name.as_str(), current);
        let label = name.as_str().to_owned();
        let command_name = name.as_str().to_owned();
        rows.push(
            MenuRow::Item {
                label,
                marker: Marker::Radio(checked),
                hint: None,
                command: MenuCommand::SetTheme(command_name),
            },
        );
        i = i + 1;
    }
    rows
}

/// Which rows can be activated: the items, not the rules.
pub fn selectable_rows(rows: &Vec<MenuRow>) -> (r: Vec<bool>)
    ensures
        r@.len() == rows@.len(),
        forall|i: int| 0 <= i < rows@.len() ==> r@[i] == (rows@[i] is Item),
{
    let mut r: Vec<bool> = Vec::new();
    let mut i: usize = 0;
    while i < rows.len()
        invariant
            i <= rows@.len(),
            r@.len() == i,
            forall|k: int| 0 <= k < i ==> r@[k] == (rows@[k] is Item),
        decreases rows.len() - i,
    {
        let is_item = match &rows[i] {
            MenuRow::Item { .. } => true,
            MenuRow::Separator => false,
        };
        r.push(is_item);
        i = i + 1;
    }
    r
}

/// A menu opened on its first activatable row, given its rows.
pub fn open_menu_first(menu: MenuId, rows: &Vec<MenuRow>) -> (r: OpenMenu)
    ensures
        r.menu == menu,
        (exists|k: int| 0 <= k < rows@.len() && rows@[k] is Item) ==> r.item < rows@.len() && rows@[r.item as int] is Item
            && forall|k: int| 0 <= k < r.item ==> !(rows@[k] is Item),
        !(exists|k: int| 0 <= k < rows@.len() && rows@[k] is Item) ==> r.item == 0,
{
    let selectable = selectable_rows(rows);
    let item = menu_first_selectable(selectable.as_slice());
    proof {
        if exists|k: int| 0 <= k < rows@.len() && rows@[k] is Item {
            let k = choose|k: int| 0 <= k < rows@.len() && rows@[k] is Item;
            assert(selectable@[k]);
            assert(selectable@[item as int]);
            assert forall|j: int| 0 <= j < item implies !(rows@[j] is Item) by {
                assert(!selectable@[j]);
            }
        } else {
            assert forall|k: int| 0 <= k < selectable@.len() implies !selectable@[k] by {
                assert(!(rows@[k] is Item));
            }
        }
    }
    OpenMenu { menu, item }
}

/// The open dropdown as the last frame drew it: its box, the full-list
/// index of its first visible row, and each visible row's command (none for
/// a rule or border) and cells.
#[derive(Clone, Debug)]
pub struct DropdownHit {
    pub menu: MenuId,
    pub bounds: Rect,
    pub window_start: usize,
    pub rows: Vec<(Option<MenuCommand>, Rect)>,
}

/// The position from `i` on of the first rectangle covering `pos`.
pub open spec fn first_cover(rects: Seq<Rect>, pos: Position, i: int) -> Option<int>
    decreases rects.len() - i,
{
    if i < 0 || i >= rects.len() {
        None
    } else if rects[i].covers(pos) {
        Some(i)
    } else {
        first_cover(rects, pos, i + 1)
    }
}

/// The position from `i` on of the first activatable row covering `pos`.
pub open spec fn first_live_cover(rows: Seq<(Option<MenuCommand>, Rect)>, pos: Position, i: int) -> Option<int>
    decreases rows.len() - i,
{
    if i < 0 || i >= rows.len() {
        None
    } else if rows[i].0 is Some && rows[i].1.covers(pos) {
        Some(i)
    } else {
        first_live_cover(rows, pos, i + 1)
    }
}

/// The menu whose title covers `pos`: the first such.
pub open spec fn title_at(titles: Seq<(MenuId, Rect)>, pos: Position) -> Option<MenuId> {
    match first_cover(titles.map_values(|t: (MenuId, Rect)| t.1), pos, 0) {
        Some(i) => Some(titles[i].0),
        None => None,
    }
}

/// The menu whose recorded title covers `pos`.
pub fn menu_title_at(titles: &Vec<(MenuId, Rect)>, pos: Position) -> (r: Option<MenuId>)
    ensures
        r == title_at(titles@, pos),
{
    let ghost rects = titles@.map_values(|t: (MenuId, Rect)| t.1);
    let mut i: usize = 0;
    while i < titles.len()
        invariant
            i <= titles@.len(),
            rects == titles@.map_values(|t: (MenuId, Rect)| t.1),
            first_cover(rects, pos, 0) == first_cover(rects, pos, i as int),
        decreases titles.len() - i,
    {
        if titles[i].1.contains(pos) {
            return Some(titles[i].0);
        }
        i = i + 1;
    }
    None
}

/// The recorded title rectangle of `menu`: the first recorded for it.
pub fn menu_title_rect(titles: &Vec<(MenuId, Rect)>, menu: MenuId) -> (r: Option<Rect>)
    ensures
        r matches Some(rect) ==> exists|i: int|
            0 <= i < titles@.len() && titles@[i] == (menu, rect) && forall|j: int| 0 <= j < i ==> titles@[j].0 != menu,
        r is None ==> forall|j: int| 0 <= j < titles@.len() ==> titles@[j].0 != menu,
{
    let mut i: usize = 0;
    while i < titles.len()
        invariant
            i <= titles@.len(),
            forall|j: int| 0 <= j < i ==> titles@[j].0 != menu,
        decreases titles.len() - i,
    {
        if titles[i].0 == menu {
            return Some(titles[i].1);
        }
        i = i + 1;
    }
    None
}

/// A copy of a menu command.
fn copy_command(c: &MenuCommand) -> (r: MenuCommand)
    ensures
        r == *c,
{
    match c {
        MenuCommand::SetDiffMode(m) => MenuCommand::SetDiffMode(*m),
        MenuCommand::SetLineNumbers(b) => MenuCommand::SetLineNumbers(*b),
        MenuCommand::SetWrap(b) => MenuCommand::SetWrap(*b),
        MenuCommand::SetCrossFileScroll(b) => MenuCommand::SetCrossFileScroll(*b),
        MenuCommand::GoHome => MenuCommand::GoHome,
        MenuCommand::EnterHistory => MenuCommand::EnterHistory,
        MenuCommand::SetTheme(name) => MenuCommand::SetTheme(name.clone()),
        MenuCommand::ToggleChangesPanel => MenuCommand::ToggleChangesPanel,
    }
}

/// What a left click does to the menus.
#[derive(Clone, Debug, PartialEq, Eq)]
pub enum MenuClick {
    /// The bar is hidden: the click routes on.
    Pass,
    /// A click away from any drawn dropdown: close the open one (if any),
    /// then route the click on.
    CloseAndPass,
    /// A second click on the open menu's title closes it.
    Close,
    /// A click on a title opens that menu on its first row.
    Open(MenuId),
    /// A click on a row of the current dropdown: run its command, then close.
    Activate(MenuCommand),
    /// A click on a rule or the border of the current dropdown: nothing, and
    /// the menu stays open.
    Consume,
    /// A click inside a dropdown drawn for another menu than the open one:
    /// close it without acting on rows that no longer hold.
    CloseStale,
}

/// What a click at `pos` does, given the bar's titles and the dropdown the
/// last frame drew.
pub open spec fn click_on_menus(
    show_bar: bool,
    titles: Seq<(MenuId, Rect)>,
    dropdown: Option<(MenuId, Rect, Seq<(Option<MenuCommand>, Rect)>)>,
    open: Option<OpenMenu>,
    pos: Position,
) -> MenuClick {
    if !show_bar {
        MenuClick::Pass
    } else if title_at(titles, pos) is Some {
        let menu = title_at(titles, pos)->0;
        if open matches Some(o) && o.menu == menu {
            MenuClick::Close
        } else {
            MenuClick::Open(menu)
        }
    } else {
        match dropdown {
            Some((m, bounds, rows)) => if bounds.covers(pos) {
                if open matches Some(o) && o.menu == m {
                    match first_cover(rows.map_values(|r: (Option<MenuCommand>, Rect)| r.1), pos, 0) {
                        Some(i) => match rows[i].0 {
                            Some(c) => MenuClick::Activate(c),
                            None => MenuClick::Consume,
                        },
                        None => MenuClick::Consume,
                    }
                } else {
                    MenuClick::CloseStale
                }
            } else {
                MenuClick::CloseAndPass
            },
            None => MenuClick::CloseAndPass,
        }
    }
}

/// The parts of a drawn dropdown a click reads.
pub open spec fn drawn(d: Option<&DropdownHit>) -> Option<(MenuId, Rect, Seq<(Option<MenuCommand>, Rect)>)> {
    match d {
        Some(h) => Some((h.menu, h.bounds, h.rows@)),
        None => None,
    }
}

/// Handles a left click against the menu bar and the drawn dropdown.
pub fn menu_click(
    show_bar: bool,
    titles: &Vec<(MenuId, Rect)>,
    dropdown: Option<&DropdownHit>,
    open: Option<OpenMenu>,
    pos: Position,
) -> (r: MenuClick)
    ensures
        r == click_on_menus(show_bar, titles@, drawn(dropdown), open, pos),
{
    if !show_bar {
        return MenuClick::Pass;
    }
    if let Some(menu) = menu_title_at(titles, pos) {
        return match open {
            Some(o) if o.menu == menu => MenuClick::Close,
            _ => MenuClick::Open(menu),
        };
    }
    let d = match dropdown {
        Some(d) => d,
        None => {
            return MenuClick::CloseAndPass;
        },
    };
    if !d.bounds.contains(pos) {
        return MenuClick::CloseAndPass;
    }
    let fresh = match open {
        Some(o) => o.menu == d.menu,
        None => false,
    };
    if !fresh {
        return MenuClick::CloseStale;
    }
    let ghost rects = d.rows@.map_values(|r: (Option<MenuCommand>, Rect)| r.1);
    let mut i: usize = 0;
    while i < d.rows.len()
        invariant
            i <= d.rows@.len(),
            rects == d.rows@.map_values(|r: (Option<MenuCommand>, Rect)| r.1),
            first_cover(rects, pos, 0) == first_cover(rects, pos, i as int),
            show_bar,
            title_at(titles@, pos) is None,
            dropdown == Some(d),
            d.bounds.covers(pos),
            open matches Some(o) && o.menu == d.menu,
        decreases d.rows.len() - i,
    {
        if d.rows[i].1.contains(pos) {
            return match &d.rows[i].0 {
                Some(c) => MenuClick::Activate(copy_command(c)),
                None => MenuClick::Consume,
            };
        }
        i = i + 1;
    }
    MenuClick::Consume
}

/// What moving the mouse does to an open menu.
#[derive(Clone, Copy, Debug, PartialEq, Eq, Structural)]
pub enum MenuHover {
    /// Nothing changes.
    Unchanged,
    /// Over another menu's title: switch to it, on its first row.
    Open(MenuId),
    /// Over another activatable row of the open dropdown: highlight it (its
    /// full-list index).
    Highlight(usize),
}

/// What the pointer at `pos` does to the open menu: hover slides an open
/// dropdown between titles and rows, and never opens one.
pub open spec fn hover_on_menus(
    titles: Seq<(MenuId, Rect)>,
    dropdown: Option<(MenuId, Rect, usize, Seq<(Option<MenuCommand>, Rect)>)>,
    open: Option<OpenMenu>,
    pos: Position,
) -> MenuHover {
    match open {
        None => MenuHover::Unchanged,
        Some(o) => if title_at(titles, pos) is Some {
            let menu = title_at(titles, pos)->0;
            if menu != o.menu {
                MenuHover::Open(menu)
            } else {
                MenuHover::Unchanged
            }
        } else {
            match dropdown {
                Some((m, bounds, start, rows)) => if m == o.menu && bounds.covers(pos) {
                    match first_live_cover(rows, pos, 0) {
                        Some(v) => if start + v != o.item {
                            MenuHover::Highlight((start + v) as usize)
                        } else {
                            MenuHover::Unchanged
                        },
                        None => MenuHover::Unchanged,
                    }
                } else {
                    MenuHover::Unchanged
                },
                None => MenuHover::Unchanged,
            }
        },
    }
}

/// The parts of a drawn dropdown hovering reads.
pub open spec fn drawn_window(d: Option<&DropdownHit>) -> Option<(MenuId, Rect, usize, Seq<(Option<MenuCommand>, Rect)>)> {
    match d {
        Some(h) => Some((h.menu, h.bounds, h.window_start, h.rows@)),
        None => None,
    }
}

/// Handles the pointer moving over the menus.
pub fn menu_hover(titles: &Vec<(MenuId, Rect)>, dropdown: Option<&DropdownHit>, open: Option<OpenMenu>, pos: Position) -> (r:
    MenuHover)
    requires
        dropdown matches Some(d) ==> d.window_start + d.rows@.len() <= usize::MAX,
    ensures
        r == hover_on_menus(titles@, drawn_window(dropdown), open, pos),
{
    let o = match open {
        Some(o) => o,
        None => {
            return MenuHover::Unchanged;
        },
    };
    if let Some(menu) = menu_title_at(titles, pos) {
        if menu != o.menu {
            return MenuHover::Open(menu);
        }
        return MenuHover::Unchanged;
    }
    let d = match dropdown {
        Some(d) => d,
        None => {
            return MenuHover::Unchanged;
        },
    };
    if d.menu != o.menu || !d.bounds.contains(pos) {
        return MenuHover::Unchanged;
    }
    let mut v: usize = 0;
    while v < d.rows.len()
        invariant
            v <= d.rows@.len(),
            d.window_start + d.rows@.len() <= usize::MAX,
            first_live_cover(d.rows@, pos, 0) == first_live_cover(d.rows@, pos, v as int),
            open == Some(o),
            title_at(titles@, pos) is None,
            dropdown == Some(d),
            d.menu == o.menu,
            d.bounds.covers(pos),
        decreases d.rows.len() - v,
    {
        if d.rows[v].0.is_some() && d.rows[v].1.contains(pos) {
            let item = d.window_start + v;
            if item != o.item {
                return MenuHover::Highlight(item);
            }
            return MenuHover::Unchanged;
        }
        v = v + 1;
    }
    MenuHover::Unchanged
}

/// Hovering never opens a menu, and a click runs a row's command only from
/// the dropdown drawn for the menu that is open.
pub proof fn lemma_menus_act_only_when_open(
    show_bar: bool,
    titles: Seq<(MenuId, Rect)>,
    dropdown: Option<(MenuId, Rect, Seq<(Option<MenuCommand>, Rect)>)>,
    window: Option<(MenuId, Rect, usize, Seq<(Option<MenuCommand>, Rect)>)>,
    open: Option<OpenMenu>,
    pos: Position,
)
    ensures
        hover_on_menus(titles, window, None, pos) == MenuHover::Unchanged,
        click_on_menus(show_bar, titles, dropdown, open, pos) is Activate ==> (dropdown matches Some(d) && open matches Some(o)
            && o.menu == d.0 && d.1.covers(pos)),
{
}

} // verus!

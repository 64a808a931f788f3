use strix::menu::{
    menu_click, menu_hover, menu_title_at, menu_title_rect, open_menu_first, view_menu_items, DropdownHit,
    MenuClick, MenuCommand, MenuHover, MenuRow, ViewSettings,
};
use strix::pointer::{Position, Rect};
use strix::view::{DiffMode, MenuId, OpenMenu, ViewMode};

fn rect(x: u16, y: u16, width: u16, height: u16) -> Rect {
    Rect { x, y, width, height }
}

fn pos(x: u16, y: u16) -> Position {
    Position { x, y }
}

fn titles() -> Vec<(MenuId, Rect)> {
    vec![(MenuId::View, rect(0, 0, 6, 1)), (MenuId::Theme, rect(7, 0, 7, 1))]
}

fn dropdown(menu: MenuId) -> DropdownHit {
    DropdownHit {
        menu,
        bounds: rect(0, 1, 20, 6),
        window_start: 2,
        rows: vec![
            (None, rect(0, 1, 20, 1)),
            (Some(MenuCommand::SetWrap(true)), rect(1, 2, 18, 1)),
            (None, rect(1, 3, 18, 1)),
            (Some(MenuCommand::SetTheme("dusk".to_string())), rect(1, 4, 18, 1)),
        ],
    }
}

fn open(menu: MenuId, item: usize) -> Option<OpenMenu> {
    Some(OpenMenu { menu, item })
}

#[test]
fn titles_are_found_by_position_and_by_menu() {
    assert_eq!(menu_title_at(&titles(), pos(8, 0)), Some(MenuId::Theme));
    assert_eq!(menu_title_at(&titles(), pos(6, 0)), None);
    assert_eq!(menu_title_rect(&titles(), MenuId::Theme), Some(rect(7, 0, 7, 1)));
    assert_eq!(menu_title_rect(&Vec::new(), MenuId::View), None);
}

#[test]
fn a_menu_opens_on_its_first_item() {
    let settings = ViewSettings {
        diff_mode: DiffMode::Unified,
        line_numbers: false,
        wrap_lines: false,
        cross_file_scroll: false,
        show_changes: true,
        view: ViewMode::Status,
        in_review: false,
    };
    let rows = view_menu_items(settings);
    assert_eq!(open_menu_first(MenuId::View, &rows), OpenMenu { menu: MenuId::View, item: 0 });
    let ruled = vec![MenuRow::Separator, MenuRow::Separator];
    assert_eq!(open_menu_first(MenuId::Theme, &ruled).item, 0);
}

#[test]
fn title_clicks_toggle_their_menu() {
    let t = titles();
    assert_eq!(menu_click(true, &t, None, None, pos(1, 0)), MenuClick::Open(MenuId::View));
    assert_eq!(menu_click(true, &t, None, open(MenuId::View, 0), pos(1, 0)), MenuClick::Close);
    assert_eq!(menu_click(true, &t, None, open(MenuId::View, 0), pos(9, 0)), MenuClick::Open(MenuId::Theme));
    assert_eq!(menu_click(false, &t, None, open(MenuId::View, 0), pos(1, 0)), MenuClick::Pass);
}

#[test]
fn dropdown_clicks_act_consume_or_close() {
    let t = titles();
    let d = dropdown(MenuId::View);
    assert_eq!(
        menu_click(true, &t, Some(&d), open(MenuId::View, 3), pos(5, 2)),
        MenuClick::Activate(MenuCommand::SetWrap(true))
    );
    assert_eq!(
        menu_click(true, &t, Some(&d), open(MenuId::View, 3), pos(5, 4)),
        MenuClick::Activate(MenuCommand::SetTheme("dusk".to_string()))
    );
    assert_eq!(menu_click(true, &t, Some(&d), open(MenuId::View, 3), pos(5, 3)), MenuClick::Consume);
    assert_eq!(menu_click(true, &t, Some(&d), open(MenuId::View, 3), pos(5, 6)), MenuClick::Consume);
    assert_eq!(menu_click(true, &t, Some(&d), open(MenuId::Theme, 0), pos(5, 2)), MenuClick::CloseStale);
    assert_eq!(menu_click(true, &t, Some(&d), open(MenuId::View, 3), pos(40, 9)), MenuClick::CloseAndPass);
    assert_eq!(menu_click(true, &t, None, None, pos(40, 9)), MenuClick::CloseAndPass);
}

#[test]
fn hover_slides_an_open_menu_and_never_opens_one() {
    let t = titles();
    let d = dropdown(MenuId::View);
    assert_eq!(menu_hover(&t, Some(&d), None, pos(9, 0)), MenuHover::Unchanged);
    assert_eq!(menu_hover(&t, Some(&d), open(MenuId::View, 3), pos(9, 0)), MenuHover::Open(MenuId::Theme));
    assert_eq!(menu_hover(&t, Some(&d), open(MenuId::View, 3), pos(1, 0)), MenuHover::Unchanged);
    assert_eq!(menu_hover(&t, Some(&d), open(MenuId::View, 1), pos(5, 2)), MenuHover::Highlight(3));
    assert_eq!(menu_hover(&t, Some(&d), open(MenuId::View, 3), pos(5, 2)), MenuHover::Unchanged);
    assert_eq!(menu_hover(&t, Some(&d), open(MenuId::View, 3), pos(5, 4)), MenuHover::Highlight(5));
    assert_eq!(menu_hover(&t, Some(&d), open(MenuId::View, 3), pos(5, 3)), MenuHover::Unchanged);
    assert_eq!(menu_hover(&t, Some(&d), open(MenuId::Theme, 0), pos(5, 2)), MenuHover::Unchanged);
}

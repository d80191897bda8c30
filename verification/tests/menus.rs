//! Scenario tests for the popup-menu tree and its tracking state machine.

use quelthalas::geometry::{Point, Rect};
use quelthalas::menu::{
    HitTest, ItemMetric, MenuInfo, MenuKey, Tracker, convert_menu_info_list_to_menu,
    find_item_by_coordinates, focused_at_depth, focused_closed_submenu_at,
};

fn utf16(s: &str) -> Vec<u16> {
    s.encode_utf16().collect()
}

fn leaf(text: &str, id: u32, disabled: bool) -> MenuInfo {
    MenuInfo::MenuItem { text: utf16(text), command_id: id, disabled }
}

/// The menu of the keyboard-navigation scenario: two leaves (the second
/// disabled), a divider, and a submenu with two leaves.
fn sample_infos() -> Vec<MenuInfo> {
    vec![
        leaf("New", 1, false),
        leaf("Open", 2, true),
        MenuInfo::MenuDivider,
        MenuInfo::SubMenu {
            menu_list: vec![leaf("A", 10, false), leaf("B", 11, false)],
            text: utf16("More"),
        },
    ]
}

fn metrics(n: usize) -> Vec<ItemMetric> {
    (0..n)
        .map(|_| ItemMetric { width: 80, height: 20 })
        .collect()
}

const WORK: Rect = Rect { left: 0, top: 0, right: 640, bottom: 480 };

/// Width of the sample popup: the 138-unit minimum list width plus border
/// and margin on both sides.
const POPUP_WIDTH: i32 = 148;

fn shown_tracker() -> Tracker {
    let mut menu = convert_menu_info_list_to_menu(sample_infos());
    let pos = menu.show_popup(10, 10, 0, 0, WORK, &metrics(4));
    assert_eq!(pos.left, 10);
    assert_eq!(pos.top, 10);
    Tracker::new(menu, Point { x: 0, y: 0 })
}

#[test]
fn down_focuses_disabled_leaves_and_skips_dividers() {
    // From index 0, Down lands on the disabled leaf at 1; Down again skips
    // the divider and lands on the submenu at 3; Right opens the submenu;
    // Escape closes it and the parent keeps index 3 focused.
    let mut t = shown_tracker();
    t.handle_key(MenuKey::Home);
    assert_eq!(focused_at_depth(&t.top_menu, 0), Some(0));
    t.handle_key(MenuKey::Down);
    assert_eq!(focused_at_depth(&t.top_menu, 0), Some(1));
    t.handle_key(MenuKey::Down);
    assert_eq!(focused_at_depth(&t.top_menu, 0), Some(3));

    let step = t.handle_key(MenuKey::Right);
    assert!(step.want_open);
    let opened = t.open_current_sub(WORK, &metrics(2));
    assert!(opened.is_some());
    assert_eq!(t.current_depth, 1);

    let step = t.handle_key(MenuKey::Escape);
    assert!(!step.exit);
    assert_eq!(t.current_depth, 0);
    assert_eq!(focused_at_depth(&t.top_menu, 0), Some(3));
    // The submenu's popup is closed again.
    assert!(focused_closed_submenu_at(&t.top_menu, 0));
}

#[test]
fn focus_stops_at_the_ends_without_wrapping() {
    let mut t = shown_tracker();
    t.handle_key(MenuKey::End);
    assert_eq!(focused_at_depth(&t.top_menu, 0), Some(3));
    t.handle_key(MenuKey::Down);
    assert_eq!(focused_at_depth(&t.top_menu, 0), Some(3));
    t.handle_key(MenuKey::Home);
    assert_eq!(focused_at_depth(&t.top_menu, 0), Some(0));
    t.handle_key(MenuKey::Up);
    assert_eq!(focused_at_depth(&t.top_menu, 0), Some(0));
}

#[test]
fn escape_at_the_root_ends_the_session() {
    let mut t = shown_tracker();
    let step = t.handle_key(MenuKey::Escape);
    assert!(step.exit);
    let step = t.handle_key(MenuKey::Dismiss);
    assert!(step.exit);
    assert!(step.command.is_none());
}

#[test]
fn popup_flips_to_the_work_area_edge_when_it_would_overflow() {
    // Anchored so the preferred position overflows the right edge by 20
    // with no anchor width: the popup lands against the right edge.
    let mut menu = convert_menu_info_list_to_menu(sample_infos());
    let x = WORK.right - POPUP_WIDTH + 20;
    let pos = menu.show_popup(x, 10, 0, 0, WORK, &metrics(4));
    assert_eq!(pos.left, WORK.right - POPUP_WIDTH);

    // A popup wider than the whole work area clamps to the left edge.
    let narrow = Rect { left: 0, top: 0, right: 100, bottom: 480 };
    let mut menu2 = convert_menu_info_list_to_menu(sample_infos());
    let pos2 = menu2.show_popup(30, 10, 0, 0, narrow, &metrics(4));
    assert_eq!(pos2.left, 0);
}

#[test]
fn tall_menus_switch_into_scrolling_mode() {
    let mut menu = convert_menu_info_list_to_menu(sample_infos());
    let short = Rect { left: 0, top: 0, right: 640, bottom: 100 };
    let pos = menu.show_popup(10, 10, 0, 0, short, &metrics(4));
    assert!(menu.is_scrolling);
    assert_eq!(pos.bottom - pos.top, 100);
}

#[test]
fn hit_testing_resolves_items_borders_and_misses() {
    let mut menu = convert_menu_info_list_to_menu(sample_infos());
    let pos = menu.show_popup(10, 10, 0, 0, WORK, &metrics(4));
    // Inside the first item (list origin is border + margin = 5).
    let (ht, _) = find_item_by_coordinates(&menu, Point { x: pos.left + 20, y: pos.top + 10 });
    assert_eq!(ht, HitTest::Item(0));
    // On the divider's slot.
    let (ht, _) = find_item_by_coordinates(&menu, Point { x: pos.left + 20, y: pos.top + 74 });
    assert_eq!(ht, HitTest::Item(2));
    // In the top margin: border.
    let (ht, _) = find_item_by_coordinates(&menu, Point { x: pos.left + 20, y: pos.top + 2 });
    assert_eq!(ht, HitTest::Border);
    // Outside the window entirely.
    let (ht, _) = find_item_by_coordinates(&menu, Point { x: pos.left - 5, y: pos.top });
    assert_eq!(ht, HitTest::Nowhere);
}

#[test]
fn clicking_an_enabled_leaf_executes_its_command() {
    let mut t = shown_tracker();
    let inside_new = Point { x: 30, y: 20 };
    let step = t.handle_button_down(inside_new);
    assert!(!step.exit);
    assert!(!step.want_open);
    assert_eq!(focused_at_depth(&t.top_menu, 0), Some(0));
    let step = t.handle_button_up(inside_new);
    assert!(step.exit);
    assert_eq!(step.command, Some(1));
}

#[test]
fn clicking_a_disabled_leaf_executes_nothing() {
    let mut t = shown_tracker();
    let inside_open = Point { x: 30, y: 10 + 39 + 1 };
    t.handle_button_down(inside_open);
    assert_eq!(focused_at_depth(&t.top_menu, 0), Some(1));
    let step = t.handle_button_up(inside_open);
    assert!(!step.exit);
    assert!(step.command.is_none());
}

#[test]
fn clicking_outside_every_popup_ends_the_session() {
    let mut t = shown_tracker();
    let step = t.handle_button_down(Point { x: 600, y: 400 });
    assert!(step.exit);
}

#[test]
fn hovering_a_submenu_item_asks_to_open_it() {
    let mut t = shown_tracker();
    let inside_more = Point { x: 30, y: 10 + 96 };
    let step = t.handle_mouse_move(inside_more);
    assert!(!step.exit);
    assert!(step.want_open);
    assert_eq!(focused_at_depth(&t.top_menu, 0), Some(3));
    // Moving off the items clears the focus again.
    let on_border = Point { x: 30, y: 12 };
    let step = t.handle_mouse_move(on_border);
    assert!(!step.want_open);
    assert_eq!(focused_at_depth(&t.top_menu, 0), None);
}

#[test]
fn submenu_session_executes_nested_commands() {
    let mut t = shown_tracker();
    t.handle_key(MenuKey::End);
    t.handle_key(MenuKey::Right);
    let opened = t.open_current_sub(WORK, &metrics(2)).unwrap();
    assert_eq!(t.current_depth, 1);
    // The child opens to the right of the parent item's edge.
    assert!(opened.left > 10);
    t.handle_key(MenuKey::Home);
    assert_eq!(focused_at_depth(&t.top_menu, 1), Some(0));
    t.handle_key(MenuKey::Down);
    assert_eq!(focused_at_depth(&t.top_menu, 1), Some(1));
    // Release over the focused nested leaf executes it.
    let inside_b = Point { x: opened.left + 20, y: opened.top + 5 + 34 + 1 };
    let step = t.handle_button_up(inside_b);
    assert!(step.exit);
    assert_eq!(step.command, Some(11));
}

#[test]
fn exit_tracking_closes_every_popup() {
    let mut t = shown_tracker();
    t.handle_key(MenuKey::End);
    t.handle_key(MenuKey::Right);
    t.open_current_sub(WORK, &metrics(2));
    assert_eq!(t.current_depth, 1);
    t.exit_tracking();
    assert_eq!(t.current_depth, 0);
    assert!(t.top_menu.window.is_none());
    assert!(t.top_menu.focused_item_index.is_none());
}

#[test]
fn conversion_mirrors_the_description() {
    let menu = convert_menu_info_list_to_menu(sample_infos());
    assert_eq!(menu.items.len(), 4);
    assert!(menu.window.is_none());
    assert!(menu.focused_item_index.is_none());
    assert!(!menu.is_scrolling);
}

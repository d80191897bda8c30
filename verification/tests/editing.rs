//! Scenario tests for the text-input editing engine.

use quelthalas::geometry::{Point, Rect};
use quelthalas::input::{Context, HostCommand, Type, VirtualKey, WordBreakAction};
use quelthalas::input::{paste_text_prefix, word_break_proc};

/// One advance width used for every code unit in these tests.
const ADV: i32 = 10;

fn utf16(s: &str) -> Vec<u16> {
    s.encode_utf16().collect()
}

fn advances_for(text: &[u16]) -> Vec<i32> {
    text.iter().map(|_| ADV).collect()
}

/// A field holding `text`, with a 100-unit-wide viewport and the caret at 0.
fn field_with(text: &str) -> Context {
    let mut c = Context::new(Type::Text, 16, 8);
    c.format_rect = Rect { left: 0, top: 0, right: 100, bottom: 16 };
    let t = utf16(text);
    let a = advances_for(&t);
    c.set_text(&t, &a);
    c
}

fn text_of(c: &Context) -> String {
    String::from_utf16(&c.get_text()).unwrap()
}

#[test]
fn insert_then_undo_restores_buffer_and_selection() {
    // Buffer "Hello", selection (2,2); insert "X"; then undo.
    let mut c = field_with("Hello");
    c.set_selection(Some(2), Some(2));
    let x = utf16("X");
    let xa = advances_for(&x);
    c.replace_selection(true, &x, &xa, true);
    assert_eq!(text_of(&c), "HeXllo");
    assert_eq!((c.selection_start, c.selection_end), (3, 3));
    c.on_undo();
    assert_eq!(text_of(&c), "Hello");
    assert_eq!((c.selection_start, c.selection_end), (2, 2));
}

#[test]
fn delete_then_undo_restores_deleted_text() {
    let mut c = field_with("Hello");
    c.set_selection(Some(1), Some(4));
    c.clear();
    assert_eq!(text_of(&c), "Ho");
    assert_eq!((c.selection_start, c.selection_end), (1, 1));
    c.on_undo();
    assert_eq!(text_of(&c), "Hello");
    assert_eq!((c.selection_start, c.selection_end), (1, 4));
}

#[test]
fn consecutive_typing_coalesces_into_one_undo_group() {
    let mut c = field_with("");
    for ch in "abc".encode_utf16() {
        c.on_char(ch, false, ADV);
    }
    assert_eq!(text_of(&c), "abc");
    c.on_undo();
    assert_eq!(text_of(&c), "");
    // The restoring edit was recorded too, so undoing again redoes it.
    c.on_undo();
    assert_eq!(text_of(&c), "abc");
}

#[test]
fn consecutive_backspaces_coalesce_into_one_undo_group() {
    let mut c = field_with("abc");
    c.set_selection(Some(3), Some(3));
    for _ in 0..3 {
        c.on_char(8, false, ADV);
    }
    assert_eq!(text_of(&c), "");
    c.on_undo();
    assert_eq!(text_of(&c), "abc");
    assert_eq!((c.selection_start, c.selection_end), (0, 3));
}

#[test]
fn a_caret_move_breaks_undo_coalescing() {
    let mut c = field_with("");
    for ch in "ab".encode_utf16() {
        c.on_char(ch, false, ADV);
    }
    c.set_selection(Some(1), Some(1));
    c.on_char('x' as u16, false, ADV);
    assert_eq!(text_of(&c), "axb");
    // Only the edit after the caret move is undone.
    c.on_undo();
    assert_eq!(text_of(&c), "ab");
}

#[test]
fn select_all_backspace_empties_buffer() {
    // Buffer "Hello", select-all, Backspace.
    let mut c = field_with("Hello");
    c.set_selection(Some(0), Some(5));
    let cmd = c.on_char(8, false, ADV);
    assert_eq!(cmd, HostCommand::Nothing);
    assert_eq!(text_of(&c), "");
    assert_eq!((c.selection_start, c.selection_end), (0, 0));
}

#[test]
fn backspace_on_empty_selection_deletes_one_column() {
    let mut c = field_with("Hello");
    c.set_selection(Some(3), Some(3));
    c.on_char(8, false, ADV);
    assert_eq!(text_of(&c), "Helo");
    assert_eq!((c.selection_start, c.selection_end), (2, 2));
}

#[test]
fn empty_replacement_over_empty_selection_is_a_no_op() {
    // No buffer mutation and no undo record may come out of it.
    let mut c = field_with("Hello");
    c.set_selection(Some(2), Some(2));
    let inval_before = c.invalidated.len();
    let undo_before = (c.undo_position, c.undo_insert_count, c.undo_buffer.0.clone());
    let empty: Vec<u16> = Vec::new();
    let eadv: Vec<i32> = Vec::new();
    c.replace_selection(true, &empty, &eadv, true);
    assert_eq!(text_of(&c), "Hello");
    assert_eq!((c.selection_start, c.selection_end), (2, 2));
    assert_eq!(c.invalidated.len(), inval_before);
    assert_eq!((c.undo_position, c.undo_insert_count, c.undo_buffer.0.clone()), undo_before);
}

#[test]
fn unchanged_selection_performs_zero_invalidation() {
    let mut c = field_with("Hello");
    c.set_selection(Some(1), Some(4));
    let inval_before = c.invalidated.len();
    let changed = c.set_selection(Some(1), Some(4));
    assert!(!changed);
    assert_eq!(c.invalidated.len(), inval_before);
    let changed = c.set_selection(Some(1), Some(3));
    assert!(changed);
}

#[test]
fn selection_endpoints_clamp_to_text() {
    let mut c = field_with("Hi");
    c.set_selection(Some(50), Some(99));
    assert_eq!((c.selection_start, c.selection_end), (2, 2));
    // An absent end extends to the end of the text.
    c.set_selection(Some(1), None);
    assert_eq!((c.selection_start, c.selection_end), (1, 2));
}

#[test]
fn scroll_caret_is_idempotent() {
    // Text wider than the viewport, caret at the end: the first call
    // scrolls, the second moves nothing.
    let mut c = field_with("ABCDEFGHIJKLMNOPQRST");
    c.set_selection(Some(20), Some(20));
    c.scroll_caret();
    let first = c.x_offset;
    assert!(first > 0);
    c.scroll_caret();
    assert_eq!(c.x_offset, first);
    c.scroll_caret();
    assert_eq!(c.x_offset, first);
}

#[test]
fn width_limit_trims_only_the_inserted_tail() {
    // Viewport 50 units, text "AAAA" is 40; inserting "BBB" (30) overflows,
    // so exactly two inserted units go and the buffer keeps all old text.
    let mut c = field_with("AAAA");
    c.format_rect = Rect { left: 0, top: 0, right: 50, bottom: 16 };
    c.set_selection(Some(4), Some(4));
    let b = utf16("BBB");
    let ba = advances_for(&b);
    c.replace_selection(true, &b, &ba, true);
    assert_eq!(text_of(&c), "AAAAB");
    assert_eq!(c.text_width, 50);
    assert_eq!((c.selection_start, c.selection_end), (5, 5));
}

#[test]
fn width_limit_insert_then_undo_round_trips() {
    let mut c = field_with("AAAA");
    c.format_rect = Rect { left: 0, top: 0, right: 50, bottom: 16 };
    c.set_selection(Some(4), Some(4));
    let b = utf16("BBB");
    let ba = advances_for(&b);
    c.replace_selection(true, &b, &ba, true);
    assert_eq!(text_of(&c), "AAAAB");
    c.on_undo();
    assert_eq!(text_of(&c), "AAAA");
    assert_eq!((c.selection_start, c.selection_end), (4, 4));
}

#[test]
fn printable_characters_insert_and_numeric_fields_reject_letters() {
    let mut c = field_with("");
    c.on_char('a' as u16, false, ADV);
    c.on_char('b' as u16, false, ADV);
    assert_eq!(text_of(&c), "ab");

    let mut n = Context::new(Type::Number, 16, 8);
    n.format_rect = Rect { left: 0, top: 0, right: 100, bottom: 16 };
    n.on_char('a' as u16, false, ADV);
    n.on_char('7' as u16, false, ADV);
    assert_eq!(text_of(&n), "7");
}

#[test]
fn control_characters_become_host_commands() {
    let mut c = field_with("Hello");
    assert_eq!(c.on_char(0x03, true, ADV), HostCommand::Copy);
    assert_eq!(c.on_char(0x16, true, ADV), HostCommand::Paste);
    assert_eq!(c.on_char(0x18, true, ADV), HostCommand::Cut);
    assert_eq!(c.on_char(0x1A, true, ADV), HostCommand::Undo);
    assert_eq!(text_of(&c), "Hello");
}

#[test]
fn password_fields_block_copy_and_cut() {
    let mut p = Context::new(Type::Password, 16, 8);
    p.format_rect = Rect { left: 0, top: 0, right: 100, bottom: 16 };
    let t = utf16("secret");
    let a = advances_for(&t);
    p.set_text(&t, &a);
    p.set_selection(Some(0), Some(6));
    assert_eq!(p.on_char(0x03, true, ADV), HostCommand::Nothing);
    assert_eq!(p.on_char(0x18, true, ADV), HostCommand::Nothing);
    assert!(p.on_copy().is_none());
    assert!(p.on_cut().is_none());
    assert_eq!(text_of(&p), "secret");
}

#[test]
fn copy_and_cut_report_the_selected_range() {
    let mut c = field_with("Hello");
    c.set_selection(Some(1), Some(4));
    let copied = c.on_copy().unwrap();
    assert_eq!(String::from_utf16(&copied).unwrap(), "ell");
    let cut = c.on_cut().unwrap();
    assert_eq!(String::from_utf16(&cut).unwrap(), "ell");
    assert_eq!(text_of(&c), "Ho");
}

#[test]
fn paste_truncates_at_the_first_line_break() {
    let t = utf16("one\r\ntwo");
    assert_eq!(paste_text_prefix(&t), 3);
    let t2 = utf16("one\ntwo");
    assert_eq!(paste_text_prefix(&t2), 3);
    let t3 = utf16("plain");
    assert_eq!(paste_text_prefix(&t3), 5);
    let mut withnul = utf16("ab");
    withnul.push(0);
    withnul.extend(utf16("cd"));
    assert_eq!(paste_text_prefix(&withnul), 2);

    let mut c = field_with("");
    let a = advances_for(&t);
    c.on_paste(&t, &a);
    assert_eq!(text_of(&c), "one");
}

#[test]
fn navigation_keys_move_the_caret() {
    let mut c = field_with("Hello");
    c.set_selection(Some(2), Some(2));
    c.on_key_down(VirtualKey::Right, false, false);
    assert_eq!((c.selection_start, c.selection_end), (3, 3));
    c.on_key_down(VirtualKey::Left, false, false);
    assert_eq!((c.selection_start, c.selection_end), (2, 2));
    c.on_key_down(VirtualKey::End, true, false);
    assert_eq!((c.selection_start, c.selection_end), (2, 5));
    c.on_key_down(VirtualKey::Home, false, false);
    assert_eq!((c.selection_start, c.selection_end), (0, 0));
    c.on_key_down(VirtualKey::A, false, true);
    assert_eq!((c.selection_start, c.selection_end), (0, 5));
}

#[test]
fn delete_key_removes_forward() {
    let mut c = field_with("Hello");
    c.set_selection(Some(1), Some(1));
    c.on_key_down(VirtualKey::Delete, false, false);
    assert_eq!(text_of(&c), "Hllo");
    assert_eq!((c.selection_start, c.selection_end), (1, 1));
}

#[test]
fn caret_positions_map_both_ways() {
    let c = field_with("Hello");
    let p = c.position_from_char(2);
    assert_eq!(p.x, 2 * ADV);
    // A hit in the left half of a cell lands before it, in the right half
    // after it.
    assert_eq!(c.char_from_position(Point { x: 2 * ADV + 2, y: 0 }), 2);
    assert_eq!(c.char_from_position(Point { x: 2 * ADV + 8, y: 0 }), 3);
}

#[test]
fn word_breaks_follow_the_attribute_table() {
    // "ab cd": the shaper marks a break before column 0 and 3, and marks
    // the space as whitespace.
    let attrs: Vec<u8> = vec![1, 0, 2, 1, 0];
    assert_eq!(word_break_proc(&attrs, 4, 5, WordBreakAction::Left), 3);
    assert_eq!(word_break_proc(&attrs, 1, 5, WordBreakAction::Right), 3);
    assert_eq!(word_break_proc(&attrs, 2, 5, WordBreakAction::IsDelimiter), 1);

    let mut c = field_with("ab cd");
    c.set_selection(Some(4), Some(4));
    c.on_double_click(&attrs);
    assert!(c.is_captured);
    assert_eq!((c.selection_start, c.selection_end), (3, 5));
}

#[test]
fn mouse_selection_drags_the_caret() {
    let mut c = field_with("Hello");
    let wants_focus = c.on_left_button_down(false, 2 * ADV + 1, 5);
    assert!(wants_focus);
    assert!(c.is_captured);
    assert_eq!((c.selection_start, c.selection_end), (2, 2));
    c.on_mouse_move(4 * ADV + 1, 5);
    assert_eq!((c.selection_start, c.selection_end), (2, 4));
    c.on_left_button_up();
    assert!(!c.is_captured);
}

#[test]
fn set_text_resets_caret_scroll_and_undo() {
    let mut c = field_with("before");
    c.set_selection(Some(3), Some(3));
    let t = utf16("after");
    let a = advances_for(&t);
    c.set_text(&t, &a);
    assert_eq!(text_of(&c), "after");
    assert_eq!((c.selection_start, c.selection_end), (0, 0));
    assert_eq!(c.x_offset, 0);
    assert_eq!(c.undo_insert_count, 0);
}

#[test]
fn scroll_info_reports_the_viewport() {
    let c = field_with("Hello");
    let si = c.update_scroll_info();
    assert_eq!(si.min, 0);
    assert_eq!(si.max, 5 * ADV - 1);
    assert_eq!(si.page, 100);
    assert_eq!(si.pos, 0);
}

#[test]
fn focus_changes_queue_repaints() {
    let mut c = field_with("Hello");
    c.set_selection(Some(0), Some(5));
    let before = c.invalidated.len();
    c.set_focus();
    assert!(c.is_focused);
    assert!(c.invalidated.len() > before);
    c.on_kill_focus();
    assert!(!c.is_focused);
}

#[test]
fn viewport_follows_the_client_rectangle() {
    let mut c = field_with("Hi");
    c.set_rect_np(Rect { left: 0, top: 0, right: 200, bottom: 32 }, 1, 12, 2);
    assert_eq!(c.format_rect.left, 13);
    assert_eq!(c.format_rect.right, 187);
    // The 16-unit line is centred in the 30-unit inner height.
    assert_eq!(c.format_rect.top, 8);
    assert_eq!(c.format_rect.bottom, 24);
}

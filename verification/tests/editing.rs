use std::ops::Range;
use text_input::input::TextInput;
use text_input::model::PointerPlace;

fn input_with(text: &str) -> TextInput {
    let mut input = TextInput::new(String::from("Type here..."));
    input.replace_text_in_range(None, text);
    input
}

#[test]
fn new_input_is_empty() {
    let input = TextInput::new(String::from("Type here..."));
    assert_eq!(input.content, "");
    assert_eq!(input.placeholder, "Type here...");
    assert_eq!(input.selected_range_utf8, 0..0);
    assert!(!input.selection_reversed);
    assert_eq!(input.marked_range_utf8, None);
    assert!(!input.is_selecting);
}

#[test]
fn typing_places_cursor_after_text() {
    let mut input = input_with("hello");
    assert_eq!(input.content, "hello");
    assert_eq!(input.selected_range_utf8, 5..5);
    assert_eq!(input.cursor_offset(), 5);
    input.replace_text_in_range(None, " world");
    assert_eq!(input.content, "hello world");
    assert_eq!(input.selected_range_utf8, 11..11);
}

#[test]
fn left_and_right_step_over_graphemes() {
    // "a" with a combining candrabindu (3 bytes), then "e".
    let mut input = input_with("a\u{310}e");
    assert_eq!(input.content_len(), 4);
    input.left();
    assert_eq!(input.cursor_offset(), 3);
    input.left();
    assert_eq!(input.cursor_offset(), 0);
    input.left();
    assert_eq!(input.cursor_offset(), 0);
    input.right();
    assert_eq!(input.cursor_offset(), 3);
    input.right();
    assert_eq!(input.cursor_offset(), 4);
    input.right();
    assert_eq!(input.cursor_offset(), 4);
}

#[test]
fn flags_are_single_graphemes() {
    let mut input = input_with("\u{1F1F7}\u{1F1FA}\u{1F1F8}\u{1F1F9}");
    input.start();
    input.right();
    assert_eq!(input.cursor_offset(), 8);
    assert_eq!(input.next_boundary(0), 8);
    assert_eq!(input.previous_boundary(16), 8);
    assert_eq!(input.previous_boundary(8), 0);
}

#[test]
fn boundaries_beyond_the_ends() {
    let input = input_with("abc");
    assert_eq!(input.previous_boundary(0), 0);
    assert_eq!(input.previous_boundary(2), 1);
    assert_eq!(input.next_boundary(2), 3);
    assert_eq!(input.next_boundary(3), 3);
    assert_eq!(input.next_boundary(10), 3);
}

#[test]
fn start_and_end_move_the_cursor() {
    let mut input = input_with("héllo");
    input.start();
    assert_eq!(input.selected_range_utf8, 0..0);
    input.end();
    assert_eq!(input.selected_range_utf8, 6..6);
}

#[test]
fn select_left_reverses_the_selection() {
    let mut input = input_with("abc");
    input.select_left();
    assert_eq!(input.selected_range_utf8, 2..3);
    assert!(input.selection_reversed);
    assert_eq!(input.cursor_offset(), 2);
    input.select_left();
    assert_eq!(input.selected_range_utf8, 1..3);
    input.select_right();
    input.select_right();
    assert_eq!(input.selected_range_utf8, 3..3);
    input.select_right();
    assert_eq!(input.selected_range_utf8, 3..3);
}

#[test]
fn select_to_swaps_crossing_bounds() {
    let mut input = input_with("abcdef");
    input.move_to(2);
    input.select_to(4);
    assert_eq!(input.selected_range_utf8, 2..4);
    assert!(!input.selection_reversed);
    input.select_to(1);
    assert_eq!(input.selected_range_utf8, 1..2);
    assert!(input.selection_reversed);
    input.select_to(5);
    assert_eq!(input.selected_range_utf8, 2..5);
    assert!(!input.selection_reversed);
}

#[test]
fn select_all_then_copy_gives_everything() {
    let mut input = input_with("héllo");
    input.select_all();
    assert_eq!(input.selected_range_utf8, 0..6);
    assert_eq!(input.cursor_offset(), 0);
    assert!(input.selection_reversed);
    assert_eq!(input.copy(), Some(String::from("héllo")));
}

#[test]
fn copy_of_empty_selection_is_nothing() {
    let input = input_with("hello");
    assert_eq!(input.copy(), None);
}

#[test]
fn cut_removes_and_returns_selection() {
    let mut input = input_with("hello world");
    input.move_to(5);
    input.select_to(11);
    assert_eq!(input.cut(), Some(String::from(" world")));
    assert_eq!(input.content, "hello");
    assert_eq!(input.selected_range_utf8, 5..5);
    assert_eq!(input.cut(), None);
    assert_eq!(input.content, "hello");
}

#[test]
fn cut_then_paste_restores_content() {
    let mut input = input_with("héllo wörld");
    input.move_to(1);
    input.select_to(7);
    let text = input.cut().unwrap();
    assert_eq!(input.content, "hwörld");
    input.paste(&text);
    assert_eq!(input.content, "héllo wörld");
    assert_eq!(input.selected_range_utf8, 7..7);
}

#[test]
fn cut_and_paste_act_on_the_selection_not_the_mark() {
    let mut input = input_with("abcdef");
    input.move_to(4);
    input.replace_and_mark_text_in_range(None, "xy", None);
    assert_eq!(input.content, "abcdxyef");
    assert_eq!(input.marked_range_utf8, Some(4..6));
    input.move_to(0);
    input.select_to(2);
    assert_eq!(input.cut(), Some(String::from("ab")));
    assert_eq!(input.content, "cdxyef");
    assert_eq!(input.marked_range_utf8, None);
    input.replace_and_mark_text_in_range(Some(1..2), "Z", None);
    assert_eq!(input.content, "cZxyef");
    assert_eq!(input.marked_range_utf8, Some(1..2));
    input.move_to(6);
    input.paste("!");
    assert_eq!(input.content, "cZxyef!");
    assert_eq!(input.marked_range_utf8, None);
}

#[test]
fn paste_turns_newlines_into_spaces() {
    let mut input = input_with("ab");
    input.move_to(1);
    input.paste("x\ny\r\nz");
    assert_eq!(input.content, "ax y\r zb");
    assert_eq!(input.selected_range_utf8, 7..7);
}

#[test]
fn backspace_removes_previous_grapheme() {
    let mut input = input_with("ae\u{301}");
    input.backspace();
    assert_eq!(input.content, "a");
    assert_eq!(input.selected_range_utf8, 1..1);
    input.backspace();
    assert_eq!(input.content, "");
    input.backspace();
    assert_eq!(input.content, "");
    assert_eq!(input.selected_range_utf8, 0..0);
}

#[test]
fn backspace_removes_selection() {
    let mut input = input_with("abcdef");
    input.move_to(1);
    input.select_to(4);
    input.backspace();
    assert_eq!(input.content, "aef");
    assert_eq!(input.selected_range_utf8, 1..1);
}

#[test]
fn delete_removes_next_grapheme() {
    let mut input = input_with("a\u{1F600}b");
    input.move_to(1);
    input.delete();
    assert_eq!(input.content, "ab");
    assert_eq!(input.selected_range_utf8, 1..1);
    input.end();
    input.delete();
    assert_eq!(input.content, "ab");
}

#[test]
fn clear_empties_everything() {
    let mut input = input_with("hello");
    input.select_all();
    input.is_selecting = true;
    input.replace_and_mark_text_in_range(None, "x", None);
    input.clear();
    assert_eq!(input.content, "");
    assert_eq!(input.selected_range_utf8, 0..0);
    assert!(!input.selection_reversed);
    assert_eq!(input.marked_range_utf8, None);
    assert!(!input.is_selecting);
    assert_eq!(input.placeholder, "Type here...");
}

#[test]
fn utf16_offsets_convert_to_utf8() {
    // 'a': 1 byte, 1 unit; U+1F600: 4 bytes, 2 units; 'b': 1 byte, 1 unit.
    let input = input_with("a\u{1F600}b");
    assert_eq!(input.offset_from_utf16(0), 0);
    assert_eq!(input.offset_from_utf16(1), 1);
    assert_eq!(input.offset_from_utf16(2), 5);
    assert_eq!(input.offset_from_utf16(3), 5);
    assert_eq!(input.offset_from_utf16(4), 6);
    assert_eq!(input.offset_from_utf16(40), 6);
}

#[test]
fn utf8_offsets_convert_to_utf16() {
    let input = input_with("a\u{1F600}b");
    assert_eq!(input.offset_to_utf16(0), 0);
    assert_eq!(input.offset_to_utf16(1), 1);
    assert_eq!(input.offset_to_utf16(3), 3);
    assert_eq!(input.offset_to_utf16(5), 3);
    assert_eq!(input.offset_to_utf16(6), 4);
    assert_eq!(input.offset_to_utf16(60), 4);
    assert_eq!(input.range_to_utf16(&(1..5)), 1..3);
    assert_eq!(input.range_from_utf16(&(1..3)), 1..5);
}

#[test]
fn offsets_round_trip_at_characters() {
    let input = input_with("zé\u{1F600}ñ");
    for b in [0usize, 1, 3, 7, 9] {
        assert_eq!(input.offset_from_utf16(input.offset_to_utf16(b)), b);
    }
    for u in [0usize, 1, 2, 4, 5] {
        assert_eq!(input.offset_to_utf16(input.offset_from_utf16(u)), u);
    }
}

#[test]
fn text_for_range_reports_adjusted_range() {
    let input = input_with("a\u{1F600}b");
    let mut adjusted: Option<Range<usize>> = None;
    let text = input.text_for_range(1..2, &mut adjusted);
    assert_eq!(text, Some(String::from("\u{1F600}")));
    assert_eq!(adjusted, Some(1..3));
}

#[test]
fn selected_text_range_is_in_utf16() {
    let mut input = input_with("\u{1F600}xy");
    input.select_left();
    input.select_left();
    let selection = input.selected_text_range().unwrap();
    assert_eq!(selection.range, 2..4);
    assert!(selection.reversed);
}

#[test]
fn marked_text_is_replaced_by_the_next_edit() {
    let mut input = input_with("ab");
    input.move_to(1);
    input.replace_and_mark_text_in_range(None, "ka", None);
    assert_eq!(input.content, "akab");
    assert_eq!(input.marked_range_utf8, Some(1..3));
    assert_eq!(input.marked_text_range(), Some(1..3));
    assert_eq!(input.selected_range_utf8, 3..3);
    input.replace_and_mark_text_in_range(None, "\u{304B}", None);
    assert_eq!(input.content, "a\u{304B}b");
    assert_eq!(input.marked_range_utf8, Some(1..4));
    assert_eq!(input.marked_text_range(), Some(1..2));
    input.replace_text_in_range(None, "\u{304B}\u{3042}");
    assert_eq!(input.content, "a\u{304B}\u{3042}b");
    assert_eq!(input.marked_range_utf8, None);
    assert_eq!(input.selected_range_utf8, 7..7);
}

#[test]
fn marking_nothing_clears_the_mark() {
    let mut input = input_with("abc");
    input.replace_and_mark_text_in_range(Some(0..1), "", None);
    assert_eq!(input.content, "bc");
    assert_eq!(input.marked_range_utf8, None);
    assert_eq!(input.selected_range_utf8, 0..0);
}

#[test]
fn marked_selection_is_shifted_by_the_replaced_range() {
    let mut input = input_with("abcd");
    input.replace_and_mark_text_in_range(Some(1..3), "xy", Some(1..1));
    assert_eq!(input.content, "axyd");
    assert_eq!(input.marked_range_utf8, Some(1..3));
    assert_eq!(input.selected_range_utf8, 2..4);
}

#[test]
fn unmark_text_drops_the_mark() {
    let mut input = input_with("ab");
    input.replace_and_mark_text_in_range(None, "c", None);
    input.unmark_text();
    assert_eq!(input.marked_range_utf8, None);
    assert_eq!(input.marked_text_range(), None);
    assert_eq!(input.content, "abc");
}

#[test]
fn replacing_a_utf16_range() {
    let mut input = input_with("a\u{1F600}b");
    input.replace_text_in_range(Some(1..3), "c");
    assert_eq!(input.content, "acb");
    assert_eq!(input.selected_range_utf8, 2..2);
}

#[test]
fn mouse_positions_map_to_offsets() {
    let empty = TextInput::new(String::new());
    assert_eq!(empty.index_for_mouse_position(&PointerPlace::Below), 0);
    let input = input_with("hello");
    assert_eq!(input.index_for_mouse_position(&PointerPlace::NoLayout), 0);
    assert_eq!(input.index_for_mouse_position(&PointerPlace::Above), 0);
    assert_eq!(input.index_for_mouse_position(&PointerPlace::Below), 5);
    assert_eq!(input.index_for_mouse_position(&PointerPlace::Beside(2)), 2);
}

#[test]
fn mouse_drag_selects() {
    let mut input = input_with("hello");
    input.on_mouse_down(false, &PointerPlace::Beside(1));
    assert!(input.is_selecting);
    assert_eq!(input.selected_range_utf8, 1..1);
    input.on_mouse_move(&PointerPlace::Beside(4));
    assert_eq!(input.selected_range_utf8, 1..4);
    input.on_mouse_up();
    assert!(!input.is_selecting);
    input.on_mouse_move(&PointerPlace::Beside(0));
    assert_eq!(input.selected_range_utf8, 1..4);
    input.on_mouse_down(true, &PointerPlace::Above);
    assert_eq!(input.selected_range_utf8, 0..1);
    assert!(input.selection_reversed);
}

#[test]
fn char_boundaries_of_content() {
    let input = input_with("é\u{1F600}");
    assert!(input.is_char_boundary(0));
    assert!(!input.is_char_boundary(1));
    assert!(input.is_char_boundary(2));
    assert!(!input.is_char_boundary(4));
    assert!(input.is_char_boundary(6));
    assert!(!input.is_char_boundary(7));
}

#[test]
fn checks_refuse_cuts_inside_characters() {
    let mut input = input_with("é");
    assert!(input.can_copy());
    assert!(input.can_backspace());
    input.selected_range_utf8 = 0..1;
    assert!(!input.can_copy());
    assert!(!input.can_cut());
    assert!(!input.can_backspace());
    assert!(!input.can_delete());
    assert!(!input.can_paste("x"));
    assert!(!input.can_replace(&None, "x"));
    assert!(input.can_replace(&Some(0..1), "x"));
    assert!(input.can_replace_and_mark(&Some(0..1), "x", &Some(0..1)));
    input.selected_range_utf8 = 0..2;
    assert!(input.can_copy());
    assert!(input.can_cut());
    assert!(input.can_paste("x\ny"));
}

#[test]
fn removal_checks_at_the_ends() {
    let mut input = input_with("é");
    input.selected_range_utf8 = 1..2;
    input.selection_reversed = true;
    input.move_to(2);
    assert!(input.can_backspace());
    input.selected_range_utf8 = 2..1;
    input.selection_reversed = false;
    assert_eq!(input.cursor_offset(), 1);
    assert!(input.can_backspace());
    input.selected_range_utf8 = 1..1;
    assert!(!input.can_backspace());
    input.selected_range_utf8 = 2..2;
    assert!(input.can_delete());
    input.start();
    assert!(input.can_backspace());
}

#[test]
fn adjusted_range_is_exact() {
    let input = input_with("a\u{1F600}b");
    let mut adjusted: Option<Range<usize>> = None;
    assert_eq!(input.text_for_range(2..2, &mut adjusted), Some(String::new()));
    assert_eq!(adjusted, Some(3..3));
    let mut again: Option<Range<usize>> = None;
    assert_eq!(input.text_for_range(3..3, &mut again), Some(String::new()));
    assert_eq!(again, Some(3..3));
    let mut whole: Option<Range<usize>> = None;
    assert_eq!(input.text_for_range(0..4, &mut whole), Some(String::from("a\u{1F600}b")));
    assert_eq!(whole, Some(0..4));
}

#[test]
fn next_then_previous_boundary_returns_to_cluster_start() {
    let input = input_with("a\u{310}e\u{1F1F7}\u{1F1FA}");
    for start in [0usize, 3, 4] {
        let next = input.next_boundary(start);
        assert!(next > start);
        assert_eq!(input.previous_boundary(next), start);
    }
    assert_eq!(input.next_boundary(4), 12);
}

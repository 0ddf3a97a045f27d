use browser::address::{address_byte_index, address_slice, sanitize_clipboard_text, AddressEditor};

#[test]
fn gui_sanitizes_clipboard_text_for_address_bar() {
    assert_eq!(
        sanitize_clipboard_text(" https://example.com/\npath\t?q=1 "),
        "https://example.com/ path ?q=1"
    );
}

#[test]
fn webview_sanitizes_clipboard_text_for_address_bar() {
    assert_eq!(
        sanitize_clipboard_text(" https://example.com/\npath\t?q=1 "),
        "https://example.com/ path ?q=1"
    );
}

#[test]
fn gui_address_slice_returns_selected_range() {
    assert_eq!(address_slice("abcdef", 1, 4), "bcd");
}

#[test]
fn webview_address_slice_returns_selected_range() {
    assert_eq!(address_slice("abcdef", 1, 4), "bcd");
}

#[test]
fn address_slice_clips_indices_past_the_end() {
    assert_eq!(address_slice("abc", 1, 10), "bc");
    assert_eq!(address_slice("abc", 7, 9), "");
    assert_eq!(address_slice("héllo", 1, 3), "él");
}

#[test]
fn byte_index_counts_utf8_bytes() {
    assert_eq!(address_byte_index("abc", 2), 2);
    assert_eq!(address_byte_index("abc", 9), 3);
    assert_eq!(address_byte_index("héllo", 2), 3);
    assert_eq!(address_byte_index("a€b", 2), 4);
    assert_eq!(address_byte_index("a😀b", 3), 6);
}

#[test]
fn replacing_selected_address_text_overwrites_existing_value() {
    let mut editor = AddressEditor::new("https://old.example");
    editor.move_cursor(0, false);
    editor.select_all();

    editor.insert_text("https://new.example");

    assert_eq!(editor.text(), "https://new.example");
    assert_eq!(editor.cursor(), "https://new.example".chars().count());
    assert!(editor.selection_range().is_none());
}

#[test]
fn typing_inserts_at_the_caret() {
    let mut editor = AddressEditor::new("exmple");
    editor.move_cursor(2, false);
    editor.insert_text("a");
    assert_eq!(editor.text(), "example");
    assert_eq!(editor.cursor(), 3);
}

#[test]
fn backspace_and_delete_remove_one_character() {
    let mut editor = AddressEditor::new("abcd");
    editor.delete_backward();
    assert_eq!(editor.text(), "abc");
    assert_eq!(editor.cursor(), 3);
    editor.move_cursor(0, false);
    editor.delete_backward();
    assert_eq!(editor.text(), "abc");
    editor.delete_forward();
    assert_eq!(editor.text(), "bc");
    assert_eq!(editor.cursor(), 0);
    editor.move_cursor(99, false);
    assert_eq!(editor.cursor(), 2);
    editor.delete_forward();
    assert_eq!(editor.text(), "bc");
}

#[test]
fn shift_moves_extend_the_selection() {
    let mut editor = AddressEditor::new("hello");
    editor.move_cursor(4, true);
    editor.move_cursor(2, true);
    assert_eq!(editor.selection_range(), Some((2, 5)));
    assert_eq!(editor.selected_text(), Some("llo".to_string()));
    editor.delete_backward();
    assert_eq!(editor.text(), "he");
    assert_eq!(editor.cursor(), 2);
    assert_eq!(editor.anchor(), None);
}

#[test]
fn stale_anchor_past_the_text_is_clipped() {
    let mut editor = AddressEditor::new("abc");
    editor.move_cursor(3, true);
    assert_eq!(editor.selection_range(), None);
    editor.delete_backward();
    assert_eq!(editor.text(), "ab");
    assert_eq!(editor.selection_range(), Some((2, 3)));
    assert_eq!(editor.selected_text(), Some(String::new()));
    editor.insert_text("x");
    assert_eq!(editor.text(), "abx");
    assert_eq!(editor.cursor(), 3);
}

#[test]
fn dragging_selects_from_the_press() {
    let mut editor = AddressEditor::new("example.com");
    editor.place_cursor(2);
    editor.drag_to(7);
    assert_eq!(editor.selection_range(), Some((2, 7)));
    editor.drag_to(2);
    assert_eq!(editor.selection_range(), None);
    assert_eq!(editor.anchor(), None);
}

#[test]
fn copy_cut_and_paste() {
    let mut editor = AddressEditor::new("https://example.com/docs");
    assert_eq!(editor.clipboard_text(), "https://example.com/docs");
    editor.move_cursor(19, true);
    assert_eq!(editor.clipboard_text(), "/docs");
    assert_eq!(editor.cut(), "/docs");
    assert_eq!(editor.text(), "https://example.com");
    editor.paste("  \n\t ");
    assert_eq!(editor.text(), "https://example.com");
    editor.paste(" /a \n b ");
    assert_eq!(editor.text(), "https://example.com/a b");
    assert_eq!(editor.cursor(), 23);
}

#[test]
fn set_text_moves_the_caret_to_the_end() {
    let mut editor = AddressEditor::new("a");
    editor.select_all();
    editor.set_text("héllo");
    assert_eq!(editor.char_count(), 5);
    assert_eq!(editor.cursor(), 5);
    assert_eq!(editor.anchor(), None);
}

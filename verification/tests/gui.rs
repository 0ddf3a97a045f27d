use browser::gui::{GuiEffect, GuiState, Key, Modifiers};

const PLAIN: Modifiers = Modifiers { command: false, shift: false, alt: false };
const COMMAND: Modifiers = Modifiers { command: true, shift: false, alt: false };
const SHIFT: Modifiers = Modifiers { command: false, shift: true, alt: false };

fn ch(s: &str) -> Key {
    Key::Character(s.to_string())
}

#[test]
fn command_l_selects_the_current_address() {
    let mut gui = GuiState::new("examples/welcome.html");
    assert_eq!(gui.key_pressed(ch("L"), COMMAND, 1000, 600), GuiEffect::Redraw);
    assert!(gui.address_focus);
    assert_eq!(gui.address.selection_range(), Some((0, 21)));
    assert_eq!(gui.status_message.as_deref(), Some("Editing address"));
    assert_eq!(gui.key_pressed(ch("x"), PLAIN, 1000, 600), GuiEffect::Redraw);
    assert_eq!(gui.address.text(), "x");
}

#[test]
fn enter_loads_the_trimmed_address_and_escape_cancels() {
    let mut gui = GuiState::new("a.html");
    gui.primary_click(true, 6, None);
    gui.key_pressed(ch(" "), PLAIN, 0, 100);
    assert_eq!(gui.address.text(), "a.html ");
    assert_eq!(
        gui.key_pressed(Key::Enter, PLAIN, 0, 100),
        GuiEffect::Navigate("a.html".to_string())
    );
    assert_eq!(gui.key_pressed(Key::Escape, PLAIN, 0, 100), GuiEffect::Redraw);
    assert!(!gui.address_focus);
    assert_eq!(gui.address.text(), "a.html");
    assert_eq!(gui.status_message.as_deref(), Some("Address edit cancelled"));
}

#[test]
fn page_keys_scroll_within_the_page() {
    let mut gui = GuiState::new("a.html");
    gui.key_pressed(Key::ArrowDown, PLAIN, 1000, 200);
    assert_eq!(gui.scroll_y, 24);
    gui.key_pressed(Key::PageDown, PLAIN, 1000, 200);
    assert_eq!(gui.scroll_y, 24 + 192);
    gui.key_pressed(Key::End, PLAIN, 1000, 200);
    assert_eq!(gui.scroll_y, 800);
    gui.key_pressed(Key::PageUp, PLAIN, 1000, 200);
    assert_eq!(gui.scroll_y, 608);
    gui.key_pressed(Key::Home, PLAIN, 1000, 200);
    assert_eq!(gui.scroll_y, 0);
    gui.key_pressed(Key::ArrowUp, PLAIN, 1000, 200);
    assert_eq!(gui.scroll_y, 0);
    assert_eq!(
        gui.key_pressed(ch("r"), PLAIN, 1000, 200),
        GuiEffect::Navigate("a.html".to_string())
    );
    assert_eq!(gui.key_pressed(ch("q"), PLAIN, 1000, 200), GuiEffect::Nothing);
    assert_eq!(gui.wheel(-30, 1000, 200), GuiEffect::Redraw);
    assert_eq!(gui.wheel(50, 1000, 200), GuiEffect::Redraw);
    assert_eq!(gui.scroll_y, 50);
    gui.relayout(100, 80);
    assert_eq!(gui.scroll_y, 20);
}

#[test]
fn clipboard_shortcuts_ask_the_application() {
    let mut gui = GuiState::new("https://example.com/docs");
    gui.primary_click(true, 24, None);
    gui.key_pressed(Key::ArrowLeft, SHIFT, 0, 100);
    gui.key_pressed(Key::ArrowLeft, SHIFT, 0, 100);
    assert_eq!(
        gui.key_pressed(ch("c"), COMMAND, 0, 100),
        GuiEffect::Copy("cs".to_string())
    );
    gui.clipboard_written(Ok(()), false);
    assert_eq!(gui.status_message.as_deref(), Some("Address copied"));
    assert_eq!(
        gui.key_pressed(ch("X"), COMMAND, 0, 100),
        GuiEffect::Cut("cs".to_string())
    );
    assert_eq!(gui.address.text(), "https://example.com/do");
    gui.clipboard_written(Err("clipboard is unavailable".to_string()), true);
    assert_eq!(gui.status_message.as_deref(), Some("clipboard is unavailable"));
    assert_eq!(gui.key_pressed(ch("v"), COMMAND, 0, 100), GuiEffect::Paste);
    gui.paste_clipboard(Ok(" c\ns ".to_string()));
    assert_eq!(gui.address.text(), "https://example.com/doc s");
    assert_eq!(gui.status_message.as_deref(), Some("Address pasted"));
    assert_eq!(gui.key_pressed(ch("a"), COMMAND, 0, 100), GuiEffect::Redraw);
    assert_eq!(gui.status_message.as_deref(), Some("Address selected"));
    assert_eq!(gui.key_pressed(ch("z"), COMMAND, 0, 100), GuiEffect::Nothing);
}

#[test]
fn clicks_focus_follow_links_and_unfocus() {
    let mut gui = GuiState::new("examples/welcome.html");
    assert_eq!(gui.primary_click(true, 3, None), GuiEffect::Redraw);
    assert!(gui.address_focus && gui.address_drag_active);
    assert_eq!(gui.address.cursor(), 3);
    assert_eq!(gui.pointer_moved(7), GuiEffect::Redraw);
    assert_eq!(gui.address.selection_range(), Some((3, 7)));
    gui.pointer_released();
    assert_eq!(gui.pointer_moved(1), GuiEffect::Nothing);
    assert_eq!(gui.primary_click(false, 0, None), GuiEffect::Redraw);
    assert!(!gui.address_focus);
    assert_eq!(gui.status_message.as_deref(), Some("Address bar unfocused"));
    assert_eq!(gui.address.selection_range(), None);
    assert_eq!(
        gui.primary_click(false, 0, Some("https://example.com".to_string())),
        GuiEffect::Navigate("https://example.com".to_string())
    );
}

#[test]
fn ime_text_goes_into_the_focused_bar() {
    let mut gui = GuiState::new("ab");
    assert_eq!(gui.ime_preedit("x".to_string()), GuiEffect::Nothing);
    gui.primary_click(true, 1, None);
    assert_eq!(gui.ime_preedit("ね".to_string()), GuiEffect::Redraw);
    assert_eq!(gui.preedit_text, "ね");
    assert_eq!(gui.ime_commit("ねこ"), GuiEffect::Redraw);
    assert_eq!(gui.address.text(), "aねこb");
    assert_eq!(gui.preedit_text, "");
    assert_eq!(gui.wheel(10, 100, 10), GuiEffect::Nothing);
}

#[test]
fn loaded_pages_reset_the_window() {
    let mut gui = GuiState::new("a.html");
    gui.scroll_y = 40;
    gui.primary_click(true, 2, None);
    gui.page_loaded("b.html");
    assert_eq!(gui.current_source, "b.html");
    assert_eq!(gui.title, "b.html");
    assert_eq!(gui.scroll_y, 0);
    assert!(!gui.address_focus);
    assert_eq!(gui.address.cursor(), 6);
    assert_eq!(gui.status_message.as_deref(), Some("Page loaded"));
    gui.page_failed("failed to read c.html".to_string());
    assert_eq!(gui.status_message.as_deref(), Some("failed to read c.html"));
}

use browser::gui::{Key, Modifiers};
use browser::shell::{webview_bounds, BrowserEvent, ClickTarget, Shell, ShellCommand};

const PLAIN: Modifiers = Modifiers { command: false, shift: false, alt: false };
const COMMAND: Modifiers = Modifiers { command: true, shift: false, alt: false };
const ALT: Modifiers = Modifiers { command: false, shift: false, alt: true };

fn ch(s: &str) -> Key {
    Key::Character(s.to_string())
}

fn started() -> Shell {
    let mut shell = Shell::new("example.com", "https://example.com/");
    shell.handle_browser_event(BrowserEvent::PageFinished("https://example.com/".to_string()));
    shell
}

#[test]
fn finished_pages_are_recorded_and_shown() {
    let mut shell = Shell::new("example.com", "https://example.com/");
    assert_eq!(shell.status_message.as_deref(), Some("Loading page"));
    let cmds = shell.handle_browser_event(BrowserEvent::PageFinished("https://example.com/".to_string()));
    assert_eq!(cmds, vec![ShellCommand::RequestTopLevelUrl, ShellCommand::Redraw]);
    let tab = &shell.tabs[0];
    assert!(!tab.is_loading);
    assert_eq!(tab.history, vec!["https://example.com/".to_string()]);
    assert_eq!(shell.address.text(), "https://example.com/");
    assert_eq!(shell.status_message.as_deref(), Some("Page loaded"));
    shell.handle_browser_event(BrowserEvent::NavigationStarted("https://example.com/docs".to_string()));
    assert!(shell.tabs[0].is_loading);
    assert_eq!(shell.status_message.as_deref(), Some("Loading https://example.com/docs"));
    shell.handle_browser_event(BrowserEvent::TopLevelUrlResolved("https://example.com/docs".to_string()));
    assert_eq!(shell.tabs[0].history.len(), 2);
    assert_eq!(shell.tabs[0].history_index, 1);
    let cmds = shell.handle_browser_event(BrowserEvent::NavigationStarted("about:blank".to_string()));
    assert!(cmds.is_empty());
    assert_eq!(shell.tabs[0].current_url, "https://example.com/docs");
    let cmds = shell.handle_browser_event(BrowserEvent::TitleChanged("Docs".to_string()));
    assert_eq!(cmds, vec![ShellCommand::UpdateTitle, ShellCommand::Redraw]);
    assert_eq!(shell.window_title(), "Browser - Docs");
}

#[test]
fn typed_addresses_load_and_report_back() {
    let mut shell = started();
    shell.primary_click(ClickTarget::AddressBar(3));
    assert!(shell.address_focus);
    shell.key_pressed(ch("l"), COMMAND);
    assert_eq!(shell.address.selection_range(), Some((0, 20)));
    shell.key_pressed(ch("r"), PLAIN);
    shell.key_pressed(ch("ust-lang.org "), PLAIN);
    assert_eq!(
        shell.key_pressed(Key::Enter, PLAIN),
        vec![ShellCommand::Navigate("rust-lang.org".to_string())]
    );
    let cmds = shell.navigate_to_input("rust-lang.org", Ok("https://rust-lang.org/".to_string()));
    assert_eq!(
        cmds,
        vec![ShellCommand::Load("https://rust-lang.org/".to_string()), ShellCommand::Redraw]
    );
    assert_eq!(shell.tabs[0].source, "rust-lang.org");
    assert!(shell.tabs[0].is_loading);
    assert_eq!(shell.load_finished(Ok(())), vec![ShellCommand::FocusPage]);
    assert!(!shell.address_focus);
    assert_eq!(shell.address.text(), "rust-lang.org");
    assert_eq!(shell.status_message.as_deref(), Some("Loading https://rust-lang.org/"));
    shell.navigate_to_input("x y", Err("unsupported address: x y".to_string()));
    assert_eq!(shell.status_message.as_deref(), Some("unsupported address: x y"));
    shell.navigate_to_input("a.org", Ok("https://a.org/".to_string()));
    shell.load_finished(Err("offline".to_string()));
    assert!(!shell.tabs[0].is_loading);
    assert_eq!(
        shell.status_message.as_deref(),
        Some("failed to navigate to https://a.org/: offline")
    );
}

#[test]
fn history_moves_back_and_forward() {
    let mut shell = started();
    shell.handle_browser_event(BrowserEvent::PageFinished("https://example.com/a".to_string()));
    assert_eq!(shell.key_pressed(Key::ArrowRight, ALT), vec![]);
    assert_eq!(
        shell.key_pressed(Key::ArrowLeft, ALT),
        vec![ShellCommand::Load("https://example.com/".to_string()), ShellCommand::Redraw]
    );
    assert_eq!(shell.tabs[0].history_index, 0);
    assert_eq!(shell.status_message.as_deref(), Some("Going back"));
    assert_eq!(shell.primary_click(ClickTarget::Back), vec![]);
    assert_eq!(
        shell.primary_click(ClickTarget::Forward),
        vec![ShellCommand::Load("https://example.com/a".to_string()), ShellCommand::Redraw]
    );
    assert_eq!(shell.tabs[0].history_index, 1);
    assert_eq!(shell.status_message.as_deref(), Some("Going forward"));
    assert_eq!(
        shell.key_pressed(ch("R"), COMMAND),
        vec![ShellCommand::Reload, ShellCommand::Redraw]
    );
    shell.load_finished(Err("gone".to_string()));
    assert_eq!(shell.status_message.as_deref(), Some("failed to reload page: gone"));
}

#[test]
fn tabs_open_switch_and_close() {
    let mut shell = started();
    assert_eq!(
        shell.key_pressed(ch("t"), COMMAND),
        vec![
            ShellCommand::Load("about:blank".to_string()),
            ShellCommand::UpdateTitle,
            ShellCommand::Redraw
        ]
    );
    assert_eq!(shell.tabs.len(), 2);
    assert_eq!(shell.active_tab, 1);
    assert!(shell.address_focus);
    assert_eq!(shell.window_title(), "Browser - New Tab");
    shell.load_finished(Err("no engine".to_string()));
    assert_eq!(shell.status_message.as_deref(), Some("failed to open new tab: no engine"));
    assert_eq!(
        shell.primary_click(ClickTarget::Tab(0)),
        vec![
            ShellCommand::FocusPage,
            ShellCommand::Load("https://example.com/".to_string()),
            ShellCommand::UpdateTitle,
            ShellCommand::Redraw
        ]
    );
    assert_eq!(shell.active_tab, 0);
    assert!(!shell.address_focus);
    assert_eq!(shell.address.text(), "");
    shell.load_finished(Ok(()));
    assert_eq!(shell.status_message.as_deref(), Some("Loading https://example.com/"));
    assert_eq!(shell.primary_click(ClickTarget::Tab(0)), vec![]);
    assert_eq!(
        shell.primary_click(ClickTarget::CloseTab(0)),
        vec![
            ShellCommand::Load("about:blank".to_string()),
            ShellCommand::UpdateTitle,
            ShellCommand::Redraw
        ]
    );
    assert_eq!(shell.tabs.len(), 1);
    assert_eq!(shell.active_tab, 0);
    assert_eq!(shell.status_message.as_deref(), Some("Closed tab"));
    shell.key_pressed(ch("w"), COMMAND);
    assert_eq!(shell.tabs.len(), 1);
    assert_eq!(shell.tabs[0].current_url, "about:blank");
    assert_eq!(shell.status_message.as_deref(), Some("Reset current tab"));
    assert_eq!(shell.primary_click(ClickTarget::CloseTab(5)), vec![]);
}

#[test]
fn links_open_in_background_tabs() {
    let mut shell = started();
    shell.handle_browser_event(BrowserEvent::OpenInNewTab {
        requested: "docs".to_string(),
        normalized: Err("unsupported address: docs".to_string()),
    });
    shell.handle_browser_event(BrowserEvent::OpenInNewTab {
        requested: "b.org".to_string(),
        normalized: Ok("https://b.org/".to_string()),
    });
    assert_eq!(shell.tabs.len(), 3);
    assert_eq!(shell.active_tab, 0);
    assert_eq!(shell.tabs[1].source, "docs");
    assert_eq!(shell.tabs[2].current_url, "https://b.org/");
    assert_eq!(shell.tabs[2].title, "b.org");
    assert_eq!(shell.status_message.as_deref(), Some("Opened link in new tab"));
}

#[test]
fn address_bar_editing_in_the_shell() {
    let mut shell = started();
    assert_eq!(
        shell.primary_click(ClickTarget::Page),
        vec![ShellCommand::FocusPage, ShellCommand::Redraw]
    );
    shell.primary_click(ClickTarget::AddressBar(20));
    assert_eq!(shell.pointer_moved(8), vec![ShellCommand::Redraw]);
    assert_eq!(shell.address.selection_range(), Some((8, 20)));
    shell.pointer_released();
    assert_eq!(
        shell.key_pressed(ch("c"), COMMAND),
        vec![ShellCommand::Copy("example.com/".to_string()), ShellCommand::Redraw]
    );
    shell.clipboard_written(Ok(()), false);
    assert_eq!(shell.status_message.as_deref(), Some("Address copied"));
    shell.key_pressed(Key::Backspace, PLAIN);
    assert_eq!(shell.address.text(), "https://");
    shell.paste_clipboard(Ok("rust-lang.org".to_string()));
    assert_eq!(shell.address.text(), "https://rust-lang.org");
    shell.ime_preedit("x".to_string());
    assert_eq!(shell.preedit_text, "x");
    shell.ime_commit("/");
    assert_eq!(shell.address.text(), "https://rust-lang.org/");
    assert_eq!(
        shell.key_pressed(Key::Escape, PLAIN),
        vec![ShellCommand::FocusPage, ShellCommand::Redraw]
    );
    assert_eq!(shell.address.text(), "https://example.com/");
    assert_eq!(shell.status_message.as_deref(), Some("Address edit cancelled"));
    assert_eq!(
        shell.primary_click(ClickTarget::Page),
        vec![ShellCommand::FocusPage, ShellCommand::Redraw]
    );
}

#[test]
fn places_the_page_view_below_the_toolbar() {
    assert_eq!(webview_bounds(900, 820), (0, 96, 900, 724));
    assert_eq!(webview_bounds(0, 50), (0, 96, 1, 1));
    assert_eq!(webview_bounds(720, 97), (0, 96, 720, 1));
}

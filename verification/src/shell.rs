//! The WebView shell: its tabs, their histories and its address bar. The
//! page engine, the clipboard and the window belong to the application: an
//! operation here changes the shell's state and lists the commands that the
//! application carries out in order. The result of a `Load` or `Reload`
//! command comes back through `load_finished`.
use vstd::prelude::*;
use crate::address::{all_selected, editor_wf, moved, replaced, AddressEditor, EditorModel};
use crate::gui::{copied_text, is_letter, key_view, showing, Key, KeyModel};
use crate::tabs::{ignores_navigation, record_history_for_tab, recorded, should_ignore_navigation_for_tab, TabModel, TabState};
use crate::text::{trim, trimmed};

verus! {

/// What the page engine reports.
pub enum BrowserEvent {
    NavigationStarted(String),
    PageFinished(String),
    TitleChanged(String),
    TopLevelUrlResolved(String),
    /// A link asked for a new tab: the address as written and as the
    /// application normalized it.
    OpenInNewTab { requested: String, normalized: Result<String, String> },
}

/// What the application does for the shell.
#[derive(Debug, PartialEq, Eq)]
pub enum ShellCommand {
    /// Load this URL in the page engine and report the result.
    Load(String),
    /// Reload the page and report the result.
    Reload,
    /// Normalize this typed address and hand it to `navigate_to_input`.
    Navigate(String),
    /// Put this text on the clipboard and report with `clipboard_written`.
    Copy(String),
    /// Put this cut text on the clipboard and report with
    /// `clipboard_written`.
    Cut(String),
    /// Read the clipboard and hand the result to `paste_clipboard`.
    Paste,
    /// Give the keyboard to the page.
    FocusPage,
    /// Show `window_title` in the window's title bar.
    UpdateTitle,
    /// Ask the page for its top-level URL (reported as
    /// `TopLevelUrlResolved`).
    RequestTopLevelUrl,
    Redraw,
}

pub enum CommandModel {
    Load(Seq<char>),
    Reload,
    Navigate(Seq<char>),
    Copy(Seq<char>),
    Cut(Seq<char>),
    Paste,
    FocusPage,
    UpdateTitle,
    RequestTopLevelUrl,
    Redraw,
}

pub open spec fn command_view(c: ShellCommand) -> CommandModel {
    match c {
        ShellCommand::Load(u) => CommandModel::Load(u@),
        ShellCommand::Reload => CommandModel::Reload,
        ShellCommand::Navigate(u) => CommandModel::Navigate(u@),
        ShellCommand::Copy(t) => CommandModel::Copy(t@),
        ShellCommand::Cut(t) => CommandModel::Cut(t@),
        ShellCommand::Paste => CommandModel::Paste,
        ShellCommand::FocusPage => CommandModel::FocusPage,
        ShellCommand::UpdateTitle => CommandModel::UpdateTitle,
        ShellCommand::RequestTopLevelUrl => CommandModel::RequestTopLevelUrl,
        ShellCommand::Redraw => CommandModel::Redraw,
    }
}

pub open spec fn commands_view(v: Seq<ShellCommand>) -> Seq<CommandModel> {
    v.map_values(|c: ShellCommand| command_view(c))
}

/// A load whose result the shell is waiting for.
pub enum Pending {
    Nothing,
    Navigate { requested: String, url: String },
    NewTab,
    Switch { target: String },
    Reload,
}

pub enum PendingModel {
    Nothing,
    Navigate { requested: Seq<char>, url: Seq<char> },
    NewTab,
    Switch { target: Seq<char> },
    Reload,
}

pub open spec fn pending_view(p: Pending) -> PendingModel {
    match p {
        Pending::Nothing => PendingModel::Nothing,
        Pending::Navigate { requested, url } => PendingModel::Navigate { requested: requested@, url: url@ },
        Pending::NewTab => PendingModel::NewTab,
        Pending::Switch { target } => PendingModel::Switch { target: target@ },
        Pending::Reload => PendingModel::Reload,
    }
}

/// The shell's state.
pub struct Shell {
    pub tabs: Vec<TabState>,
    pub active_tab: usize,
    pub address: AddressEditor,
    pub address_focus: bool,
    pub address_drag_active: bool,
    pub preedit_text: String,
    pub status_message: Option<String>,
    pub pending: Pending,
}

pub struct ShellModel {
    pub tabs: Seq<TabModel>,
    pub active: nat,
    pub editor: EditorModel,
    pub focus: bool,
    pub drag: bool,
    pub preedit: Seq<char>,
    pub status: Option<Seq<char>>,
    pub pending: PendingModel,
}

pub open spec fn tabs_view(v: Seq<TabState>) -> Seq<TabModel> {
    v.map_values(|t: TabState| t@)
}

impl View for Shell {
    type V = ShellModel;

    open spec fn view(&self) -> ShellModel {
        ShellModel {
            tabs: tabs_view(self.tabs@),
            active: self.active_tab as nat,
            editor: self.address@,
            focus: self.address_focus,
            drag: self.address_drag_active,
            preedit: self.preedit_text@,
            status: crate::css::opt_view(self.status_message),
            pending: pending_view(self.pending),
        }
    }
}

/// There is always a tab, the active one exists, every history index can
/// move one further, and the caret is within the address.
pub open spec fn shell_wf(m: ShellModel) -> bool {
    &&& m.tabs.len() >= 1
    &&& m.active < m.tabs.len()
    &&& forall|i: int| 0 <= i < m.tabs.len() ==> (#[trigger] m.tabs[i]).history_index < usize::MAX
    &&& editor_wf(m.editor)
}

pub open spec fn active(m: ShellModel) -> TabModel {
    m.tabs[m.active as int]
}

pub open spec fn with_active(m: ShellModel, t: TabModel) -> ShellModel {
    ShellModel { tabs: m.tabs.update(m.active as int, t), ..m }
}

pub open spec fn status(m: ShellModel, msg: Seq<char>) -> ShellModel {
    ShellModel { status: Some(msg), ..m }
}

/// The address bar taking or losing focus; losing it drops the selection
/// and ends a drag, and either way any IME text goes.
pub open spec fn focus_set(m: ShellModel, focused: bool) -> ShellModel {
    ShellModel {
        focus: focused,
        drag: if focused {
            m.drag
        } else {
            false
        },
        editor: if focused {
            m.editor
        } else {
            EditorModel { anchor: None, ..m.editor }
        },
        preedit: Seq::empty(),
        ..m
    }
}

/// The address bar shows the active tab's address, unless it is being
/// edited.
pub open spec fn synced(m: ShellModel) -> ShellModel {
    if m.focus {
        m
    } else {
        ShellModel { editor: showing(active(m).source), ..m }
    }
}

/// The URL of the active tab's current history entry (its current URL if
/// the index is past the history).
pub open spec fn history_url(t: TabModel) -> Seq<char> {
    if t.history_index < t.history.len() {
        t.history[t.history_index as int]
    } else {
        t.current_url
    }
}

/// A fresh tab on the blank page.
pub open spec fn blank_tab() -> TabModel {
    TabModel {
        source: Seq::empty(),
        current_url: "about:blank"@,
        title: "New Tab"@,
        is_loading: true,
        history: seq!["about:blank"@],
        history_index: 0,
    }
}

/// The tab after a load request to `url` for the address `source`.
pub open spec fn loading(t: TabModel, source: Seq<char>, url: Seq<char>) -> TabModel {
    TabModel { source, current_url: url, is_loading: true, ..t }
}

pub open spec fn stopped(t: TabModel) -> TabModel {
    TabModel { is_loading: false, ..t }
}

pub open spec fn no_pending(m: ShellModel) -> ShellModel {
    ShellModel { pending: PendingModel::Nothing, ..m }
}

/// The shell once a load has been reported.
pub open spec fn after_load(m: ShellModel, result: Result<(), Seq<char>>) -> (ShellModel, Seq<CommandModel>) {
    let m0 = no_pending(m);
    match m.pending {
        PendingModel::Nothing => (m, Seq::empty()),
        PendingModel::Navigate { requested, url } => match result {
            Ok(()) => (
                status(
                    focus_set(
                        ShellModel {
                            editor: EditorModel {
                                text: requested,
                                cursor: crate::address::clip(m.editor.cursor, requested.len()),
                                ..m.editor
                            },
                            ..m0
                        },
                        false,
                    ),
                    "Loading "@ + url,
                ),
                seq![CommandModel::FocusPage],
            ),
            Err(e) => (
                status(with_active(m0, stopped(active(m))), "failed to navigate to "@ + url + ": "@ + e),
                Seq::empty(),
            ),
        },
        PendingModel::NewTab => match result {
            Ok(()) => (m0, Seq::empty()),
            Err(e) => (status(with_active(m0, stopped(active(m))), "failed to open new tab: "@ + e), Seq::empty()),
        },
        PendingModel::Switch { target } => match result {
            Ok(()) => (status(m0, "Loading "@ + target), Seq::empty()),
            Err(e) => (status(with_active(m0, stopped(active(m))), "failed to switch tab: "@ + e), Seq::empty()),
        },
        PendingModel::Reload => match result {
            Ok(()) => (m0, Seq::empty()),
            Err(e) => (status(with_active(m0, stopped(active(m))), "failed to reload page: "@ + e), Seq::empty()),
        },
    }
}

pub open spec fn unit_result(r: Result<(), String>) -> Result<(), Seq<char>> {
    match r {
        Ok(()) => Ok(()),
        Err(e) => Err(e@),
    }
}

proof fn lemma_with_active_twice(m: ShellModel, a: TabModel, b: TabModel)
    requires
        m.active < m.tabs.len(),
    ensures
        with_active(with_active(m, a), b) == with_active(m, b),
{
    assert(m.tabs.update(m.active as int, a).update(m.active as int, b) =~= m.tabs.update(m.active as int, b));
}

pub open spec fn cmds0() -> Seq<CommandModel> {
    Seq::empty()
}

/// Reloading the active tab.
pub open spec fn reloaded(m: ShellModel) -> (ShellModel, Seq<CommandModel>) {
    (
        ShellModel {
            pending: PendingModel::Reload,
            ..status(with_active(m, TabModel { is_loading: true, ..active(m) }), "Reloading page"@)
        },
        seq![CommandModel::Reload, CommandModel::Redraw],
    )
}

/// Going back one history entry, where there is one.
pub open spec fn went_back(m: ShellModel) -> (ShellModel, Seq<CommandModel>) {
    let t = active(m);
    if t.history_index == 0 || t.history_index - 1 >= t.history.len() {
        (m, cmds0())
    } else {
        let target = t.history[t.history_index - 1];
        (
            status(
                no_pending(
                    with_active(m, TabModel { history_index: (t.history_index - 1) as nat, ..loading(t, target, target) }),
                ),
                "Going back"@,
            ),
            seq![CommandModel::Load(target), CommandModel::Redraw],
        )
    }
}

/// Going forward one history entry, where there is one.
pub open spec fn went_forward(m: ShellModel) -> (ShellModel, Seq<CommandModel>) {
    let t = active(m);
    if t.history_index + 1 >= t.history.len() {
        (m, cmds0())
    } else {
        let target = t.history[t.history_index + 1 as int];
        (
            status(
                no_pending(with_active(m, TabModel { history_index: t.history_index + 1, ..loading(t, target, target) })),
                "Going forward"@,
            ),
            seq![CommandModel::Load(target), CommandModel::Redraw],
        )
    }
}

/// Opening a new blank tab: it becomes active, with an empty, focused
/// address bar.
pub open spec fn opened_new_tab(m: ShellModel) -> (ShellModel, Seq<CommandModel>) {
    (
        ShellModel {
            pending: PendingModel::NewTab,
            ..focus_set(
                status(
                    ShellModel { tabs: m.tabs.push(blank_tab()), active: m.tabs.len(), editor: showing(Seq::empty()), ..m },
                    "Opened new tab"@,
                ),
                true,
            )
        },
        seq![CommandModel::Load("about:blank"@), CommandModel::UpdateTitle, CommandModel::Redraw],
    )
}

/// The active tab's index after tab `closed` is removed, leaving `new_len`
/// tabs.
pub open spec fn active_after_close(active: nat, closed: nat, new_len: nat) -> nat {
    if active >= new_len {
        (new_len - 1) as nat
    } else if closed < active {
        (active - 1) as nat
    } else {
        active
    }
}

/// Closing tab `i`: the last tab is reset to a blank page instead;
/// otherwise the tab goes and the active tab's page is shown.
pub open spec fn closed(m: ShellModel, i: nat) -> (ShellModel, Seq<CommandModel>) {
    if i >= m.tabs.len() {
        (m, cmds0())
    } else if m.tabs.len() == 1 {
        (
            focus_set(
                status(
                    ShellModel {
                        tabs: seq![blank_tab()],
                        active: 0,
                        editor: showing(Seq::empty()),
                        pending: PendingModel::Nothing,
                        ..m
                    },
                    "Reset current tab"@,
                ),
                true,
            ),
            seq![CommandModel::Load("about:blank"@), CommandModel::UpdateTitle, CommandModel::Redraw],
        )
    } else {
        let m1 = ShellModel {
            tabs: m.tabs.remove(i as int),
            active: active_after_close(m.active, i, (m.tabs.len() - 1) as nat),
            pending: PendingModel::Nothing,
            ..m
        };
        (
            status(synced(m1), "Closed tab"@),
            seq![CommandModel::Load(history_url(active(m1))), CommandModel::UpdateTitle, CommandModel::Redraw],
        )
    }
}

/// Switching to tab `i` (nothing for the active tab or no such tab): its
/// current history entry loads and the page gets the keyboard.
pub open spec fn switched(m: ShellModel, i: nat) -> (ShellModel, Seq<CommandModel>) {
    if i >= m.tabs.len() || i == m.active {
        (m, cmds0())
    } else {
        let m2 = focus_set(synced(ShellModel { active: i, ..m }), false);
        let target = history_url(active(m2));
        (
            ShellModel {
                pending: PendingModel::Switch { target },
                ..with_active(m2, TabModel { is_loading: true, ..active(m2) })
            },
            seq![CommandModel::FocusPage, CommandModel::Load(target), CommandModel::UpdateTitle, CommandModel::Redraw],
        )
    }
}

/// What the page engine says: navigations and finished pages move the
/// active tab (unless it ignores them) and show in the address bar unless
/// it is being edited; finished and resolved URLs go into the history; a
/// new title is shown; a link for a new tab opens one in the background.
pub open spec fn event_handled(m: ShellModel, e: EventModel) -> (ShellModel, Seq<CommandModel>) {
    let t = active(m);
    let show = |m1: ShellModel, url: Seq<char>|
        if m1.focus {
            m1
        } else {
            ShellModel { editor: showing(url), ..m1 }
        };
    match e {
        EventModel::NavigationStarted(url) => if ignores_navigation(t.source, t.current_url, url) {
            (m, cmds0())
        } else {
            (status(show(with_active(m, loading(t, url, url)), url), "Loading "@ + url), seq![CommandModel::Redraw])
        },
        EventModel::PageFinished(url) => if ignores_navigation(t.source, t.current_url, url) {
            (m, cmds0())
        } else {
            let (h, i) = recorded(t.history, t.history_index, url);
            (
                status(
                    show(
                        with_active(
                            m,
                            TabModel { source: url, current_url: url, is_loading: false, history: h, history_index: i, ..t },
                        ),
                        url,
                    ),
                    "Page loaded"@,
                ),
                seq![CommandModel::RequestTopLevelUrl, CommandModel::Redraw],
            )
        },
        EventModel::TopLevelUrlResolved(url) => if ignores_navigation(t.source, t.current_url, url) {
            (m, cmds0())
        } else {
            let (h, i) = recorded(t.history, t.history_index, url);
            (
                show(with_active(m, TabModel { source: url, current_url: url, history: h, history_index: i, ..t }), url),
                seq![CommandModel::Redraw],
            )
        },
        EventModel::TitleChanged(title) => (
            with_active(m, TabModel { title, ..t }),
            seq![CommandModel::UpdateTitle, CommandModel::Redraw],
        ),
        EventModel::OpenInNewTab { requested, normalized } => {
            let n = match normalized {
                Ok(u) => u,
                Err(_) => requested,
            };
            (
                status(
                    ShellModel {
                        tabs: m.tabs.push(
                            TabModel {
                                source: n,
                                current_url: n,
                                title: requested,
                                is_loading: false,
                                history: seq![n],
                                history_index: 0,
                            },
                        ),
                        ..m
                    },
                    "Opened link in new tab"@,
                ),
                seq![CommandModel::Redraw],
            )
        },
    }
}

pub enum EventModel {
    NavigationStarted(Seq<char>),
    PageFinished(Seq<char>),
    TitleChanged(Seq<char>),
    TopLevelUrlResolved(Seq<char>),
    OpenInNewTab { requested: Seq<char>, normalized: Result<Seq<char>, Seq<char>> },
}

pub open spec fn event_view(e: BrowserEvent) -> EventModel {
    match e {
        BrowserEvent::NavigationStarted(u) => EventModel::NavigationStarted(u@),
        BrowserEvent::PageFinished(u) => EventModel::PageFinished(u@),
        BrowserEvent::TitleChanged(t) => EventModel::TitleChanged(t@),
        BrowserEvent::TopLevelUrlResolved(u) => EventModel::TopLevelUrlResolved(u@),
        BrowserEvent::OpenInNewTab { requested, normalized } => EventModel::OpenInNewTab {
            requested: requested@,
            normalized: crate::source::res_view(normalized),
        },
    }
}

/// A key press in the shell window.
pub open spec fn shell_key(m: ShellModel, k: KeyModel, mods: crate::gui::Modifiers) -> (ShellModel, Seq<CommandModel>) {
    if is_letter(k, 'l') && mods.command {
        (
            status(ShellModel { editor: all_selected(showing(active(m).source)), ..focus_set(m, true) }, "Editing address"@),
            seq![CommandModel::Redraw],
        )
    } else if is_letter(k, 't') && mods.command {
        opened_new_tab(m)
    } else if is_letter(k, 'w') && mods.command {
        closed(m, m.active)
    } else if m.focus {
        if mods.command && is_letter(k, 'a') {
            (status(ShellModel { editor: all_selected(m.editor), ..m }, "Address selected"@), seq![CommandModel::Redraw])
        } else if mods.command && is_letter(k, 'c') {
            (m, seq![CommandModel::Copy(copied_text(m.editor)), CommandModel::Redraw])
        } else if mods.command && is_letter(k, 'x') {
            let e = if crate::address::selection(m.editor) is Some {
                replaced(m.editor, Seq::empty())
            } else {
                m.editor
            };
            (ShellModel { editor: e, ..m }, seq![CommandModel::Cut(copied_text(m.editor)), CommandModel::Redraw])
        } else if mods.command && is_letter(k, 'v') {
            (m, seq![CommandModel::Paste, CommandModel::Redraw])
        } else {
            match k {
                KeyModel::Enter => {
                    let t = trim(m.editor.text);
                    if t.len() > 0 {
                        (m, seq![CommandModel::Navigate(t)])
                    } else {
                        (m, cmds0())
                    }
                },
                KeyModel::Escape => (
                    status(
                        ShellModel { editor: showing(active(m).source), ..focus_set(m, false) },
                        "Address edit cancelled"@,
                    ),
                    seq![CommandModel::FocusPage, CommandModel::Redraw],
                ),
                _ => match crate::gui::edited(m.editor, k, mods) {
                    Some(e) => (ShellModel { editor: e, ..m }, seq![CommandModel::Redraw]),
                    None => (m, cmds0()),
                },
            }
        }
    } else if is_letter(k, 'r') && mods.command {
        reloaded(m)
    } else if k is ArrowLeft && mods.alt {
        went_back(m)
    } else if k is ArrowRight && mods.alt {
        went_forward(m)
    } else {
        (m, cmds0())
    }
}

/// Where a click landed, as the application's hit tests found it.
pub enum ClickTarget {
    NewTab,
    CloseTab(usize),
    Tab(usize),
    Back,
    Forward,
    Reload,
    /// The address bar, at this character index of the address.
    AddressBar(usize),
    Page,
}

/// A click.
pub open spec fn clicked(m: ShellModel, target: ClickTarget) -> (ShellModel, Seq<CommandModel>) {
    match target {
        ClickTarget::NewTab => opened_new_tab(m),
        ClickTarget::CloseTab(i) => closed(m, i as nat),
        ClickTarget::Tab(i) => switched(m, i as nat),
        ClickTarget::Back => went_back(m),
        ClickTarget::Forward => went_forward(m),
        ClickTarget::Reload => reloaded(m),
        ClickTarget::AddressBar(caret) => (
            status(
                ShellModel {
                    editor: EditorModel { cursor: caret as nat, anchor: None, ..m.editor },
                    drag: true,
                    ..focus_set(m, true)
                },
                "Editing address"@,
            ),
            seq![CommandModel::Redraw],
        ),
        ClickTarget::Page => if m.focus {
            (status(focus_set(m, false), "Address bar unfocused"@), seq![CommandModel::FocusPage, CommandModel::Redraw])
        } else {
            (m, seq![CommandModel::FocusPage, CommandModel::Redraw])
        },
    }
}

/// Tab operations never leave the shell without a tab: opening, closing,
/// switching, going back or forward and reloading all keep a valid active
/// tab and a caret within the address.
pub proof fn law_tab_operations_keep_an_active_tab(m: ShellModel, i: nat)
    requires
        shell_wf(m),
        active(m).history.len() <= usize::MAX,
    ensures
        shell_wf(opened_new_tab(m).0),
        shell_wf(closed(m, i).0),
        shell_wf(switched(m, i).0),
        shell_wf(went_back(m).0),
        shell_wf(went_forward(m).0),
        shell_wf(reloaded(m).0),
{
    let o = opened_new_tab(m).0;
    assert forall|k: int| 0 <= k < o.tabs.len() implies (#[trigger] o.tabs[k]).history_index < usize::MAX by {
        if k < m.tabs.len() {
            assert(o.tabs[k] == m.tabs[k]);
        }
    }
    if i < m.tabs.len() && m.tabs.len() > 1 {
        let c = ShellModel {
            tabs: m.tabs.remove(i as int),
            active: active_after_close(m.active, i, (m.tabs.len() - 1) as nat),
            pending: PendingModel::Nothing,
            ..m
        };
        assert forall|k: int| 0 <= k < c.tabs.len() implies (#[trigger] c.tabs[k]).history_index < usize::MAX by {
            if k < i {
                assert(c.tabs[k] == m.tabs[k]);
            } else {
                assert(c.tabs[k] == m.tabs[k + 1]);
            }
        }
    }
    if i < m.tabs.len() && m.tabs.len() == 1 {
        let c = closed(m, i).0;
        assert(c.tabs[0] == blank_tab());
    }
    let t = active(m);
    if !(t.history_index == 0 || t.history_index - 1 >= t.history.len()) {
        let b = went_back(m).0;
        assert forall|k: int| 0 <= k < b.tabs.len() implies (#[trigger] b.tabs[k]).history_index < usize::MAX by {
            if k != m.active {
                assert(b.tabs[k] == m.tabs[k]);
            }
        }
    }
    if !(t.history_index + 1 >= t.history.len()) {
        let f = went_forward(m).0;
        assert forall|k: int| 0 <= k < f.tabs.len() implies (#[trigger] f.tabs[k]).history_index < usize::MAX by {
            if k != m.active {
                assert(f.tabs[k] == m.tabs[k]);
            }
        }
    }
}

/// Switching to another tab makes it the active tab.
pub proof fn law_switch_selects_tab(m: ShellModel, i: nat)
    requires
        shell_wf(m),
        i < m.tabs.len(),
    ensures
        switched(m, i).0.active == i,
{
}

/// Closing a tab just opened leaves the other tabs as they were.
pub proof fn law_close_undoes_open(m: ShellModel)
    requires
        shell_wf(m),
    ensures
        closed(opened_new_tab(m).0, m.tabs.len()).0.tabs == m.tabs,
{
    let o = opened_new_tab(m).0;
    assert(o.tabs.len() == m.tabs.len() + 1);
    assert(o.tabs.remove(m.tabs.len() as int) =~= m.tabs);
}

/// Closing one of several tabs removes exactly that tab. Closing a
/// background tab keeps the same tab active and loads that tab's page;
/// closing the active tab makes the next tab active (the previous one
/// when it was the last) and loads its page.
pub proof fn law_close_keeps_the_right_tab_active(m: ShellModel, i: nat)
    requires
        shell_wf(m),
        i < m.tabs.len(),
        m.tabs.len() > 1,
    ensures
        closed(m, i).0.tabs == m.tabs.remove(i as int),
        closed(m, i).0.active < closed(m, i).0.tabs.len(),
        i != m.active ==> closed(m, i).0.tabs[closed(m, i).0.active as int] == m.tabs[m.active as int],
        i == m.active && i + 1 < m.tabs.len() ==> closed(m, i).0.tabs[closed(m, i).0.active as int] == m.tabs[i + 1int],
        i == m.active && i + 1 == m.tabs.len() ==> closed(m, i).0.tabs[closed(m, i).0.active as int] == m.tabs[i - 1],
        closed(m, i).1 == seq![
            CommandModel::Load(history_url(closed(m, i).0.tabs[closed(m, i).0.active as int])),
            CommandModel::UpdateTitle,
            CommandModel::Redraw,
        ],
{
    let r = closed(m, i).0;
    let rest = m.tabs.remove(i as int);
    assert(r.tabs == rest);
    if i < m.active {
        assert(rest[m.active - 1] == m.tabs[m.active as int]);
    } else if i > m.active {
        assert(rest[m.active as int] == m.tabs[m.active as int]);
    } else if i + 1 < m.tabs.len() {
        assert(rest[i as int] == m.tabs[i + 1int]);
    } else {
        assert(rest[i - 1] == m.tabs[i - 1]);
    }
}

/// Going back and then forward returns the active tab to the history entry
/// it was on, with the same history.
pub proof fn law_back_then_forward_returns(m: ShellModel)
    requires
        shell_wf(m),
        active(m).history_index > 0,
        active(m).history_index < active(m).history.len(),
    ensures
        active(went_forward(went_back(m).0).0).history_index == active(m).history_index,
        active(went_forward(went_back(m).0).0).history == active(m).history,
        active(went_forward(went_back(m).0).0).current_url == active(m).history[active(m).history_index as int],
{
}

/// `a` followed by `b`.
fn cat(a: &str, b: &str) -> (r: String)
    ensures
        r@ == a@ + b@,
{
    let mut out = String::from_str(a);
    let tail = String::from_str(b);
    crate::style::append_str(&mut out, &tail);
    out
}

fn key_is(k: &Key, letter: char) -> (r: bool)
    ensures
        r == is_letter(key_view(*k), letter),
{
    match k {
        Key::Character(t) => crate::gui::is_letter_text(t.as_str(), letter),
        _ => false,
    }
}

fn message(lit: &str) -> (r: Option<String>)
    ensures
        crate::css::opt_view(r) == Some(lit@),
{
    Some(String::from_str(lit))
}

fn new_blank_tab() -> (r: TabState)
    ensures
        r@ == blank_tab(),
{
    let mut history: Vec<String> = Vec::new();
    history.push(String::from_str("about:blank"));
    let r = TabState {
        source: String::new(),
        current_url: String::from_str("about:blank"),
        title: String::from_str("New Tab"),
        is_loading: true,
        history,
        history_index: 0,
    };
    proof {
        assert(r@.history =~= seq!["about:blank"@]);
    }
    r
}

/// Puts `t` in place of tab `i` and gives back the tab that was there.
fn swap_tab(tabs: &mut Vec<TabState>, i: usize, t: TabState) -> (r: TabState)
    requires
        i < old(tabs)@.len(),
    ensures
        final(tabs)@ == old(tabs)@.update(i as int, t),
        r == old(tabs)@[i as int],
{
    let r = tabs.remove(i);
    tabs.insert(i, t);
    proof {
        assert(tabs@ =~= old(tabs)@.update(i as int, t));
    }
    r
}

proof fn lemma_tabs_update(v: Seq<TabState>, i: int, t: TabState)
    requires
        0 <= i < v.len(),
    ensures
        tabs_view(v.update(i, t)) == tabs_view(v).update(i, t@),
{
    assert(tabs_view(v.update(i, t)) =~= tabs_view(v).update(i, t@));
}

impl Shell {
    /// The shell when the window opens: one tab, loading `initial_url`
    /// for the address `initial_source`.
    pub fn new(initial_source: &str, initial_url: &str) -> (r: Shell)
        ensures
            r@ == (ShellModel {
                tabs: seq![TabModel {
                    source: initial_source@,
                    current_url: initial_url@,
                    title: initial_source@,
                    is_loading: true,
                    history: seq![initial_url@],
                    history_index: 0,
                }],
                active: 0,
                editor: showing(initial_source@),
                focus: false,
                drag: false,
                preedit: Seq::empty(),
                status: Some("Loading page"@),
                pending: PendingModel::Nothing,
            }),
            shell_wf(r@),
    {
        let mut history: Vec<String> = Vec::new();
        history.push(String::from_str(initial_url));
        let tab = TabState {
            source: String::from_str(initial_source),
            current_url: String::from_str(initial_url),
            title: String::from_str(initial_source),
            is_loading: true,
            history,
            history_index: 0,
        };
        let mut tabs: Vec<TabState> = Vec::new();
        tabs.push(tab);
        let r = Shell {
            tabs,
            active_tab: 0,
            address: AddressEditor::new(initial_source),
            address_focus: false,
            address_drag_active: false,
            preedit_text: String::new(),
            status_message: message("Loading page"),
            pending: Pending::Nothing,
        };
        proof {
            assert(r@.tabs[0].history =~= seq![initial_url@]);
            assert(r@.tabs =~= seq![r@.tabs[0]]);
        }
        r
    }

    /// The window's title: the active tab's title, or its address while it
    /// has no title.
    pub fn window_title(&self) -> (r: String)
        requires
            shell_wf(self@),
        ensures
            r@ == "Browser - "@ + if active(self@).title.len() == 0 {
                active(self@).source
            } else {
                active(self@).title
            },
    {
        let tab = &self.tabs[self.active_tab];
        proof {
            assert(active(self@) == tab@);
        }
        if tab.title.as_str().is_empty() {
            cat("Browser - ", tab.source.as_str())
        } else {
            cat("Browser - ", tab.title.as_str())
        }
    }

    fn set_focus(&mut self, focused: bool)
        requires
            shell_wf(old(self)@),
        ensures
            final(self)@ == focus_set(old(self)@, focused),
            shell_wf(final(self)@),
    {
        self.address_focus = focused;
        if !focused {
            self.address.clear_selection();
            self.address_drag_active = false;
        }
        self.preedit_text = String::new();
    }

    /// Shows the active tab's address in the bar unless it is being edited.
    pub fn sync_address_from_active_tab(&mut self)
        requires
            shell_wf(old(self)@),
        ensures
            final(self)@ == synced(old(self)@),
            shell_wf(final(self)@),
    {
        if self.address_focus {
            return;
        }
        let source = self.tabs[self.active_tab].source.clone();
        proof {
            assert(active(old(self)@).source == source@);
        }
        self.address.set_text(source.as_str());
    }

    /// The URL of the active tab's current history entry.
    pub fn active_history_url(&self) -> (r: String)
        requires
            shell_wf(self@),
        ensures
            r@ == history_url(active(self@)),
    {
        let tab = &self.tabs[self.active_tab];
        proof {
            assert(active(self@) == tab@);
        }
        if tab.history_index < tab.history.len() {
            tab.history[tab.history_index].clone()
        } else {
            tab.current_url.clone()
        }
    }

    /// Records a visit in the active tab's history.
    pub fn record_active_tab_history(&mut self, url: &str)
        requires
            shell_wf(old(self)@),
        ensures
            final(self)@ == with_active(
                old(self)@,
                TabModel {
                    history: recorded(active(old(self)@).history, active(old(self)@).history_index, url@).0,
                    history_index: recorded(active(old(self)@).history, active(old(self)@).history_index, url@).1,
                    ..active(old(self)@)
                },
            ),
            shell_wf(final(self)@),
    {
        let i = self.active_tab;
        let mut tab = swap_tab(&mut self.tabs, i, new_blank_tab());
        proof {
            assert(active(old(self)@) == tab@);
            assert(tab.history_index < usize::MAX);
        }
        record_history_for_tab(&mut tab, url);
        swap_tab(&mut self.tabs, i, tab);
        proof {
            lemma_tabs_update(old(self).tabs@, i as int, tab);
            assert(self.tabs@ =~= old(self).tabs@.update(i as int, tab));
            lemma_tabs_update(old(self).tabs@, i as int, tab);
        }
    }
    fn set_active_tab(&mut self, t: TabState)
        requires
            shell_wf(old(self)@),
            t@.history_index < usize::MAX,
        ensures
            final(self)@ == with_active(old(self)@, t@),
            shell_wf(final(self)@),
    {
        let i = self.active_tab;
        swap_tab(&mut self.tabs, i, t);
        proof {
            lemma_tabs_update(old(self).tabs@, i as int, t);
        }
    }

    fn take_active_tab(&mut self) -> (r: TabState)
        requires
            shell_wf(old(self)@),
        ensures
            r == old(self).tabs@[old(self).active_tab as int],
            r@ == active(old(self)@),
            final(self)@ == with_active(old(self)@, blank_tab()),
            shell_wf(final(self)@),
    {
        let i = self.active_tab;
        let blank = new_blank_tab();
        let r = swap_tab(&mut self.tabs, i, blank);
        proof {
            lemma_tabs_update(old(self).tabs@, i as int, blank);
        }
        r
    }

    /// Loads a typed address: `normalized` is what the application made of
    /// it (a URL, or the error to show).
    pub fn navigate_to_input(&mut self, requested: &str, normalized: Result<String, String>) -> (r: Vec<ShellCommand>)
        requires
            shell_wf(old(self)@),
        ensures
            shell_wf(final(self)@),
            match normalized {
                Ok(url) => final(self)@ == (ShellModel {
                    pending: PendingModel::Navigate { requested: requested@, url: url@ },
                    ..with_active(old(self)@, loading(active(old(self)@), requested@, url@))
                }) && commands_view(r@) == seq![CommandModel::Load(url@), CommandModel::Redraw],
                Err(e) => final(self)@ == status(old(self)@, e@) && commands_view(r@) == seq![CommandModel::Redraw],
            },
    {
        let mut cmds: Vec<ShellCommand> = Vec::new();
        match normalized {
            Ok(url) => {
                let mut tab = self.take_active_tab();
                tab.source = String::from_str(requested);
                tab.current_url = url.clone();
                tab.is_loading = true;
                self.set_active_tab(tab);
                proof {
                    assert(old(self)@.tabs.update(old(self)@.active as int, blank_tab()).update(
                        old(self)@.active as int,
                        tab@,
                    ) =~= old(self)@.tabs.update(old(self)@.active as int, tab@));
                }
                self.pending = Pending::Navigate { requested: String::from_str(requested), url: url.clone() };
                cmds.push(ShellCommand::Load(url));
                cmds.push(ShellCommand::Redraw);
            },
            Err(e) => {
                self.status_message = Some(e);
                cmds.push(ShellCommand::Redraw);
            },
        }
        proof {
            assert(commands_view(cmds@) =~= if normalized is Ok {
                seq![CommandModel::Load(normalized->Ok_0@), CommandModel::Redraw]
            } else {
                seq![CommandModel::Redraw]
            });
        }
        cmds
    }
    /// The page engine reported the result of the last `Load` or `Reload`.
    pub fn load_finished(&mut self, result: Result<(), String>) -> (r: Vec<ShellCommand>)
        requires
            shell_wf(old(self)@),
        ensures
            (final(self)@, commands_view(r@)) == after_load(old(self)@, unit_result(result)),
            shell_wf(final(self)@),
    {
        let ghost m = self@;
        let mut pending = Pending::Nothing;
        std::mem::swap(&mut pending, &mut self.pending);
        let mut cmds: Vec<ShellCommand> = Vec::new();
        match pending {
            Pending::Nothing => {},
            Pending::Navigate { requested, url } => match result {
                Ok(()) => {
                    self.address.set_text_keep_caret(requested.as_str());
                    self.set_focus(false);
                    self.status_message = Some(cat("Loading ", url.as_str()));
                    cmds.push(ShellCommand::FocusPage);
                },
                Err(e) => {
                    let mut tab = self.take_active_tab();
                    tab.is_loading = false;
                    self.set_active_tab(tab);
                    proof {
                        lemma_with_active_twice(no_pending(m), blank_tab(), tab@);
                    }
                    let mut msg = cat("failed to navigate to ", url.as_str());
                    let tail = cat(": ", e.as_str());
                    crate::style::append_str(&mut msg, &tail);
                    proof {
                        assert(msg@ =~= "failed to navigate to "@ + url@ + ": "@ + e@);
                    }
                    self.status_message = Some(msg);
                },
            },
            Pending::NewTab => match result {
                Ok(()) => {},
                Err(e) => {
                    let mut tab = self.take_active_tab();
                    tab.is_loading = false;
                    self.set_active_tab(tab);
                    proof {
                        lemma_with_active_twice(no_pending(m), blank_tab(), tab@);
                    }
                    self.status_message = Some(cat("failed to open new tab: ", e.as_str()));
                },
            },
            Pending::Switch { target } => match result {
                Ok(()) => {
                    self.status_message = Some(cat("Loading ", target.as_str()));
                },
                Err(e) => {
                    let mut tab = self.take_active_tab();
                    tab.is_loading = false;
                    self.set_active_tab(tab);
                    proof {
                        lemma_with_active_twice(no_pending(m), blank_tab(), tab@);
                    }
                    self.status_message = Some(cat("failed to switch tab: ", e.as_str()));
                },
            },
            Pending::Reload => match result {
                Ok(()) => {},
                Err(e) => {
                    let mut tab = self.take_active_tab();
                    tab.is_loading = false;
                    self.set_active_tab(tab);
                    proof {
                        lemma_with_active_twice(no_pending(m), blank_tab(), tab@);
                    }
                    self.status_message = Some(cat("failed to reload page: ", e.as_str()));
                },
            },
        }
        proof {
            assert(commands_view(cmds@) =~= after_load(m, unit_result(result)).1);
        }
        cmds
    }

    /// Reloads the active tab.
    pub fn reload(&mut self) -> (r: Vec<ShellCommand>)
        requires
            shell_wf(old(self)@),
        ensures
            (final(self)@, commands_view(r@)) == reloaded(old(self)@),
            shell_wf(final(self)@),
    {
        self.status_message = message("Reloading page");
        let mut tab = self.take_active_tab();
        tab.is_loading = true;
        self.set_active_tab(tab);
        proof {
            lemma_with_active_twice(old(self)@, blank_tab(), tab@);
        }
        self.pending = Pending::Reload;
        let mut cmds: Vec<ShellCommand> = Vec::new();
        cmds.push(ShellCommand::Reload);
        cmds.push(ShellCommand::Redraw);
        proof {
            assert(commands_view(cmds@) =~= seq![CommandModel::Reload, CommandModel::Redraw]);
        }
        cmds
    }

    /// Goes back one entry in the active tab's history, if there is one.
    pub fn history_back(&mut self) -> (r: Vec<ShellCommand>)
        requires
            shell_wf(old(self)@),
        ensures
            (final(self)@, commands_view(r@)) == went_back(old(self)@),
            shell_wf(final(self)@),
    {
        let mut cmds: Vec<ShellCommand> = Vec::new();
        let i = self.active_tab;
        let idx = self.tabs[i].history_index;
        if idx == 0 || idx - 1 >= self.tabs[i].history.len() {
            proof {
                assert(commands_view(cmds@) =~= cmds0());
            }
            return cmds;
        }
        let target = self.tabs[i].history[idx - 1].clone();
        let mut tab = self.take_active_tab();
        proof {
            assert(tab.history@[idx - 1]@ == target@);
        }
        tab.history_index = idx - 1;
        tab.is_loading = true;
        tab.current_url = target.clone();
        tab.source = target.clone();
        self.set_active_tab(tab);
        proof {
            lemma_with_active_twice(old(self)@, blank_tab(), tab@);
        }
        self.pending = Pending::Nothing;
        self.status_message = message("Going back");
        cmds.push(ShellCommand::Load(target));
        cmds.push(ShellCommand::Redraw);
        proof {
            assert(commands_view(cmds@) =~= seq![CommandModel::Load(target@), CommandModel::Redraw]);
        }
        cmds
    }

    /// Goes forward one entry in the active tab's history, if there is one.
    pub fn history_forward(&mut self) -> (r: Vec<ShellCommand>)
        requires
            shell_wf(old(self)@),
        ensures
            (final(self)@, commands_view(r@)) == went_forward(old(self)@),
            shell_wf(final(self)@),
    {
        let mut cmds: Vec<ShellCommand> = Vec::new();
        let i = self.active_tab;
        let idx = self.tabs[i].history_index;
        proof {
            assert(active(self@) == self.tabs@[i as int]@);
        }
        if idx + 1 >= self.tabs[i].history.len() {
            proof {
                assert(commands_view(cmds@) =~= cmds0());
            }
            return cmds;
        }
        let target = self.tabs[i].history[idx + 1].clone();
        let mut tab = self.take_active_tab();
        proof {
            assert(tab.history@[idx + 1]@ == target@);
        }
        tab.history_index = idx + 1;
        tab.is_loading = true;
        tab.current_url = target.clone();
        tab.source = target.clone();
        self.set_active_tab(tab);
        proof {
            lemma_with_active_twice(old(self)@, blank_tab(), tab@);
        }
        self.pending = Pending::Nothing;
        self.status_message = message("Going forward");
        cmds.push(ShellCommand::Load(target));
        cmds.push(ShellCommand::Redraw);
        proof {
            assert(commands_view(cmds@) =~= seq![CommandModel::Load(target@), CommandModel::Redraw]);
        }
        cmds
    }
    /// Opens a new blank tab and makes it active.
    pub fn open_new_tab(&mut self) -> (r: Vec<ShellCommand>)
        requires
            shell_wf(old(self)@),
        ensures
            (final(self)@, commands_view(r@)) == opened_new_tab(old(self)@),
            shell_wf(final(self)@),
    {
        let blank = new_blank_tab();
        self.tabs.push(blank);
        proof {
            assert(tabs_view(self.tabs@) =~= old(self)@.tabs.push(blank_tab()));
        }
        self.active_tab = self.tabs.len() - 1;
        self.address.set_text("");
        proof {
            reveal_strlit("");
            assert(""@ =~= Seq::<char>::empty());
        }
        self.status_message = message("Opened new tab");
        self.pending = Pending::NewTab;
        self.set_focus(true);
        let mut cmds: Vec<ShellCommand> = Vec::new();
        cmds.push(ShellCommand::Load(String::from_str("about:blank")));
        cmds.push(ShellCommand::UpdateTitle);
        cmds.push(ShellCommand::Redraw);
        proof {
            assert(commands_view(cmds@) =~= opened_new_tab(old(self)@).1);
        }
        cmds
    }

    /// Closes tab `tab_index`; the last tab is reset to a blank page.
    pub fn close_tab(&mut self, tab_index: usize) -> (r: Vec<ShellCommand>)
        requires
            shell_wf(old(self)@),
        ensures
            (final(self)@, commands_view(r@)) == closed(old(self)@, tab_index as nat),
            shell_wf(final(self)@),
    {
        let mut cmds: Vec<ShellCommand> = Vec::new();
        if tab_index >= self.tabs.len() {
            proof {
                assert(commands_view(cmds@) =~= cmds0());
            }
            return cmds;
        }
        if self.tabs.len() == 1 {
            let blank = new_blank_tab();
            swap_tab(&mut self.tabs, 0, blank);
            proof {
                assert(tabs_view(self.tabs@) =~= seq![blank_tab()]);
            }
            self.active_tab = 0;
            self.address.set_text("");
            proof {
                reveal_strlit("");
                assert(""@ =~= Seq::<char>::empty());
            }
            self.pending = Pending::Nothing;
            self.status_message = message("Reset current tab");
            self.set_focus(true);
            cmds.push(ShellCommand::Load(String::from_str("about:blank")));
            cmds.push(ShellCommand::UpdateTitle);
            cmds.push(ShellCommand::Redraw);
            proof {
                assert(commands_view(cmds@) =~= closed(old(self)@, tab_index as nat).1);
            }
            return cmds;
        }
        self.tabs.remove(tab_index);
        proof {
            assert(tabs_view(self.tabs@) =~= old(self)@.tabs.remove(tab_index as int));
        }
        let n = self.tabs.len();
        if self.active_tab >= n {
            self.active_tab = n - 1;
        } else if tab_index < self.active_tab {
            self.active_tab = self.active_tab - 1;
        }
        self.pending = Pending::Nothing;
        proof {
            assert forall|k: int| 0 <= k < self@.tabs.len() implies (#[trigger] self@.tabs[k]).history_index < usize::MAX by {
                if k < tab_index {
                    assert(self@.tabs[k] == old(self)@.tabs[k]);
                } else {
                    assert(self@.tabs[k] == old(self)@.tabs[k + 1]);
                }
            }
        }
        let target = self.active_history_url();
        self.sync_address_from_active_tab();
        self.status_message = message("Closed tab");
        cmds.push(ShellCommand::Load(target));
        cmds.push(ShellCommand::UpdateTitle);
        cmds.push(ShellCommand::Redraw);
        proof {
            assert(commands_view(cmds@) =~= closed(old(self)@, tab_index as nat).1);
        }
        cmds
    }

    /// Makes tab `tab_index` the active tab.
    pub fn switch_to_tab(&mut self, tab_index: usize) -> (r: Vec<ShellCommand>)
        requires
            shell_wf(old(self)@),
        ensures
            (final(self)@, commands_view(r@)) == switched(old(self)@, tab_index as nat),
            shell_wf(final(self)@),
    {
        let mut cmds: Vec<ShellCommand> = Vec::new();
        if tab_index >= self.tabs.len() || tab_index == self.active_tab {
            proof {
                assert(commands_view(cmds@) =~= cmds0());
            }
            return cmds;
        }
        self.active_tab = tab_index;
        self.sync_address_from_active_tab();
        self.set_focus(false);
        let ghost m2 = self@;
        let target = self.active_history_url();
        let mut tab = self.take_active_tab();
        tab.is_loading = true;
        self.set_active_tab(tab);
        proof {
            lemma_with_active_twice(m2, blank_tab(), tab@);
        }
        self.pending = Pending::Switch { target: target.clone() };
        cmds.push(ShellCommand::FocusPage);
        cmds.push(ShellCommand::Load(target));
        cmds.push(ShellCommand::UpdateTitle);
        cmds.push(ShellCommand::Redraw);
        proof {
            assert(commands_view(cmds@) =~= switched(old(self)@, tab_index as nat).1);
        }
        cmds
    }

    /// Handles what the page engine reports.
    pub fn handle_browser_event(&mut self, event: BrowserEvent) -> (r: Vec<ShellCommand>)
        requires
            shell_wf(old(self)@),
        ensures
            (final(self)@, commands_view(r@)) == event_handled(old(self)@, event_view(event)),
            shell_wf(final(self)@),
    {
        let mut cmds: Vec<ShellCommand> = Vec::new();
        let i = self.active_tab;
        proof {
            assert(active(self@) == self.tabs@[i as int]@);
        }
        match event {
            BrowserEvent::NavigationStarted(url) => {
                if should_ignore_navigation_for_tab(&self.tabs[i], url.as_str()) {
                    proof {
                        assert(commands_view(cmds@) =~= cmds0());
                    }
                    return cmds;
                }
                let mut tab = self.take_active_tab();
                tab.current_url = url.clone();
                tab.source = url.clone();
                tab.is_loading = true;
                self.set_active_tab(tab);
                proof {
                    lemma_with_active_twice(old(self)@, blank_tab(), tab@);
                }
                if !self.address_focus {
                    self.address.set_text(url.as_str());
                }
                self.status_message = Some(cat("Loading ", url.as_str()));
                cmds.push(ShellCommand::Redraw);
            },
            BrowserEvent::PageFinished(url) => {
                if should_ignore_navigation_for_tab(&self.tabs[i], url.as_str()) {
                    proof {
                        assert(commands_view(cmds@) =~= cmds0());
                    }
                    return cmds;
                }
                let mut tab = self.take_active_tab();
                tab.current_url = url.clone();
                tab.source = url.clone();
                tab.is_loading = false;
                record_history_for_tab(&mut tab, url.as_str());
                self.set_active_tab(tab);
                proof {
                    lemma_with_active_twice(old(self)@, blank_tab(), tab@);
                }
                if !self.address_focus {
                    self.address.set_text(url.as_str());
                }
                self.status_message = message("Page loaded");
                cmds.push(ShellCommand::RequestTopLevelUrl);
                cmds.push(ShellCommand::Redraw);
            },
            BrowserEvent::TopLevelUrlResolved(url) => {
                if should_ignore_navigation_for_tab(&self.tabs[i], url.as_str()) {
                    proof {
                        assert(commands_view(cmds@) =~= cmds0());
                    }
                    return cmds;
                }
                let mut tab = self.take_active_tab();
                tab.current_url = url.clone();
                tab.source = url.clone();
                record_history_for_tab(&mut tab, url.as_str());
                self.set_active_tab(tab);
                proof {
                    lemma_with_active_twice(old(self)@, blank_tab(), tab@);
                }
                if !self.address_focus {
                    self.address.set_text(url.as_str());
                }
                cmds.push(ShellCommand::Redraw);
            },
            BrowserEvent::TitleChanged(title) => {
                let mut tab = self.take_active_tab();
                tab.title = title;
                self.set_active_tab(tab);
                proof {
                    lemma_with_active_twice(old(self)@, blank_tab(), tab@);
                }
                cmds.push(ShellCommand::UpdateTitle);
                cmds.push(ShellCommand::Redraw);
            },
            BrowserEvent::OpenInNewTab { requested, normalized } => {
                let n = match normalized {
                    Ok(u) => u,
                    Err(_) => requested.clone(),
                };
                let mut history: Vec<String> = Vec::new();
                history.push(n.clone());
                let tab = TabState {
                    source: n.clone(),
                    current_url: n.clone(),
                    title: requested,
                    is_loading: false,
                    history,
                    history_index: 0,
                };
                proof {
                    assert(tab@.history =~= seq![n@]);
                }
                self.tabs.push(tab);
                proof {
                    assert(tabs_view(self.tabs@) =~= old(self)@.tabs.push(tab@));
                }
                self.status_message = message("Opened link in new tab");
                cmds.push(ShellCommand::Redraw);
            },
        }
        proof {
            assert(commands_view(cmds@) =~= event_handled(old(self)@, event_view(event)).1);
        }
        cmds
    }
    /// Handles a key press.
    pub fn key_pressed(&mut self, key: Key, mods: crate::gui::Modifiers) -> (r: Vec<ShellCommand>)
        requires
            shell_wf(old(self)@),
        ensures
            (final(self)@, commands_view(r@)) == shell_key(old(self)@, key_view(key), mods),
            shell_wf(final(self)@),
    {
        let mut cmds: Vec<ShellCommand> = Vec::new();
        if key_is(&key, 'l') && mods.command {
            self.set_focus(true);
            let source = self.tabs[self.active_tab].source.clone();
            proof {
                assert(active(old(self)@).source == source@);
            }
            self.address.set_text(source.as_str());
            self.address.select_all();
            self.status_message = message("Editing address");
            cmds.push(ShellCommand::Redraw);
            proof {
                assert(commands_view(cmds@) =~= seq![CommandModel::Redraw]);
            }
            return cmds;
        }
        if key_is(&key, 't') && mods.command {
            return self.open_new_tab();
        }
        if key_is(&key, 'w') && mods.command {
            let current = self.active_tab;
            return self.close_tab(current);
        }
        if self.address_focus {
            if mods.command && key_is(&key, 'a') {
                self.address.select_all();
                self.status_message = message("Address selected");
                cmds.push(ShellCommand::Redraw);
            } else if mods.command && key_is(&key, 'c') {
                cmds.push(ShellCommand::Copy(self.address.clipboard_text()));
                cmds.push(ShellCommand::Redraw);
            } else if mods.command && key_is(&key, 'x') {
                let copied = self.address.cut();
                cmds.push(ShellCommand::Cut(copied));
                cmds.push(ShellCommand::Redraw);
            } else if mods.command && key_is(&key, 'v') {
                cmds.push(ShellCommand::Paste);
                cmds.push(ShellCommand::Redraw);
            } else {
                match key {
                    Key::Enter => {
                        let text = self.address.text();
                        let t = trimmed(text.as_str());
                        if !t.as_str().is_empty() {
                            cmds.push(ShellCommand::Navigate(t));
                        }
                    },
                    Key::Escape => {
                        self.set_focus(false);
                        let source = self.tabs[self.active_tab].source.clone();
                        proof {
                            assert(active(old(self)@).source == source@);
                        }
                        self.address.set_text(source.as_str());
                        self.status_message = message("Address edit cancelled");
                        cmds.push(ShellCommand::FocusPage);
                        cmds.push(ShellCommand::Redraw);
                    },
                    _ => {
                        if crate::gui::edit_address(&mut self.address, &key, mods) {
                            cmds.push(ShellCommand::Redraw);
                        }
                    },
                }
            }
            proof {
                assert(commands_view(cmds@) =~= shell_key(old(self)@, key_view(key), mods).1);
            }
            return cmds;
        }
        if key_is(&key, 'r') && mods.command {
            return self.reload();
        }
        match key {
            Key::ArrowLeft => {
                if mods.alt {
                    return self.history_back();
                }
            },
            Key::ArrowRight => {
                if mods.alt {
                    return self.history_forward();
                }
            },
            _ => {},
        }
        proof {
            assert(commands_view(cmds@) =~= cmds0());
        }
        cmds
    }

    /// Handles a click.
    pub fn primary_click(&mut self, target: ClickTarget) -> (r: Vec<ShellCommand>)
        requires
            shell_wf(old(self)@),
            target matches ClickTarget::AddressBar(caret) ==> caret <= old(self)@.editor.text.len(),
        ensures
            (final(self)@, commands_view(r@)) == clicked(old(self)@, target),
            shell_wf(final(self)@),
    {
        let mut cmds: Vec<ShellCommand> = Vec::new();
        match target {
            ClickTarget::NewTab => {
                return self.open_new_tab();
            },
            ClickTarget::CloseTab(i) => {
                return self.close_tab(i);
            },
            ClickTarget::Tab(i) => {
                return self.switch_to_tab(i);
            },
            ClickTarget::Back => {
                return self.history_back();
            },
            ClickTarget::Forward => {
                return self.history_forward();
            },
            ClickTarget::Reload => {
                return self.reload();
            },
            ClickTarget::AddressBar(caret) => {
                self.set_focus(true);
                self.address.place_cursor(caret);
                self.address_drag_active = true;
                self.status_message = message("Editing address");
                cmds.push(ShellCommand::Redraw);
            },
            ClickTarget::Page => {
                if self.address_focus {
                    self.set_focus(false);
                    self.status_message = message("Address bar unfocused");
                }
                cmds.push(ShellCommand::FocusPage);
                cmds.push(ShellCommand::Redraw);
            },
        }
        proof {
            assert(commands_view(cmds@) =~= clicked(old(self)@, target).1);
        }
        cmds
    }

    /// The pointer moved to the character index `caret` of the address: a
    /// drag in the focused bar selects from where it started.
    pub fn pointer_moved(&mut self, caret: usize) -> (r: Vec<ShellCommand>)
        requires
            shell_wf(old(self)@),
            caret <= old(self)@.editor.text.len(),
        ensures
            shell_wf(final(self)@),
            if old(self)@.focus && old(self)@.drag {
                final(self)@ == ShellModel { editor: crate::address::dragged(old(self)@.editor, caret as nat), ..old(self)@ }
                    && commands_view(r@) == seq![CommandModel::Redraw]
            } else {
                final(self)@ == old(self)@ && r@.len() == 0
            },
    {
        let mut cmds: Vec<ShellCommand> = Vec::new();
        if self.address_focus && self.address_drag_active {
            self.address.drag_to(caret);
            cmds.push(ShellCommand::Redraw);
            proof {
                assert(commands_view(cmds@) =~= seq![CommandModel::Redraw]);
            }
        }
        cmds
    }

    /// The button was released: a drag ends.
    pub fn pointer_released(&mut self)
        ensures
            final(self)@ == (ShellModel { drag: false, ..old(self)@ }),
    {
        self.address_drag_active = false;
    }

    /// IME text committed: typed into the focused address bar.
    pub fn ime_commit(&mut self, text: &str) -> (r: Vec<ShellCommand>)
        requires
            shell_wf(old(self)@),
        ensures
            shell_wf(final(self)@),
            if old(self)@.focus {
                final(self)@ == ShellModel {
                    editor: replaced(old(self)@.editor, text@),
                    preedit: Seq::empty(),
                    ..old(self)@
                } && commands_view(r@) == seq![CommandModel::Redraw]
            } else {
                final(self)@ == old(self)@ && r@.len() == 0
            },
    {
        let mut cmds: Vec<ShellCommand> = Vec::new();
        if self.address_focus {
            self.address.insert_text(text);
            self.preedit_text = String::new();
            cmds.push(ShellCommand::Redraw);
            proof {
                assert(commands_view(cmds@) =~= seq![CommandModel::Redraw]);
            }
        }
        cmds
    }

    /// IME text being composed: shown in the focused address bar.
    pub fn ime_preedit(&mut self, text: String) -> (r: Vec<ShellCommand>)
        ensures
            if old(self)@.focus {
                final(self)@ == ShellModel { preedit: text@, ..old(self)@ } && commands_view(r@) == seq![CommandModel::Redraw]
            } else {
                final(self)@ == old(self)@ && r@.len() == 0
            },
    {
        let mut cmds: Vec<ShellCommand> = Vec::new();
        if self.address_focus {
            self.preedit_text = text;
            cmds.push(ShellCommand::Redraw);
            proof {
                assert(commands_view(cmds@) =~= seq![CommandModel::Redraw]);
            }
        }
        cmds
    }

    /// The clipboard was written (for a copy or, with `cut`, a cut): the
    /// status says so, or gives the error.
    pub fn clipboard_written(&mut self, result: Result<(), String>, cut: bool)
        ensures
            final(self)@ == status(
                old(self)@,
                match result {
                    Ok(()) => if cut {
                        "Address cut"@
                    } else {
                        "Address copied"@
                    },
                    Err(e) => e@,
                },
            ),
    {
        self.status_message = match result {
            Ok(()) => if cut {
                message("Address cut")
            } else {
                message("Address copied")
            },
            Err(e) => Some(e),
        };
    }

    /// The clipboard was read: its text is pasted into the address bar, or
    /// the status gives the error.
    pub fn paste_clipboard(&mut self, result: Result<String, String>)
        requires
            shell_wf(old(self)@),
        ensures
            final(self)@ == match result {
                Ok(t) => status(
                    ShellModel {
                        editor: if crate::text::collapse_ws(t@).len() == 0 {
                            old(self)@.editor
                        } else {
                            replaced(old(self)@.editor, crate::text::collapse_ws(t@))
                        },
                        ..old(self)@
                    },
                    "Address pasted"@,
                ),
                Err(e) => status(old(self)@, e@),
            },
            shell_wf(final(self)@),
    {
        match result {
            Ok(t) => {
                self.address.paste(t.as_str());
                self.status_message = message("Address pasted");
            },
            Err(e) => {
                self.status_message = Some(e);
            },
        }
    }
}

/// The height of the WebView shell's toolbar, in logical pixels.
pub const SHELL_CHROME_HEIGHT: u32 = 96;

/// Where the page engine's view sits in a window of `width` by `height`
/// logical pixels, as (x, y, width, height): below the toolbar, across the
/// window, each side at least one pixel.
pub fn webview_bounds(width: u32, height: u32) -> (r: (u32, u32, u32, u32))
    ensures
        r == (
            0u32,
            SHELL_CHROME_HEIGHT,
            if width >= 1 {
                width
            } else {
                1
            },
            if height > SHELL_CHROME_HEIGHT + 1 {
                (height - SHELL_CHROME_HEIGHT) as u32
            } else {
                1
            },
        ),
{
    let content_height = height.saturating_sub(SHELL_CHROME_HEIGHT);
    (0, SHELL_CHROME_HEIGHT, if width >= 1 {
        width
    } else {
        1
    }, if content_height >= 1 {
        content_height
    } else {
        1
    })
}

} // verus!

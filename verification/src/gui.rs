//! What the toy browser window does with its input: key presses, clicks,
//! drags, the wheel and IME text change the address bar, the scroll offset
//! and the page being shown. The window, the clipboard and page loading
//! belong to the application: it performs the effect that an event asks
//! for and reports the outcome back.
use vstd::prelude::*;
use crate::address::{
    all_selected, deleted_backward, deleted_forward, editor_wf, moved, replaced, AddressEditor,
    EditorModel,
};
use crate::source::{resolve_reference, resolve_spec};
use crate::text::{chars_of, collapse_ws, lower_seq, trim, trimmed};
use crate::viewport::{apply_scroll_delta, clamp_scroll, max_scroll, scrolled};

verus! {

/// A key as the window reports it.
pub enum Key {
    Character(String),
    Enter,
    Escape,
    Backspace,
    Delete,
    ArrowLeft,
    ArrowRight,
    ArrowUp,
    ArrowDown,
    Home,
    End,
    PageUp,
    PageDown,
    Other,
}

/// The modifier keys held: `command` is Control or Super.
#[derive(Clone, Copy)]
pub struct Modifiers {
    pub command: bool,
    pub shift: bool,
    pub alt: bool,
}

/// What the application must do after an event.
#[derive(Debug, PartialEq, Eq)]
pub enum GuiEffect {
    Nothing,
    Redraw,
    /// Load this page, then report with `page_loaded` or `page_failed`.
    Navigate(String),
    /// Put this text on the clipboard, then report with `clipboard_written`.
    Copy(String),
    /// Put this cut text on the clipboard, then report with
    /// `clipboard_written`.
    Cut(String),
    /// Read the clipboard and hand the result to `paste_clipboard`.
    Paste,
}

pub enum EffectModel {
    Nothing,
    Redraw,
    Navigate(Seq<char>),
    Copy(Seq<char>),
    Cut(Seq<char>),
    Paste,
}

pub open spec fn effect_view(e: GuiEffect) -> EffectModel {
    match e {
        GuiEffect::Nothing => EffectModel::Nothing,
        GuiEffect::Redraw => EffectModel::Redraw,
        GuiEffect::Navigate(s) => EffectModel::Navigate(s@),
        GuiEffect::Copy(s) => EffectModel::Copy(s@),
        GuiEffect::Cut(s) => EffectModel::Cut(s@),
        GuiEffect::Paste => EffectModel::Paste,
    }
}

/// The window's state apart from the page itself.
pub struct GuiState {
    pub current_source: String,
    pub title: String,
    pub address: AddressEditor,
    pub address_focus: bool,
    pub address_drag_active: bool,
    pub preedit_text: String,
    pub status_message: Option<String>,
    pub scroll_y: u32,
}

pub struct GuiModel {
    pub current_source: Seq<char>,
    pub title: Seq<char>,
    pub editor: EditorModel,
    pub focus: bool,
    pub drag: bool,
    pub preedit: Seq<char>,
    pub status: Option<Seq<char>>,
    pub scroll: u32,
}

impl View for GuiState {
    type V = GuiModel;

    open spec fn view(&self) -> GuiModel {
        GuiModel {
            current_source: self.current_source@,
            title: self.title@,
            editor: self.address@,
            focus: self.address_focus,
            drag: self.address_drag_active,
            preedit: self.preedit_text@,
            status: crate::css::opt_view(self.status_message),
            scroll: self.scroll_y,
        }
    }
}

pub enum KeyModel {
    Character(Seq<char>),
    Enter,
    Escape,
    Backspace,
    Delete,
    ArrowLeft,
    ArrowRight,
    ArrowUp,
    ArrowDown,
    Home,
    End,
    PageUp,
    PageDown,
    Other,
}

pub open spec fn key_view(k: Key) -> KeyModel {
    match k {
        Key::Character(t) => KeyModel::Character(t@),
        Key::Enter => KeyModel::Enter,
        Key::Escape => KeyModel::Escape,
        Key::Backspace => KeyModel::Backspace,
        Key::Delete => KeyModel::Delete,
        Key::ArrowLeft => KeyModel::ArrowLeft,
        Key::ArrowRight => KeyModel::ArrowRight,
        Key::ArrowUp => KeyModel::ArrowUp,
        Key::ArrowDown => KeyModel::ArrowDown,
        Key::Home => KeyModel::Home,
        Key::End => KeyModel::End,
        Key::PageUp => KeyModel::PageUp,
        Key::PageDown => KeyModel::PageDown,
        Key::Other => KeyModel::Other,
    }
}

/// A typed letter, in either case.
pub open spec fn is_letter(k: KeyModel, letter: char) -> bool {
    k matches KeyModel::Character(t) && lower_seq(t) == seq![letter]
}

/// The editor showing `text` with the caret at its end.
pub open spec fn showing(text: Seq<char>) -> EditorModel {
    EditorModel { text, cursor: text.len(), anchor: None }
}

/// The address bar losing focus: no selection, no drag, no IME text.
pub open spec fn unfocused(g: GuiModel) -> GuiModel {
    GuiModel {
        focus: false,
        drag: false,
        preedit: Seq::empty(),
        editor: EditorModel { anchor: None, ..g.editor },
        ..g
    }
}

/// The address bar taking focus: no IME text.
pub open spec fn focused(g: GuiModel) -> GuiModel {
    GuiModel { focus: true, preedit: Seq::empty(), ..g }
}

pub open spec fn with_status(g: GuiModel, msg: Seq<char>) -> GuiModel {
    GuiModel { status: Some(msg), ..g }
}

/// The shortcut letters of the address bar: select all, copy, cut, paste.
pub open spec fn address_shortcut(g: GuiModel, k: KeyModel) -> Option<(GuiModel, EffectModel)> {
    if is_letter(k, 'a') {
        Some(
            (
                with_status(GuiModel { editor: all_selected(g.editor), ..g }, "Address selected"@),
                EffectModel::Redraw,
            ),
        )
    } else if is_letter(k, 'c') {
        Some((g, EffectModel::Copy(copied_text(g.editor))))
    } else if is_letter(k, 'x') {
        let e = if crate::address::selection(g.editor) is Some {
            replaced(g.editor, Seq::empty())
        } else {
            g.editor
        };
        Some((GuiModel { editor: e, ..g }, EffectModel::Cut(copied_text(g.editor))))
    } else if is_letter(k, 'v') {
        Some((g, EffectModel::Paste))
    } else {
        None
    }
}

/// What copying takes: the selection, or the whole address.
pub open spec fn copied_text(e: EditorModel) -> Seq<char> {
    match crate::address::selection(e) {
        Some((a, b)) => crate::address::slice_chars(e.text, a, b),
        None => e.text,
    }
}

/// What an editing key does to the address: Backspace and Delete remove,
/// the arrows, Home and End move the caret (Shift extends the selection),
/// and typed text (without Command) is inserted; other keys edit nothing.
pub open spec fn edited(e: EditorModel, k: KeyModel, m: Modifiers) -> Option<EditorModel> {
    match k {
        KeyModel::Backspace => Some(deleted_backward(e)),
        KeyModel::Delete => Some(deleted_forward(e)),
        KeyModel::ArrowLeft => Some(
            moved(
                e,
                if e.cursor > 0 {
                    (e.cursor - 1) as nat
                } else {
                    0
                },
                m.shift,
            ),
        ),
        KeyModel::ArrowRight => Some(moved(e, e.cursor + 1, m.shift)),
        KeyModel::Home => Some(moved(e, 0, m.shift)),
        KeyModel::End => Some(moved(e, e.text.len(), m.shift)),
        KeyModel::Character(t) => if !m.command {
            Some(replaced(e, t))
        } else {
            None
        },
        _ => None,
    }
}

/// A key pressed while the address bar has focus (other than the
/// shortcuts): Enter loads the trimmed address, Escape gives up the edit,
/// editing keys edit.
pub open spec fn address_key(g: GuiModel, k: KeyModel, m: Modifiers) -> (GuiModel, EffectModel) {
    let e = g.editor;
    match k {
        KeyModel::Enter => {
            let t = trim(e.text);
            if t.len() > 0 {
                (g, EffectModel::Navigate(t))
            } else {
                (g, EffectModel::Nothing)
            }
        },
        KeyModel::Escape => (
            with_status(
                GuiModel { editor: showing(g.current_source), ..unfocused(g) },
                "Address edit cancelled"@,
            ),
            EffectModel::Redraw,
        ),
        _ => match edited(e, k, m) {
            Some(e2) => (GuiModel { editor: e2, ..g }, EffectModel::Redraw),
            None => (g, EffectModel::Nothing),
        },
    }
}

/// A key pressed while the page has focus: scrolling, and `r` to reload.
pub open spec fn page_key(g: GuiModel, k: KeyModel, content_height: u32, view_height: u32) -> (GuiModel, EffectModel) {
    let step: int = view_height - 8;
    let to = |s: u32| (GuiModel { scroll: s, ..g }, EffectModel::Redraw);
    match k {
        KeyModel::ArrowDown => to(scrolled(g.scroll, 24, content_height, view_height)),
        KeyModel::ArrowUp => to(scrolled(g.scroll, -24i32, content_height, view_height)),
        KeyModel::PageDown => to(scrolled(g.scroll, step as i32, content_height, view_height)),
        KeyModel::PageUp => to(scrolled(g.scroll, (-step) as i32, content_height, view_height)),
        KeyModel::Home => to(0),
        KeyModel::End => to(max_scroll(content_height, view_height)),
        _ => if is_letter(k, 'r') {
            (g, EffectModel::Navigate(g.current_source))
        } else {
            (g, EffectModel::Nothing)
        },
    }
}

/// A key press: Command+L edits the address of the current page; with the
/// address bar focused, its shortcuts and editing keys; otherwise the page
/// keys.
pub open spec fn key_pressed(g: GuiModel, k: KeyModel, m: Modifiers, content_height: u32, view_height: u32) -> (GuiModel, EffectModel) {
    if is_letter(k, 'l') && m.command {
        (
            with_status(
                GuiModel { editor: all_selected(showing(g.current_source)), ..focused(g) },
                "Editing address"@,
            ),
            EffectModel::Redraw,
        )
    } else if g.focus {
        match (if m.command {
            address_shortcut(g, k)
        } else {
            None
        }) {
            Some(r) => r,
            None => address_key(g, k, m),
        }
    } else {
        page_key(g, k, content_height, view_height)
    }
}

pub open spec fn gui_wf(g: GuiModel) -> bool {
    editor_wf(g.editor)
}

/// Whether the typed text is `letter` in either case.
pub(crate) fn is_letter_text(t: &str, letter: char) -> (r: bool)
    ensures
        r == (lower_seq(t@) == seq![letter]),
{
    let v = chars_of(t);
    if v.len() != 1 {
        proof {
            assert(lower_seq(t@).len() != 1);
        }
        return false;
    }
    let c = crate::text::to_lower(v[0]);
    proof {
        if c == letter {
            assert(lower_seq(t@) =~= seq![letter]);
        } else {
            assert(lower_seq(t@)[0] != seq![letter][0]);
        }
    }
    c == letter
}

fn key_letter(k: &Key, letter: char) -> (r: bool)
    ensures
        r == is_letter(key_view(*k), letter),
{
    match k {
        Key::Character(t) => is_letter_text(t.as_str(), letter),
        _ => false,
    }
}

/// Applies an editing key to the address; says whether the key edits.
pub fn edit_address(address: &mut AddressEditor, key: &Key, mods: Modifiers) -> (r: bool)
    requires
        editor_wf(old(address)@),
    ensures
        editor_wf(final(address)@),
        match edited(old(address)@, key_view(*key), mods) {
            Some(e) => r && final(address)@ == e,
            None => !r && final(address)@ == old(address)@,
        },
{
    match key {
        Key::Backspace => {
            address.delete_backward();
            true
        },
        Key::Delete => {
            address.delete_forward();
            true
        },
        Key::ArrowLeft => {
            let next = address.cursor().saturating_sub(1);
            address.move_cursor(next, mods.shift);
            true
        },
        Key::ArrowRight => {
            let count = address.char_count();
            let next = if address.cursor() < count {
                address.cursor() + 1
            } else {
                count
            };
            address.move_cursor(next, mods.shift);
            true
        },
        Key::Home => {
            address.move_cursor(0, mods.shift);
            true
        },
        Key::End => {
            let n = address.char_count();
            address.move_cursor(n, mods.shift);
            true
        },
        Key::Character(t) => {
            if !mods.command {
                address.insert_text(t.as_str());
                true
            } else {
                false
            }
        },
        _ => false,
    }
}

fn message(lit: &str) -> (r: Option<String>)
    ensures
        crate::css::opt_view(r) == Some(lit@),
{
    Some(String::from_str(lit))
}

impl GuiState {
    /// The window's state when it opens on `initial_source`.
    pub fn new(initial_source: &str) -> (r: GuiState)
        ensures
            r@ == (GuiModel {
                current_source: initial_source@,
                title: initial_source@,
                editor: showing(initial_source@),
                focus: false,
                drag: false,
                preedit: Seq::empty(),
                status: Some("Click or Cmd/Ctrl+L to edit address, Enter to load"@),
                scroll: 0,
            }),
            gui_wf(r@),
    {
        GuiState {
            current_source: String::from_str(initial_source),
            title: String::from_str(initial_source),
            address: AddressEditor::new(initial_source),
            address_focus: false,
            address_drag_active: false,
            preedit_text: String::new(),
            status_message: message("Click or Cmd/Ctrl+L to edit address, Enter to load"),
            scroll_y: 0,
        }
    }

    fn unfocus(&mut self)
        ensures
            final(self)@ == unfocused(old(self)@),
            editor_wf(old(self)@.editor) ==> editor_wf(final(self)@.editor),
    {
        self.address_focus = false;
        self.address.clear_selection();
        self.address_drag_active = false;
        self.preedit_text = String::new();
    }

    fn focus(&mut self)
        ensures
            final(self)@ == focused(old(self)@),
    {
        self.address_focus = true;
        self.preedit_text = String::new();
    }

    /// Handles a key press; `content_height` and `view_height` are the
    /// page's and the viewport's heights in page pixels.
    pub fn key_pressed(&mut self, key: Key, mods: Modifiers, content_height: u32, view_height: u32) -> (r: GuiEffect)
        requires
            gui_wf(old(self)@),
            view_height <= i32::MAX,
        ensures
            (final(self)@, effect_view(r)) == key_pressed(
                old(self)@,
                key_view(key),
                mods,
                content_height,
                view_height,
            ),
            gui_wf(final(self)@),
    {
        if key_letter(&key, 'l') && mods.command {
            self.focus();
            let source = self.current_source.clone();
            self.address.set_text(source.as_str());
            self.address.select_all();
            self.status_message = message("Editing address");
            return GuiEffect::Redraw;
        }
        if self.address_focus {
            if mods.command {
                if key_letter(&key, 'a') {
                    self.address.select_all();
                    self.status_message = message("Address selected");
                    return GuiEffect::Redraw;
                } else if key_letter(&key, 'c') {
                    return GuiEffect::Copy(self.address.clipboard_text());
                } else if key_letter(&key, 'x') {
                    let copied = self.address.cut();
                    return GuiEffect::Cut(copied);
                } else if key_letter(&key, 'v') {
                    return GuiEffect::Paste;
                }
            }
            match key {
                Key::Enter => {
                    let text = self.address.text();
                    let t = trimmed(text.as_str());
                    if t.as_str().is_empty() {
                        GuiEffect::Nothing
                    } else {
                        GuiEffect::Navigate(t)
                    }
                },
                Key::Escape => {
                    self.unfocus();
                    let source = self.current_source.clone();
                    self.address.set_text(source.as_str());
                    self.status_message = message("Address edit cancelled");
                    GuiEffect::Redraw
                },
                _ => {
                    if edit_address(&mut self.address, &key, mods) {
                        GuiEffect::Redraw
                    } else {
                        GuiEffect::Nothing
                    }
                },
            }
        } else {
            let step: i32 = view_height as i32 - 8;
            match key {
                Key::ArrowDown => {
                    self.scroll_y = apply_scroll_delta(self.scroll_y, 24, content_height, view_height);
                    GuiEffect::Redraw
                },
                Key::ArrowUp => {
                    self.scroll_y = apply_scroll_delta(self.scroll_y, -24, content_height, view_height);
                    GuiEffect::Redraw
                },
                Key::PageDown => {
                    self.scroll_y = apply_scroll_delta(self.scroll_y, step, content_height, view_height);
                    GuiEffect::Redraw
                },
                Key::PageUp => {
                    self.scroll_y = apply_scroll_delta(self.scroll_y, -step, content_height, view_height);
                    GuiEffect::Redraw
                },
                Key::Home => {
                    self.scroll_y = 0;
                    GuiEffect::Redraw
                },
                Key::End => {
                    self.scroll_y = clamp_scroll(u32::MAX, content_height, view_height);
                    GuiEffect::Redraw
                },
                Key::Character(t) => {
                    if is_letter_text(t.as_str(), 'r') {
                        GuiEffect::Navigate(self.current_source.clone())
                    } else {
                        GuiEffect::Nothing
                    }
                },
                _ => GuiEffect::Nothing,
            }
        }
    }
    /// The clipboard was written (for a copy or, with `cut`, a cut): the
    /// status says so, or gives the error.
    pub fn clipboard_written(&mut self, result: Result<(), String>, cut: bool)
        ensures
            final(self)@ == with_status(
                old(self)@,
                match result {
                    Ok(()) => if cut {
                        "Address cut"@
                    } else {
                        "Address copied"@
                    },
                    Err(e) => e@,
                },
            ),
    {
        self.status_message = match result {
            Ok(()) => if cut {
                message("Address cut")
            } else {
                message("Address copied")
            },
            Err(e) => Some(e),
        };
    }

    /// The clipboard was read: its text is pasted into the address bar, or
    /// the status gives the error.
    pub fn paste_clipboard(&mut self, result: Result<String, String>)
        requires
            gui_wf(old(self)@),
        ensures
            final(self)@ == match result {
                Ok(t) => with_status(
                    GuiModel {
                        editor: if collapse_ws(t@).len() == 0 {
                            old(self)@.editor
                        } else {
                            replaced(old(self)@.editor, collapse_ws(t@))
                        },
                        ..old(self)@
                    },
                    "Address pasted"@,
                ),
                Err(e) => with_status(old(self)@, e@),
            },
            gui_wf(final(self)@),
    {
        match result {
            Ok(t) => {
                self.address.paste(t.as_str());
                self.status_message = message("Address pasted");
            },
            Err(e) => {
                self.status_message = Some(e);
            },
        }
    }

    /// The page at `source` was loaded: it becomes the current page, shown
    /// from the top, and the address bar shows it without focus.
    pub fn page_loaded(&mut self, source: &str)
        ensures
            final(self)@ == with_status(
                GuiModel {
                    current_source: source@,
                    title: source@,
                    editor: showing(source@),
                    scroll: 0,
                    ..unfocused(old(self)@)
                },
                "Page loaded"@,
            ),
            gui_wf(final(self)@),
    {
        self.current_source = String::from_str(source);
        self.address.set_text(source);
        self.title = String::from_str(source);
        self.scroll_y = 0;
        self.status_message = message("Page loaded");
        self.unfocus();
    }

    /// Loading a page failed: the status gives the error.
    pub fn page_failed(&mut self, error: String)
        ensures
            final(self)@ == with_status(old(self)@, error@),
    {
        self.status_message = Some(error);
    }

    /// A click: in the address bar it focuses the bar and puts the caret at
    /// `caret` (ready to drag); on a link (`link`, its target) it follows
    /// the link from the current page; elsewhere it unfocuses the bar.
    pub fn primary_click(&mut self, on_address_bar: bool, caret: usize, link: Option<String>) -> (r: GuiEffect)
        requires
            gui_wf(old(self)@),
            on_address_bar ==> caret <= old(self)@.editor.text.len(),
        ensures
            gui_wf(final(self)@),
            on_address_bar ==> final(self)@ == with_status(
                GuiModel {
                    editor: EditorModel { cursor: caret as nat, anchor: None, ..old(self)@.editor },
                    drag: true,
                    ..focused(old(self)@)
                },
                "Editing address"@,
            ) && r == GuiEffect::Redraw,
            !on_address_bar && link is Some ==> final(self)@ == old(self)@ && effect_view(r)
                == EffectModel::Navigate(resolve_spec(old(self)@.current_source, link->0@)),
            !on_address_bar && link is None && old(self)@.focus ==> final(self)@ == with_status(
                unfocused(old(self)@),
                "Address bar unfocused"@,
            ) && r == GuiEffect::Redraw,
            !on_address_bar && link is None && !old(self)@.focus ==> final(self)@ == old(self)@ && r
                == GuiEffect::Redraw,
    {
        if on_address_bar {
            self.focus();
            self.address.place_cursor(caret);
            self.address_drag_active = true;
            self.status_message = message("Editing address");
            return GuiEffect::Redraw;
        }
        match link {
            Some(target) => {
                return GuiEffect::Navigate(resolve_reference(self.current_source.as_str(), target.as_str()));
            },
            None => {},
        }
        if self.address_focus {
            self.unfocus();
            self.status_message = message("Address bar unfocused");
        }
        GuiEffect::Redraw
    }

    /// The pointer moved to the character index `caret` of the address: a
    /// drag in the focused bar selects from where it started.
    pub fn pointer_moved(&mut self, caret: usize) -> (r: GuiEffect)
        requires
            gui_wf(old(self)@),
            caret <= old(self)@.editor.text.len(),
        ensures
            gui_wf(final(self)@),
            if old(self)@.focus && old(self)@.drag {
                final(self)@ == GuiModel { editor: crate::address::dragged(old(self)@.editor, caret as nat), ..old(self)@ }
                    && r == GuiEffect::Redraw
            } else {
                final(self)@ == old(self)@ && r == GuiEffect::Nothing
            },
    {
        if !self.address_focus || !self.address_drag_active {
            return GuiEffect::Nothing;
        }
        self.address.drag_to(caret);
        GuiEffect::Redraw
    }

    /// The button was released: a drag ends.
    pub fn pointer_released(&mut self)
        ensures
            final(self)@ == (GuiModel { drag: false, ..old(self)@ }),
    {
        self.address_drag_active = false;
    }

    /// IME text committed: typed into the focused address bar.
    pub fn ime_commit(&mut self, text: &str) -> (r: GuiEffect)
        requires
            gui_wf(old(self)@),
        ensures
            gui_wf(final(self)@),
            if old(self)@.focus {
                final(self)@ == GuiModel {
                    editor: replaced(old(self)@.editor, text@),
                    preedit: Seq::empty(),
                    ..old(self)@
                } && r == GuiEffect::Redraw
            } else {
                final(self)@ == old(self)@ && r == GuiEffect::Nothing
            },
    {
        if !self.address_focus {
            return GuiEffect::Nothing;
        }
        self.address.insert_text(text);
        self.preedit_text = String::new();
        GuiEffect::Redraw
    }

    /// IME text being composed: shown in the focused address bar.
    pub fn ime_preedit(&mut self, text: String) -> (r: GuiEffect)
        ensures
            if old(self)@.focus {
                final(self)@ == GuiModel { preedit: text@, ..old(self)@ } && r == GuiEffect::Redraw
            } else {
                final(self)@ == old(self)@ && r == GuiEffect::Nothing
            },
    {
        if !self.address_focus {
            return GuiEffect::Nothing;
        }
        self.preedit_text = text;
        GuiEffect::Redraw
    }

    /// The wheel scrolled the page by `delta` page pixels (ignored while the
    /// address bar has focus).
    pub fn wheel(&mut self, delta: i32, content_height: u32, view_height: u32) -> (r: GuiEffect)
        ensures
            if old(self)@.focus {
                final(self)@ == old(self)@ && r == GuiEffect::Nothing
            } else {
                final(self)@ == GuiModel {
                    scroll: scrolled(old(self)@.scroll, delta, content_height, view_height),
                    ..old(self)@
                } && r == GuiEffect::Redraw
            },
    {
        if self.address_focus {
            return GuiEffect::Nothing;
        }
        self.scroll_y = apply_scroll_delta(self.scroll_y, delta, content_height, view_height);
        GuiEffect::Redraw
    }

    /// The page was laid out again: the scroll offset stays within it.
    pub fn relayout(&mut self, content_height: u32, view_height: u32)
        ensures
            final(self)@ == (GuiModel {
                scroll: crate::viewport::min_u32(old(self)@.scroll, max_scroll(content_height, view_height)),
                ..old(self)@
            }),
    {
        self.scroll_y = clamp_scroll(self.scroll_y, content_height, view_height);
    }
}

} // verus!

//! The address bar's text editing: a text, a caret and an optional
//! selection anchor, all counted in characters.
use vstd::prelude::*;
use crate::text::{chars_of, collapse_whitespace, collapse_ws, string_from, string_of};

verus! {

/// The number of bytes that UTF-8 spends on one character.
pub open spec fn utf8_width(c: char) -> nat {
    let v = c as u32;
    if v < 0x80 {
        1
    } else if v < 0x800 {
        2
    } else if v < 0x10000 {
        3
    } else {
        4
    }
}

/// The length in bytes of a text's UTF-8 encoding.
pub open spec fn utf8_len(s: Seq<char>) -> nat
    decreases s.len(),
{
    if s.len() == 0 {
        0
    } else {
        utf8_len(s.drop_last()) + utf8_width(s.last())
    }
}

/// `i`, or `n` where `i` is past it.
pub open spec fn clip(i: nat, n: nat) -> nat {
    if i <= n {
        i
    } else {
        n
    }
}

/// The characters of `s` from index `start` to index `end`, each index
/// clipped to the text's length.
pub open spec fn slice_chars(s: Seq<char>, start: nat, end: nat) -> Seq<char> {
    s.subrange(clip(start, s.len()) as int, clip(end, s.len()) as int)
}

/// `s` with the characters from `start` to `end` (clipped as above)
/// replaced by `ins`.
pub open spec fn splice(s: Seq<char>, start: nat, end: nat, ins: Seq<char>) -> Seq<char> {
    s.take(clip(start, s.len()) as int) + ins + s.skip(clip(end, s.len()) as int)
}

/// Prefixes of a text never take more bytes than the text.
pub proof fn lemma_utf8_len_prefix(s: Seq<char>, k: int)
    requires
        0 <= k <= s.len(),
    ensures
        utf8_len(s.take(k)) <= utf8_len(s),
    decreases s.len() - k,
{
    if k < s.len() {
        lemma_utf8_len_prefix(s, k + 1);
        assert(s.take(k + 1).drop_last() =~= s.take(k));
    } else {
        assert(s.take(k) =~= s);
    }
}

/// Calls `str::len`: the length in bytes of the text's UTF-8 encoding.
#[verifier::external_body]
fn byte_len(s: &str) -> (r: usize)
    ensures
        r == utf8_len(s@),
{
    s.len()
}

fn char_width(c: char) -> (r: usize)
    ensures
        r == utf8_width(c),
{
    let v = c as u32;
    if v < 0x80 {
        1
    } else if v < 0x800 {
        2
    } else if v < 0x10000 {
        3
    } else {
        4
    }
}

/// The byte offset of the character at `char_index`, or the text's byte
/// length when there is no such character.
pub fn address_byte_index(text: &str, char_index: usize) -> (r: usize)
    ensures
        r == utf8_len(text@.take(clip(char_index as nat, text@.len()) as int)),
{
    let total = byte_len(text);
    let v = chars_of(text);
    let n = if char_index <= v.len() {
        char_index
    } else {
        v.len()
    };
    let mut i: usize = 0;
    let mut bytes: usize = 0;
    while i < n
        invariant
            i <= n <= v.len(),
            v@ == text@,
            n == clip(char_index as nat, text@.len()),
            bytes == utf8_len(v@.take(i as int)),
            total == utf8_len(v@),
        decreases n - i,
    {
        proof {
            lemma_utf8_len_prefix(v@, i + 1);
            assert(v@.take(i + 1).drop_last() =~= v@.take(i as int));
        }
        bytes = bytes + char_width(v[i]);
        i = i + 1;
    }
    bytes
}

/// The characters from `start` to `end`, each index clipped to the text.
pub fn address_slice(text: &str, start: usize, end: usize) -> (r: String)
    requires
        clip(start as nat, text@.len()) <= clip(end as nat, text@.len()),
    ensures
        r@ == slice_chars(text@, start as nat, end as nat),
{
    let v = chars_of(text);
    let s = if start <= v.len() {
        start
    } else {
        v.len()
    };
    let e = if end <= v.len() {
        end
    } else {
        v.len()
    };
    string_of(&v, s, e)
}

/// Pasted text with its whitespace collapsed: its words joined by single
/// spaces.
pub fn sanitize_clipboard_text(text: &str) -> (r: String)
    ensures
        r@ == collapse_ws(text@),
{
    collapse_whitespace(text)
}

/// What the editor holds: the text, the caret and the selection anchor.
pub struct EditorModel {
    pub text: Seq<char>,
    pub cursor: nat,
    pub anchor: Option<nat>,
}

/// The address bar's text with a caret and, while a selection is being
/// made, the index where it started. Indices count characters.
pub struct AddressEditor {
    text: Vec<char>,
    cursor: usize,
    anchor: Option<usize>,
}

pub open spec fn opt_nat(o: Option<usize>) -> Option<nat> {
    match o {
        Some(a) => Some(a as nat),
        None => None,
    }
}

impl View for AddressEditor {
    type V = EditorModel;

    closed spec fn view(&self) -> EditorModel {
        EditorModel { text: self.text@, cursor: self.cursor as nat, anchor: opt_nat(self.anchor) }
    }
}

/// The caret never passes the end of the text.
pub open spec fn editor_wf(m: EditorModel) -> bool {
    m.cursor <= m.text.len()
}

/// The selected range, smaller index first; none without an anchor or when
/// the anchor is at the caret.
pub open spec fn selection(m: EditorModel) -> Option<(nat, nat)> {
    match m.anchor {
        None => None,
        Some(a) => if a == m.cursor {
            None
        } else if a < m.cursor {
            Some((a, m.cursor))
        } else {
            Some((m.cursor, a))
        },
    }
}

/// The range that an edit replaces: the selection, or the empty range at
/// the caret.
pub open spec fn edit_range(m: EditorModel) -> (nat, nat) {
    match selection(m) {
        Some(r) => r,
        None => (m.cursor, m.cursor),
    }
}

/// The editor after `ins` replaces the edit range: the caret follows the
/// inserted text and the selection is gone.
pub open spec fn replaced(m: EditorModel, ins: Seq<char>) -> EditorModel {
    let (start, end) = edit_range(m);
    EditorModel { text: splice(m.text, start, end, ins), cursor: start + ins.len(), anchor: None }
}

/// Backspace: the selection goes if there is one, otherwise the character
/// before the caret (the anchor stays where it was).
pub open spec fn deleted_backward(m: EditorModel) -> EditorModel {
    if selection(m) is Some {
        replaced(m, Seq::empty())
    } else if m.cursor == 0 {
        m
    } else {
        EditorModel {
            text: m.text.remove(m.cursor - 1),
            cursor: (m.cursor - 1) as nat,
            anchor: m.anchor,
        }
    }
}

/// Delete: the selection goes if there is one, otherwise the character at
/// the caret (the anchor stays where it was).
pub open spec fn deleted_forward(m: EditorModel) -> EditorModel {
    if selection(m) is Some {
        replaced(m, Seq::empty())
    } else if m.cursor >= m.text.len() {
        m
    } else {
        EditorModel { text: m.text.remove(m.cursor as int), cursor: m.cursor, anchor: m.anchor }
    }
}

/// The caret moved to `next` (at most the end of the text); extending keeps
/// or sets the anchor, otherwise the selection is dropped.
pub open spec fn moved(m: EditorModel, next: nat, extend: bool) -> EditorModel {
    EditorModel {
        text: m.text,
        cursor: clip(next, m.text.len()),
        anchor: if extend {
            if m.anchor is None {
                Some(m.cursor)
            } else {
                m.anchor
            }
        } else {
            None
        },
    }
}

/// The caret dragged to `caret`: the anchor is set where the drag started,
/// and dropped when the caret comes back onto it.
pub open spec fn dragged(m: EditorModel, caret: nat) -> EditorModel {
    let anchor = if m.anchor is None {
        Some(m.cursor)
    } else {
        m.anchor
    };
    EditorModel {
        text: m.text,
        cursor: caret,
        anchor: if anchor == Some(caret) {
            None
        } else {
            anchor
        },
    }
}

/// `v` with `v[start..end]` replaced by `ins`.
fn splice_vec(v: &Vec<char>, start: usize, end: usize, ins: &Vec<char>) -> (r: Vec<char>)
    requires
        start <= end <= v.len(),
    ensures
        r@ == v@.take(start as int) + ins@ + v@.skip(end as int),
{
    let mut out: Vec<char> = Vec::new();
    let mut i: usize = 0;
    while i < start
        invariant
            i <= start <= end <= v.len(),
            out@ == v@.take(i as int),
        decreases start - i,
    {
        out.push(v[i]);
        i = i + 1;
        assert(out@ =~= v@.take(i as int));
    }
    let mut j: usize = 0;
    while j < ins.len()
        invariant
            start <= end <= v.len(),
            j <= ins.len(),
            out@ == v@.take(start as int) + ins@.take(j as int),
        decreases ins.len() - j,
    {
        out.push(ins[j]);
        j = j + 1;
        assert(out@ =~= v@.take(start as int) + ins@.take(j as int));
    }
    assert(ins@.take(j as int) =~= ins@);
    let mut k: usize = end;
    while k < v.len()
        invariant
            start <= end <= k <= v.len(),
            out@ == v@.take(start as int) + ins@ + v@.subrange(end as int, k as int),
        decreases v.len() - k,
    {
        out.push(v[k]);
        k = k + 1;
        assert(out@ =~= v@.take(start as int) + ins@ + v@.subrange(end as int, k as int));
    }
    assert(v@.subrange(end as int, k as int) =~= v@.skip(end as int));
    out
}

impl AddressEditor {
    /// An editor holding `text` with the caret at its end.
    pub fn new(text: &str) -> (r: AddressEditor)
        ensures
            r@ == (EditorModel { text: text@, cursor: text@.len(), anchor: None }),
    {
        let v = chars_of(text);
        let n = v.len();
        AddressEditor { text: v, cursor: n, anchor: None }
    }

    /// The text.
    pub fn text(&self) -> (r: String)
        ensures
            r@ == self@.text,
    {
        string_from(&self.text)
    }

    /// The caret's index.
    pub fn cursor(&self) -> (r: usize)
        ensures
            r == self@.cursor,
    {
        self.cursor
    }

    /// The index where the current selection started, if one is being made.
    pub fn anchor(&self) -> (r: Option<usize>)
        ensures
            opt_nat(r) == self@.anchor,
    {
        self.anchor
    }

    /// Replaces the whole text, puts the caret at its end and drops the
    /// selection.
    pub fn set_text(&mut self, text: &str)
        ensures
            final(self)@ == (EditorModel { text: text@, cursor: text@.len(), anchor: None }),
    {
        *self = AddressEditor::new(text);
    }

    /// Replaces the whole text, keeping the caret where it was (at most at
    /// the end of the new text) and the anchor as it was.
    pub fn set_text_keep_caret(&mut self, text: &str)
        ensures
            final(self)@ == (EditorModel { text: text@, cursor: clip(old(self)@.cursor, text@.len()), anchor: old(self)@.anchor }),
    {
        let v = chars_of(text);
        if self.cursor > v.len() {
            self.cursor = v.len();
        }
        self.text = v;
    }

    /// The number of characters.
    pub fn char_count(&self) -> (r: usize)
        ensures
            r == self@.text.len(),
    {
        self.text.len()
    }

    /// Selects the whole text: the anchor at the start, the caret at the end.
    pub fn select_all(&mut self)
        ensures
            final(self)@ == all_selected(old(self)@),
    {
        self.anchor = Some(0);
        self.cursor = self.text.len();
    }

    /// Drops the selection.
    pub fn clear_selection(&mut self)
        ensures
            final(self)@ == (EditorModel { text: old(self)@.text, cursor: old(self)@.cursor, anchor: None }),
    {
        self.anchor = None;
    }

    /// The selected range, smaller index first.
    pub fn selection_range(&self) -> (r: Option<(usize, usize)>)
        ensures
            match r {
                Some((a, b)) => selection(self@) == Some((a as nat, b as nat)),
                None => selection(self@) is None,
            },
    {
        match self.anchor {
            None => None,
            Some(a) => {
                if a == self.cursor {
                    None
                } else if a < self.cursor {
                    Some((a, self.cursor))
                } else {
                    Some((self.cursor, a))
                }
            },
        }
    }

    /// The selected characters.
    pub fn selected_text(&self) -> (r: Option<String>)
        requires
            editor_wf(self@),
        ensures
            match r {
                Some(t) => selection(self@) matches Some((a, b)) && t@ == slice_chars(self@.text, a, b),
                None => selection(self@) is None,
            },
    {
        match self.selection_range() {
            None => None,
            Some((a, b)) => {
                let n = self.text.len();
                let s = if a <= n {
                    a
                } else {
                    n
                };
                let e = if b <= n {
                    b
                } else {
                    n
                };
                Some(string_of(&self.text, s, e))
            },
        }
    }
    /// Replaces the selection (or inserts at the caret) with `text`; the
    /// caret follows the inserted text and the selection is dropped.
    pub fn replace_selection(&mut self, text: &str)
        requires
            editor_wf(old(self)@),
        ensures
            final(self)@ == replaced(old(self)@, text@),
            editor_wf(final(self)@),
    {
        let (start, end) = match self.selection_range() {
            Some(r) => r,
            None => (self.cursor, self.cursor),
        };
        let ins = chars_of(text);
        let n = self.text.len();
        let s = if start <= n {
            start
        } else {
            n
        };
        let e = if end <= n {
            end
        } else {
            n
        };
        let out = splice_vec(&self.text, s, e, &ins);
        let total = out.len();
        proof {
            assert(start <= old(self)@.cursor);
            assert(s == start);
        }
        let cursor = s + ins.len();
        self.text = out;
        self.cursor = cursor;
        self.anchor = None;
    }

    /// Typed or pasted text goes where the selection or the caret is.
    pub fn insert_text(&mut self, text: &str)
        requires
            editor_wf(old(self)@),
        ensures
            final(self)@ == replaced(old(self)@, text@),
            editor_wf(final(self)@),
    {
        self.replace_selection(text);
    }

    /// Backspace.
    pub fn delete_backward(&mut self)
        requires
            editor_wf(old(self)@),
        ensures
            final(self)@ == deleted_backward(old(self)@),
            editor_wf(final(self)@),
    {
        if self.selection_range().is_some() {
            self.replace_selection("");
            proof {
                reveal_strlit("");
                assert(""@ =~= Seq::<char>::empty());
            }
            return;
        }
        if self.cursor == 0 {
            return;
        }
        let start = self.cursor - 1;
        let empty: Vec<char> = Vec::new();
        let out = splice_vec(&self.text, start, self.cursor, &empty);
        proof {
            assert(out@ =~= old(self)@.text.remove(start as int));
        }
        self.text = out;
        self.cursor = start;
    }

    /// Delete.
    pub fn delete_forward(&mut self)
        requires
            editor_wf(old(self)@),
        ensures
            final(self)@ == deleted_forward(old(self)@),
            editor_wf(final(self)@),
    {
        if self.selection_range().is_some() {
            self.replace_selection("");
            proof {
                reveal_strlit("");
                assert(""@ =~= Seq::<char>::empty());
            }
            return;
        }
        if self.cursor >= self.text.len() {
            return;
        }
        let empty: Vec<char> = Vec::new();
        let out = splice_vec(&self.text, self.cursor, self.cursor + 1, &empty);
        proof {
            assert(out@ =~= old(self)@.text.remove(self.cursor as int));
        }
        self.text = out;
    }

    /// Moves the caret to `next_cursor` (at most the end of the text); with
    /// `extend_selection` the selection grows from where it started,
    /// otherwise it is dropped.
    pub fn move_cursor(&mut self, next_cursor: usize, extend_selection: bool)
        requires
            editor_wf(old(self)@),
        ensures
            final(self)@ == moved(old(self)@, next_cursor as nat, extend_selection),
            editor_wf(final(self)@),
    {
        let n = self.text.len();
        let clamped = if next_cursor <= n {
            next_cursor
        } else {
            n
        };
        if extend_selection {
            if self.anchor.is_none() {
                self.anchor = Some(self.cursor);
            }
        } else {
            self.anchor = None;
        }
        self.cursor = clamped;
        if !extend_selection && self.anchor == Some(self.cursor) {
            self.anchor = None;
        }
    }

    /// Puts the caret at `caret` with no selection (a click in the bar).
    pub fn place_cursor(&mut self, caret: usize)
        requires
            caret <= old(self)@.text.len(),
        ensures
            final(self)@ == (EditorModel { text: old(self)@.text, cursor: caret as nat, anchor: None }),
            editor_wf(final(self)@),
    {
        self.cursor = caret;
        self.anchor = None;
    }

    /// Drags the caret to `caret`, selecting from where the drag started.
    pub fn drag_to(&mut self, caret: usize)
        requires
            caret <= old(self)@.text.len(),
        ensures
            final(self)@ == dragged(old(self)@, caret as nat),
            editor_wf(final(self)@),
    {
        if self.anchor.is_none() {
            self.anchor = Some(self.cursor);
        }
        self.cursor = caret;
        if self.anchor == Some(self.cursor) {
            self.anchor = None;
        }
    }

    /// What copying puts on the clipboard: the selection, or the whole text
    /// when nothing is selected.
    pub fn clipboard_text(&self) -> (r: String)
        requires
            editor_wf(self@),
        ensures
            r@ == match selection(self@) {
                Some((a, b)) => slice_chars(self@.text, a, b),
                None => self@.text,
            },
    {
        match self.selected_text() {
            Some(t) => t,
            None => self.text(),
        }
    }

    /// Cutting: gives what goes on the clipboard and removes the selection,
    /// if there is one.
    pub fn cut(&mut self) -> (r: String)
        requires
            editor_wf(old(self)@),
        ensures
            r@ == match selection(old(self)@) {
                Some((a, b)) => slice_chars(old(self)@.text, a, b),
                None => old(self)@.text,
            },
            final(self)@ == if selection(old(self)@) is Some {
                replaced(old(self)@, Seq::empty())
            } else {
                old(self)@
            },
            editor_wf(final(self)@),
    {
        let copied = self.clipboard_text();
        if self.selection_range().is_some() {
            self.replace_selection("");
            proof {
                reveal_strlit("");
                assert(""@ =~= Seq::<char>::empty());
            }
        }
        copied
    }

    /// Pasting: the clipboard's text with its whitespace collapsed replaces
    /// the selection; nothing happens when that leaves no text.
    pub fn paste(&mut self, clipboard: &str)
        requires
            editor_wf(old(self)@),
        ensures
            final(self)@ == if collapse_ws(clipboard@).len() == 0 {
                old(self)@
            } else {
                replaced(old(self)@, collapse_ws(clipboard@))
            },
            editor_wf(final(self)@),
    {
        let sanitized = sanitize_clipboard_text(clipboard);
        if sanitized.as_str().is_empty() {
            return;
        }
        self.insert_text(sanitized.as_str());
    }
}

/// The editor after Select All.
pub open spec fn all_selected(m: EditorModel) -> EditorModel {
    EditorModel { text: m.text, cursor: m.text.len(), anchor: Some(0) }
}

/// Typing over a full selection replaces the whole address: whatever the
/// text was, after Select All the typed text is the new text, the caret is
/// at its end and nothing is selected.
pub proof fn law_select_all_then_type_replaces(m: EditorModel, typed: Seq<char>)
    ensures
        replaced(all_selected(m), typed) == (EditorModel { text: typed, cursor: typed.len(), anchor: None }),
{
    let a = all_selected(m);
    let (start, end) = edit_range(a);
    assert(start == 0);
    assert(clip(end, m.text.len()) == m.text.len());
    assert(m.text.take(0) + typed + m.text.skip(m.text.len() as int) =~= typed);
}

/// Typing one character and pressing Backspace gives back the editor as it
/// was, when nothing was selected.
pub proof fn law_type_then_backspace_restores(m: EditorModel, c: char)
    requires
        editor_wf(m),
        m.anchor is None,
    ensures
        deleted_backward(replaced(m, seq![c])) == m,
{
    let r = replaced(m, seq![c]);
    assert(selection(r) is None);
    assert(r.text.remove(m.cursor as int) =~= m.text);
}

/// With text selected, Delete does what Backspace does and what typing
/// nothing does: the selected characters go, the caret lands where they
/// began and the selection ends.
pub proof fn law_delete_removes_the_selection(m: EditorModel)
    requires
        selection(m) is Some,
    ensures
        deleted_forward(m) == deleted_backward(m),
        deleted_forward(m) == replaced(m, Seq::empty()),
        deleted_forward(m).cursor == edit_range(m).0,
        deleted_forward(m).anchor is None,
        edit_range(m).1 <= m.text.len() ==> deleted_forward(m).text == m.text.take(edit_range(m).0 as int)
            + m.text.skip(edit_range(m).1 as int),
{
    let (s, e) = edit_range(m);
    if e <= m.text.len() {
        assert(m.text.take(s as int) + Seq::<char>::empty() + m.text.skip(e as int) =~= m.text.take(s as int)
            + m.text.skip(e as int));
    }
}

/// With nothing selected, Backspace removes the character before the caret
/// and moves the caret back over it, and Delete removes the character after
/// the caret and leaves the caret where it was: Delete takes out what
/// Backspace would take out one step further right.
pub proof fn law_keys_remove_one_character(m: EditorModel)
    requires
        editor_wf(m),
        selection(m) is None,
    ensures
        m.cursor > 0 ==> deleted_backward(m).text == m.text.take(m.cursor - 1) + m.text.skip(
            m.cursor as int,
        ),
        m.cursor > 0 ==> deleted_backward(m).cursor == m.cursor - 1,
        m.cursor == 0 ==> deleted_backward(m) == m,
        m.cursor < m.text.len() ==> deleted_forward(m).text == m.text.take(m.cursor as int)
            + m.text.skip(m.cursor + 1int),
        m.cursor < m.text.len() ==> deleted_forward(m).cursor == m.cursor,
        m.cursor < m.text.len() ==> deleted_forward(m).text == deleted_backward(
            moved(m, m.cursor + 1, false),
        ).text,
        m.cursor >= m.text.len() ==> deleted_forward(m) == m,
{
    if m.cursor > 0 {
        assert(m.text.remove(m.cursor - 1) =~= m.text.take(m.cursor - 1) + m.text.skip(
            m.cursor as int,
        ));
    }
    if m.cursor < m.text.len() {
        assert(m.text.remove(m.cursor as int) =~= m.text.take(m.cursor as int) + m.text.skip(
            m.cursor + 1int,
        ));
        let mv = moved(m, m.cursor + 1, false);
        assert(mv.cursor == m.cursor + 1);
        assert(selection(mv) is None);
    }
}

/// Every edit keeps the caret within the text.
pub proof fn law_edits_keep_caret_in_text(m: EditorModel, ins: Seq<char>, next: nat, extend: bool)
    requires
        editor_wf(m),
    ensures
        editor_wf(replaced(m, ins)),
        editor_wf(deleted_backward(m)),
        editor_wf(deleted_forward(m)),
        editor_wf(moved(m, next, extend)),
        editor_wf(all_selected(m)),
{
    let (start, end) = edit_range(m);
    assert(start <= m.cursor);
}

/// Sanitizing pasted text a second time changes nothing: collapsed
/// whitespace stays collapsed.
pub proof fn law_sanitizing_is_idempotent(text: Seq<char>)
    ensures
        collapse_ws(collapse_ws(text)) == collapse_ws(text),
{
    crate::text::lemma_collapse_tidy(text);
    crate::text::lemma_collapse_tidy_fixed(collapse_ws(text));
}

} // verus!

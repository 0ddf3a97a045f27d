//! Style computation: stylesheet extraction, selector matching, the
//! cascade and the computed style of every node.
use vstd::prelude::*;
use crate::css::{DeclModel, RuleModel, Selector, SelectorModel, Stylesheet, opt_view, stylesheet_of, strings_view};
use crate::dom::{Attrs, ElementData, Kind, Node, NodeType, Tree, attrs_view};
use crate::text::{chars_of, copy_string, lower_seq, lowered, parse_usize, parse_usize_range, range_eq, str_is, trim, trim_range, trimmed, words, word_ranges};
use crate::number::{number_percent, number_percent_of};

verus! {

#[derive(Debug, PartialEq, Eq)]
pub struct StyledNode {
    pub node_type: NodeType,
    pub style: ComputedStyle,
    pub children: Vec<StyledNode>,
}

#[derive(Debug, Clone, PartialEq, Eq)]
pub struct ComputedStyle {
    pub display: Display,
    pub color: String,
    pub background_color: Option<String>,
    pub font_weight: FontWeight,
    pub font_size: usize,
    pub line_height: LineHeight,
    pub width: Option<usize>,
    pub margin: EdgeSizes,
    pub padding: EdgeSizes,
    pub underline: bool,
}

#[derive(Debug, Clone, Copy, PartialEq, Eq, Structural)]
pub enum Display {
    Block,
    Inline,
    Hidden,
}

#[derive(Debug, Clone, Copy, PartialEq, Eq, Structural)]
pub enum FontWeight {
    Normal,
    Bold,
}

#[derive(Debug, Clone, Copy, PartialEq, Eq, Structural)]
pub enum LineHeight {
    Normal,
    RelativePercent(usize),
    Px(usize),
}

#[derive(Debug, Clone, Copy, PartialEq, Eq, Default, Structural)]
pub struct EdgeSizes {
    pub top: usize,
    pub right: usize,
    pub bottom: usize,
    pub left: usize,
}

impl EdgeSizes {
    pub fn zero() -> (r: Self)
        ensures
            r == (EdgeSizes { top: 0, right: 0, bottom: 0, left: 0 }),
    {
        Self { top: 0, right: 0, bottom: 0, left: 0 }
    }

    pub fn uniform(value: usize) -> (r: Self)
        ensures
            r == (EdgeSizes { top: value, right: value, bottom: value, left: value }),
    {
        Self { top: value, right: value, bottom: value, left: value }
    }

    pub fn vertical_horizontal(vertical: usize, horizontal: usize) -> (r: Self)
        ensures
            r == (EdgeSizes { top: vertical, right: horizontal, bottom: vertical, left: horizontal }),
    {
        Self { top: vertical, right: horizontal, bottom: vertical, left: horizontal }
    }

    /// The sum of the left and right sizes; it must fit in `usize`.
    pub fn horizontal(self) -> (r: usize)
        requires
            self.left + self.right <= usize::MAX,
        ensures
            r == self.left + self.right,
    {
        self.left + self.right
    }
}

/// The model of a computed style.
pub struct StyleModel {
    pub display: Display,
    pub color: Seq<char>,
    pub background: Option<Seq<char>>,
    pub font_weight: FontWeight,
    pub font_size: usize,
    pub line_height: LineHeight,
    pub width: Option<usize>,
    pub margin: EdgeSizes,
    pub padding: EdgeSizes,
    pub underline: bool,
}

impl View for ComputedStyle {
    type V = StyleModel;

    open spec fn view(&self) -> StyleModel {
        StyleModel {
            display: self.display,
            color: self.color@,
            background: opt_view(self.background_color),
            font_weight: self.font_weight,
            font_size: self.font_size,
            line_height: self.line_height,
            width: self.width,
            margin: self.margin,
            padding: self.padding,
            underline: self.underline,
        }
    }
}

/// The model of a styled tree.
pub struct StyledModel {
    pub kind: Kind,
    pub style: StyleModel,
    pub children: Seq<StyledModel>,
}

impl StyledNode {
    pub open spec fn model(&self) -> StyledModel
        decreases self,
    {
        StyledModel {
            kind: self.node_type.kind(),
            style: self.style@,
            children: Seq::new(
                self.children@.len(),
                |i: int|
                    if 0 <= i < self.children@.len() {
                        self.children@[i].model()
                    } else {
                        StyledModel { kind: Kind::Document, style: initial_style(), children: Seq::empty() }
                    },
            ),
        }
    }
}

impl View for StyledNode {
    type V = StyledModel;

    open spec fn view(&self) -> StyledModel {
        self.model()
    }
}

/// The style every node starts from.
pub open spec fn initial_style() -> StyleModel {
    StyleModel {
        display: Display::Block,
        color: "default"@,
        background: None,
        font_weight: FontWeight::Normal,
        font_size: 16,
        line_height: LineHeight::Normal,
        width: None,
        margin: EdgeSizes { top: 0, right: 0, bottom: 0, left: 0 },
        padding: EdgeSizes { top: 0, right: 0, bottom: 0, left: 0 },
        underline: false,
    }
}

impl ComputedStyle {
    pub fn initial() -> (r: Self)
        ensures
            r@ == initial_style(),
    {
        Self {
            display: Display::Block,
            color: String::from_str("default"),
            background_color: None,
            font_weight: FontWeight::Normal,
            font_size: 16,
            line_height: LineHeight::Normal,
            width: None,
            margin: EdgeSizes::zero(),
            padding: EdgeSizes::zero(),
            underline: false,
        }
    }

    pub fn copy(&self) -> (r: Self)
        ensures
            r@ == self@,
    {
        Self {
            display: self.display,
            color: copy_string(&self.color),
            background_color: copy_opt(&self.background_color),
            font_weight: self.font_weight,
            font_size: self.font_size,
            line_height: self.line_height,
            width: self.width,
            margin: self.margin,
            padding: self.padding,
            underline: self.underline,
        }
    }
}

pub fn copy_opt(o: &Option<String>) -> (r: Option<String>)
    ensures
        opt_view(r) == opt_view(*o),
{
    match o {
        Some(s) => Some(copy_string(s)),
        None => None,
    }
}

// ---------------------------------------------------------------------------
// Values

pub open spec fn px_suffix() -> Seq<char> {
    seq!['p', 'x']
}

/// `s` without a trailing `px`, if it has one.
pub open spec fn without_px(s: Seq<char>) -> Seq<char> {
    if s.len() >= 2 && s.subrange(s.len() - 2, s.len() as int) == px_suffix() {
        s.subrange(0, s.len() - 2)
    } else {
        s
    }
}

/// A length in pixels: a whole number, with or without a `px` suffix.
pub open spec fn length_px(value: Seq<char>) -> Option<usize> {
    parse_usize(without_px(trim(value)))
}

/// `length_px` of `v[a..b]`.
fn length_px_range(v: &Vec<char>, a: usize, b: usize) -> (r: Option<usize>)
    requires
        a <= b <= v.len(),
    ensures
        r == length_px(v@.subrange(a as int, b as int)),
{
    let (s, e) = trim_range(v, a, b);
    proof {
        reveal_strlit("px");
        assert("px"@ =~= px_suffix());
    }
    if e - s >= 2 && range_eq(v, e - 2, e, "px") {
        proof {
            assert(v@.subrange(s as int, e as int).subrange(e - s - 2, e - s) =~= v@.subrange(
                e - 2,
                e as int,
            ));
            assert(v@.subrange(s as int, e as int).subrange(0, e - s - 2) =~= v@.subrange(
                s as int,
                e - 2,
            ));
        }
        parse_usize_range(v, s, e - 2)
    } else {
        proof {
            if e - s >= 2 {
                assert(v@.subrange(s as int, e as int).subrange(e - s - 2, e - s) =~= v@.subrange(
                    e - 2,
                    e as int,
                ));
            }
        }
        parse_usize_range(v, s, e)
    }
}

pub fn parse_length_px(value: &str) -> (r: Option<usize>)
    ensures
        r == length_px(value@),
{
    let v = chars_of(value);
    assert(v@.subrange(0, v.len() as int) =~= v@);
    length_px_range(&v, 0, v.len())
}

/// A font size: a length, or one of the keywords `small` (14), `medium`
/// (16), `large` (20), `x-large` (24), `xx-large` (32).
pub open spec fn font_size_of(value: Seq<char>) -> Option<usize> {
    let n = lower_seq(trim(value));
    match length_px(n) {
        Some(px) => Some(px),
        None => if n == "small"@ {
            Some(14)
        } else if n == "medium"@ {
            Some(16)
        } else if n == "large"@ {
            Some(20)
        } else if n == "x-large"@ {
            Some(24)
        } else if n == "xx-large"@ {
            Some(32)
        } else {
            None
        },
    }
}

pub fn parse_font_size(value: &str) -> (r: Option<usize>)
    ensures
        r == font_size_of(value@),
{
    let t = trimmed(value);
    let normalized = lowered(t.as_str());
    match parse_length_px(normalized.as_str()) {
        Some(px) => Some(px),
        None => {
            let n = normalized.as_str();
            if str_is(n, "small") {
                Some(14)
            } else if str_is(n, "medium") {
                Some(16)
            } else if str_is(n, "large") {
                Some(20)
            } else if str_is(n, "x-large") {
                Some(24)
            } else if str_is(n, "xx-large") {
                Some(32)
            } else {
                None
            }
        },
    }
}

/// A line height: `normal`, a length in `px`, or a positive multiplier of
/// the font size in the form `str::parse::<f32>` reads (exponent form
/// included), kept as a percentage (see `number_percent_of`).
pub open spec fn line_height_of(value: Seq<char>) -> Option<LineHeight> {
    let n = lower_seq(trim(value));
    if n == "normal"@ {
        Some(LineHeight::Normal)
    } else if n.len() >= 2 && n.subrange(n.len() - 2, n.len() as int) == px_suffix() && parse_usize(
        n.subrange(0, n.len() - 2),
    ) is Some {
        Some(LineHeight::Px(parse_usize(n.subrange(0, n.len() - 2))->0))
    } else {
        match number_percent_of(n) {
            Some(p) => Some(LineHeight::RelativePercent(p)),
            None => None,
        }
    }
}

pub fn parse_line_height(value: &str) -> (r: Option<LineHeight>)
    ensures
        r == line_height_of(value@),
{
    let t = trimmed(value);
    let normalized = lowered(t.as_str());
    if str_is(normalized.as_str(), "normal") {
        return Some(LineHeight::Normal);
    }
    let v = chars_of(normalized.as_str());
    let len = v.len();
    proof {
        reveal_strlit("px");
        assert("px"@ =~= px_suffix());
    }
    if len >= 2 && range_eq(&v, len - 2, len, "px") {
        if let Some(px) = parse_usize_range(&v, 0, len - 2) {
            return Some(LineHeight::Px(px));
        }
    }
    match number_percent(&v) {
        Some(p) => Some(LineHeight::RelativePercent(p)),
        None => None,
    }
}

/// Margins or paddings: one to four lengths, as in CSS shorthand.
pub open spec fn edge_sizes_of(value: Seq<char>) -> Option<EdgeSizes> {
    let ws = words(value);
    if exists|i: int| 0 <= i < ws.len() && length_px(#[trigger] ws[i]) is None {
        None
    } else if ws.len() == 1 {
        let a = length_px(ws[0])->0;
        Some(EdgeSizes { top: a, right: a, bottom: a, left: a })
    } else if ws.len() == 2 {
        let (a, b) = (length_px(ws[0])->0, length_px(ws[1])->0);
        Some(EdgeSizes { top: a, right: b, bottom: a, left: b })
    } else if ws.len() == 3 {
        let (a, b, c) = (length_px(ws[0])->0, length_px(ws[1])->0, length_px(ws[2])->0);
        Some(EdgeSizes { top: a, right: b, bottom: c, left: b })
    } else if ws.len() == 4 {
        Some(
            EdgeSizes {
                top: length_px(ws[0])->0,
                right: length_px(ws[1])->0,
                bottom: length_px(ws[2])->0,
                left: length_px(ws[3])->0,
            },
        )
    } else {
        None
    }
}

pub fn parse_edge_sizes(value: &str) -> (r: Option<EdgeSizes>)
    ensures
        r == edge_sizes_of(value@),
{
    let v = chars_of(value);
    let ranges = word_ranges(&v, 0, v.len());
    let ghost ws = words(v@.subrange(0, v.len() as int));
    assert(v@.subrange(0, v.len() as int) =~= value@);
    let mut values: Vec<usize> = Vec::new();
    let mut k: usize = 0;
    while k < ranges.len()
        invariant
            k <= ranges@.len() == ws.len(),
            ws == words(value@),
            forall|j: int|
                0 <= j < ranges@.len() ==> {
                    &&& (#[trigger] ranges@[j]).0 <= ranges@[j].1 <= v@.len()
                    &&& v@.subrange(ranges@[j].0 as int, ranges@[j].1 as int) == ws[j]
                },
            values@.len() == k,
            forall|j: int| 0 <= j < k ==> length_px(ws[j]) == Some(#[trigger] values@[j]),
        decreases ranges@.len() - k,
    {
        let (a, b) = ranges[k];
        match length_px_range(&v, a, b) {
            Some(px) => values.push(px),
            None => {
                assert(length_px(ws[k as int]) is None);
                return None;
            },
        }
        k = k + 1;
    }
    proof {
        assert forall|i: int| 0 <= i < ws.len() implies length_px(#[trigger] ws[i]) is Some by {
            assert(length_px(ws[i]) == Some(values@[i]));
        }
    }
    if values.len() == 1 {
        Some(EdgeSizes::uniform(values[0]))
    } else if values.len() == 2 {
        Some(EdgeSizes::vertical_horizontal(values[0], values[1]))
    } else if values.len() == 3 {
        Some(EdgeSizes { top: values[0], right: values[1], bottom: values[2], left: values[1] })
    } else if values.len() == 4 {
        Some(EdgeSizes { top: values[0], right: values[1], bottom: values[2], left: values[3] })
    } else {
        None
    }
}

// ---------------------------------------------------------------------------
// Declarations

/// A style with one declaration applied. Unknown names and values that do
/// not parse leave the style as it was, except `width`, which a bad value
/// resets to unset.
pub open spec fn apply_decl(st: StyleModel, name: Seq<char>, value: Seq<char>) -> StyleModel {
    let n = lower_seq(trim(value));
    if name == "display"@ {
        StyleModel {
            display: if n == "none"@ {
                Display::Hidden
            } else if n == "inline"@ {
                Display::Inline
            } else {
                Display::Block
            },
            ..st
        }
    } else if name == "color"@ {
        StyleModel { color: n, ..st }
    } else if name == "background-color"@ {
        StyleModel { background: Some(n), ..st }
    } else if name == "font-weight"@ {
        StyleModel {
            font_weight: if n == "bold"@ {
                FontWeight::Bold
            } else {
                FontWeight::Normal
            },
            ..st
        }
    } else if name == "font-size"@ {
        match font_size_of(value) {
            Some(f) => StyleModel { font_size: f, ..st },
            None => st,
        }
    } else if name == "line-height"@ {
        match line_height_of(value) {
            Some(l) => StyleModel { line_height: l, ..st },
            None => st,
        }
    } else if name == "width"@ {
        StyleModel { width: length_px(value), ..st }
    } else if name == "margin"@ {
        match edge_sizes_of(value) {
            Some(e) => StyleModel { margin: e, ..st },
            None => st,
        }
    } else if name == "padding"@ {
        match edge_sizes_of(value) {
            Some(e) => StyleModel { padding: e, ..st },
            None => st,
        }
    } else if name == "margin-top"@ {
        match length_px(value) {
            Some(x) => StyleModel { margin: EdgeSizes { top: x, ..st.margin }, ..st },
            None => st,
        }
    } else if name == "margin-right"@ {
        match length_px(value) {
            Some(x) => StyleModel { margin: EdgeSizes { right: x, ..st.margin }, ..st },
            None => st,
        }
    } else if name == "margin-bottom"@ {
        match length_px(value) {
            Some(x) => StyleModel { margin: EdgeSizes { bottom: x, ..st.margin }, ..st },
            None => st,
        }
    } else if name == "margin-left"@ {
        match length_px(value) {
            Some(x) => StyleModel { margin: EdgeSizes { left: x, ..st.margin }, ..st },
            None => st,
        }
    } else if name == "padding-top"@ {
        match length_px(value) {
            Some(x) => StyleModel { padding: EdgeSizes { top: x, ..st.padding }, ..st },
            None => st,
        }
    } else if name == "padding-right"@ {
        match length_px(value) {
            Some(x) => StyleModel { padding: EdgeSizes { right: x, ..st.padding }, ..st },
            None => st,
        }
    } else if name == "padding-bottom"@ {
        match length_px(value) {
            Some(x) => StyleModel { padding: EdgeSizes { bottom: x, ..st.padding }, ..st },
            None => st,
        }
    } else if name == "padding-left"@ {
        match length_px(value) {
            Some(x) => StyleModel { padding: EdgeSizes { left: x, ..st.padding }, ..st },
            None => st,
        }
    } else if name == "text-decoration"@ {
        StyleModel { underline: n == "underline"@, ..st }
    } else {
        st
    }
}

/// Whether a declaration's value is one that its property takes (every
/// value is, for the properties that fall back to a default).
pub open spec fn understood(name: Seq<char>, value: Seq<char>) -> bool {
    if name == "font-size"@ {
        font_size_of(value) is Some
    } else if name == "line-height"@ {
        line_height_of(value) is Some
    } else if name == "margin"@ || name == "padding"@ {
        edge_sizes_of(value) is Some
    } else if name == "margin-top"@ || name == "margin-right"@ || name == "margin-bottom"@ || name
        == "margin-left"@ || name == "padding-top"@ || name == "padding-right"@ || name
        == "padding-bottom"@ || name == "padding-left"@ {
        length_px(value) is Some
    } else {
        true
    }
}

/// The properties that declarations can set.
pub open spec fn supported_property(name: Seq<char>) -> bool {
    ||| name == "display"@
    ||| name == "color"@
    ||| name == "background-color"@
    ||| name == "font-weight"@
    ||| name == "font-size"@
    ||| name == "line-height"@
    ||| name == "width"@
    ||| name == "margin"@
    ||| name == "padding"@
    ||| name == "margin-top"@
    ||| name == "margin-right"@
    ||| name == "margin-bottom"@
    ||| name == "margin-left"@
    ||| name == "padding-top"@
    ||| name == "padding-right"@
    ||| name == "padding-bottom"@
    ||| name == "padding-left"@
    ||| name == "text-decoration"@
}

/// A later declaration of a property overrides an earlier one: when its
/// value is understood, the result is the same as if the earlier one had
/// never been applied.
pub proof fn law_later_declaration_wins(st: StyleModel, name: Seq<char>, earlier: Seq<char>, later: Seq<char>)
    requires
        understood(name, later),
    ensures
        apply_decl(apply_decl(st, name, earlier), name, later) == apply_decl(st, name, later),
{
}

/// Declarations of properties that the engine does not know change
/// nothing.
pub proof fn law_unknown_properties_ignored(st: StyleModel, name: Seq<char>, value: Seq<char>)
    requires
        !supported_property(name),
    ensures
        apply_decl(st, name, value) == st,
{
}

/// An element with the `hidden` attribute is not displayed, whatever the
/// style sheet says.
pub proof fn law_hidden_attribute_hides(tag: Seq<char>, attrs: Attrs, rules: Seq<RuleModel>)
    requires
        has_attr(attrs, "hidden"@),
    ensures
        style_for(Kind::Element { tag, attrs }, rules).display == Display::Hidden,
{
}

/// Side `side` of an edge: 0 top, 1 right, 2 bottom, 3 left.
pub open spec fn edge_side(e: EdgeSizes, side: int) -> usize {
    if side == 0 {
        e.top
    } else if side == 1 {
        e.right
    } else if side == 2 {
        e.bottom
    } else {
        e.left
    }
}

/// The margin, or the padding.
pub open spec fn box_edges(st: StyleModel, margin: bool) -> EdgeSizes {
    if margin {
        st.margin
    } else {
        st.padding
    }
}

/// The property that sets one side of the margin (or of the padding).
pub open spec fn side_property(margin: bool, side: int) -> Seq<char> {
    if margin {
        if side == 0 {
            "margin-top"@
        } else if side == 1 {
            "margin-right"@
        } else if side == 2 {
            "margin-bottom"@
        } else {
            "margin-left"@
        }
    } else {
        if side == 0 {
            "padding-top"@
        } else if side == 1 {
            "padding-right"@
        } else if side == 2 {
            "padding-bottom"@
        } else {
            "padding-left"@
        }
    }
}

/// The `margin` and `padding` shorthands read their lengths clockwise from
/// the top: a missing right side repeats the top, a missing bottom repeats
/// the top, a missing left side repeats the right. One to four lengths are
/// taken; anything else, or a word that is not a length, is refused.
pub proof fn law_shorthand_is_clockwise(value: Seq<char>)
    ensures
        ({
            let ws = words(value);
            let n = ws.len();
            if 1 <= n <= 4 && (forall|i: int| 0 <= i < n ==> #[trigger] length_px(ws[i]) is Some) {
                let top = length_px(ws[0])->0;
                let right = if n >= 2 { length_px(ws[1])->0 } else { top };
                let bottom = if n >= 3 { length_px(ws[2])->0 } else { top };
                let left = if n == 4 { length_px(ws[3])->0 } else { right };
                edge_sizes_of(value) == Some(EdgeSizes { top, right, bottom, left })
            } else {
                edge_sizes_of(value) is None
            }
        }),
{
    let ws = words(value);
    if 1 <= ws.len() <= 4 && (forall|i: int| 0 <= i < ws.len() ==> #[trigger] length_px(ws[i]) is Some) {
        assert(!(exists|i: int| 0 <= i < ws.len() && length_px(#[trigger] ws[i]) is None));
    }
}

/// A `margin` declaration replaces all four sides of the margin with what
/// the shorthand reads, and a `padding` declaration those of the padding;
/// nothing else changes, and a shorthand that is refused changes nothing.
#[verifier::spinoff_prover]
pub proof fn law_shorthand_declaration_sets_its_box(st: StyleModel, value: Seq<char>)
    ensures
        apply_decl(st, "margin"@, value) == match edge_sizes_of(value) {
            Some(e) => StyleModel { margin: e, ..st },
            None => st,
        },
        apply_decl(st, "padding"@, value) == match edge_sizes_of(value) {
            Some(e) => StyleModel { padding: e, ..st },
            None => st,
        },
{
    reveal_strlit("display");
    reveal_strlit("color");
    reveal_strlit("background-color");
    reveal_strlit("font-weight");
    reveal_strlit("font-size");
    reveal_strlit("line-height");
    reveal_strlit("width");
    reveal_strlit("margin");
    reveal_strlit("padding");
    assert("margin"@.len() != "display"@.len());
    assert("margin"@ != "display"@);
    assert("margin"@.len() != "color"@.len());
    assert("margin"@ != "color"@);
    assert("margin"@.len() != "background-color"@.len());
    assert("margin"@ != "background-color"@);
    assert("margin"@.len() != "font-weight"@.len());
    assert("margin"@ != "font-weight"@);
    assert("margin"@.len() != "font-size"@.len());
    assert("margin"@ != "font-size"@);
    assert("margin"@.len() != "line-height"@.len());
    assert("margin"@ != "line-height"@);
    assert("margin"@.len() != "width"@.len());
    assert("margin"@ != "width"@);
    assert("padding"@[0] != "display"@[0]);
    assert("padding"@ != "display"@);
    assert("padding"@.len() != "color"@.len());
    assert("padding"@ != "color"@);
    assert("padding"@.len() != "background-color"@.len());
    assert("padding"@ != "background-color"@);
    assert("padding"@.len() != "font-weight"@.len());
    assert("padding"@ != "font-weight"@);
    assert("padding"@.len() != "font-size"@.len());
    assert("padding"@ != "font-size"@);
    assert("padding"@.len() != "line-height"@.len());
    assert("padding"@ != "line-height"@);
    assert("padding"@.len() != "width"@.len());
    assert("padding"@ != "width"@);
    assert("padding"@.len() != "margin"@.len());
    assert("padding"@ != "margin"@);
}

/// A one-side declaration (`margin-left: 10px`, `padding-top: 3`, ...)
/// with a length sets exactly that side of that box to the length: the
/// other three sides, the other box and every other property stay as they
/// were. Without a length it changes nothing.
#[verifier::spinoff_prover]
#[verifier::rlimit(80)]
pub proof fn law_side_declaration_sets_one_side(st: StyleModel, margin: bool, side: int, value: Seq<char>)
    requires
        0 <= side < 4,
    ensures
        ({
            let r = apply_decl(st, side_property(margin, side), value);
            match length_px(value) {
                Some(x) => {
                    &&& forall|k: int|
                        0 <= k < 4 ==> #[trigger] edge_side(box_edges(r, margin), k) == if k == side {
                            x
                        } else {
                            edge_side(box_edges(st, margin), k)
                        }
                    &&& if margin {
                        r == StyleModel { margin: r.margin, ..st }
                    } else {
                        r == StyleModel { padding: r.padding, ..st }
                    }
                },
                None => r == st,
            }
        }),
{
    reveal_strlit("display");
    reveal_strlit("color");
    reveal_strlit("background-color");
    reveal_strlit("font-weight");
    reveal_strlit("font-size");
    reveal_strlit("line-height");
    reveal_strlit("width");
    reveal_strlit("margin");
    reveal_strlit("padding");
    reveal_strlit("margin-top");
    reveal_strlit("margin-right");
    reveal_strlit("margin-bottom");
    reveal_strlit("margin-left");
    reveal_strlit("padding-top");
    reveal_strlit("padding-right");
    reveal_strlit("padding-bottom");
    reveal_strlit("padding-left");
    reveal_strlit("text-decoration");
    let name = side_property(margin, side);
    let r = apply_decl(st, name, value);
    {
        if margin {
            if side == 0 {
                assert(name == "margin-top"@);
                assert(name[0] != "display"@[0] || name.len() != "display"@.len());
                assert(name != "display"@);
                assert(name[0] != "color"@[0] || name.len() != "color"@.len());
                assert(name != "color"@);
                assert(name[0] != "background-color"@[0] || name.len() != "background-color"@.len());
                assert(name != "background-color"@);
                assert(name[0] != "font-weight"@[0] || name.len() != "font-weight"@.len());
                assert(name != "font-weight"@);
                assert(name[0] != "font-size"@[0] || name.len() != "font-size"@.len());
                assert(name != "font-size"@);
                assert(name[0] != "line-height"@[0] || name.len() != "line-height"@.len());
                assert(name != "line-height"@);
                assert(name[0] != "width"@[0] || name.len() != "width"@.len());
                assert(name != "width"@);
                assert(name[0] != "margin"@[0] || name.len() != "margin"@.len());
                assert(name != "margin"@);
                assert(name[0] != "padding"@[0] || name.len() != "padding"@.len());
                assert(name != "padding"@);
                match length_px(value) {
                    Some(x) => assert(r == StyleModel { margin: EdgeSizes { top: x, ..st.margin }, ..st }),
                    None => assert(r == st),
                }
            } else if side == 1 {
                assert(name == "margin-right"@);
                assert(name[0] != "display"@[0] || name.len() != "display"@.len());
                assert(name != "display"@);
                assert(name[0] != "color"@[0] || name.len() != "color"@.len());
                assert(name != "color"@);
                assert(name[0] != "background-color"@[0] || name.len() != "background-color"@.len());
                assert(name != "background-color"@);
                assert(name[0] != "font-weight"@[0] || name.len() != "font-weight"@.len());
                assert(name != "font-weight"@);
                assert(name[0] != "font-size"@[0] || name.len() != "font-size"@.len());
                assert(name != "font-size"@);
                assert(name[0] != "line-height"@[0] || name.len() != "line-height"@.len());
                assert(name != "line-height"@);
                assert(name[0] != "width"@[0] || name.len() != "width"@.len());
                assert(name != "width"@);
                assert(name[0] != "margin"@[0] || name.len() != "margin"@.len());
                assert(name != "margin"@);
                assert(name[0] != "padding"@[0] || name.len() != "padding"@.len());
                assert(name != "padding"@);
                assert(name[0] != "margin-top"@[0] || name.len() != "margin-top"@.len());
                assert(name != "margin-top"@);
                match length_px(value) {
                    Some(x) => assert(r == StyleModel { margin: EdgeSizes { right: x, ..st.margin }, ..st }),
                    None => assert(r == st),
                }
            } else if side == 2 {
                assert(name == "margin-bottom"@);
                assert(name[0] != "display"@[0] || name.len() != "display"@.len());
                assert(name != "display"@);
                assert(name[0] != "color"@[0] || name.len() != "color"@.len());
                assert(name != "color"@);
                assert(name[0] != "background-color"@[0] || name.len() != "background-color"@.len());
                assert(name != "background-color"@);
                assert(name[0] != "font-weight"@[0] || name.len() != "font-weight"@.len());
                assert(name != "font-weight"@);
                assert(name[0] != "font-size"@[0] || name.len() != "font-size"@.len());
                assert(name != "font-size"@);
                assert(name[0] != "line-height"@[0] || name.len() != "line-height"@.len());
                assert(name != "line-height"@);
                assert(name[0] != "width"@[0] || name.len() != "width"@.len());
                assert(name != "width"@);
                assert(name[0] != "margin"@[0] || name.len() != "margin"@.len());
                assert(name != "margin"@);
                assert(name[0] != "padding"@[0] || name.len() != "padding"@.len());
                assert(name != "padding"@);
                assert(name[0] != "margin-top"@[0] || name.len() != "margin-top"@.len());
                assert(name != "margin-top"@);
                assert(name[0] != "margin-right"@[0] || name.len() != "margin-right"@.len());
                assert(name != "margin-right"@);
                match length_px(value) {
                    Some(x) => assert(r == StyleModel { margin: EdgeSizes { bottom: x, ..st.margin }, ..st }),
                    None => assert(r == st),
                }
            } else {
                assert(name == "margin-left"@);
                assert(name[0] != "display"@[0] || name.len() != "display"@.len());
                assert(name != "display"@);
                assert(name[0] != "color"@[0] || name.len() != "color"@.len());
                assert(name != "color"@);
                assert(name[0] != "background-color"@[0] || name.len() != "background-color"@.len());
                assert(name != "background-color"@);
                assert(name[0] != "font-weight"@[0] || name.len() != "font-weight"@.len());
                assert(name != "font-weight"@);
                assert(name[0] != "font-size"@[0] || name.len() != "font-size"@.len());
                assert(name != "font-size"@);
                assert(name[0] != "line-height"@[0] || name.len() != "line-height"@.len());
                assert(name != "line-height"@);
                assert(name[0] != "width"@[0] || name.len() != "width"@.len());
                assert(name != "width"@);
                assert(name[0] != "margin"@[0] || name.len() != "margin"@.len());
                assert(name != "margin"@);
                assert(name[0] != "padding"@[0] || name.len() != "padding"@.len());
                assert(name != "padding"@);
                assert(name[0] != "margin-top"@[0] || name.len() != "margin-top"@.len());
                assert(name != "margin-top"@);
                assert(name[0] != "margin-right"@[0] || name.len() != "margin-right"@.len());
                assert(name != "margin-right"@);
                assert(name[0] != "margin-bottom"@[0] || name.len() != "margin-bottom"@.len());
                assert(name != "margin-bottom"@);
                match length_px(value) {
                    Some(x) => assert(r == StyleModel { margin: EdgeSizes { left: x, ..st.margin }, ..st }),
                    None => assert(r == st),
                }
            }
        } else {
            if side == 0 {
                assert(name == "padding-top"@);
                assert(name[0] != "display"@[0] || name.len() != "display"@.len());
                assert(name != "display"@);
                assert(name[0] != "color"@[0] || name.len() != "color"@.len());
                assert(name != "color"@);
                assert(name[0] != "background-color"@[0] || name.len() != "background-color"@.len());
                assert(name != "background-color"@);
                assert(name[0] != "font-weight"@[0] || name.len() != "font-weight"@.len());
                assert(name != "font-weight"@);
                assert(name[0] != "font-size"@[0] || name.len() != "font-size"@.len());
                assert(name != "font-size"@);
                assert(name[0] != "line-height"@[0] || name.len() != "line-height"@.len());
                assert(name != "line-height"@);
                assert(name[0] != "width"@[0] || name.len() != "width"@.len());
                assert(name != "width"@);
                assert(name[0] != "margin"@[0] || name.len() != "margin"@.len());
                assert(name != "margin"@);
                assert(name[0] != "padding"@[0] || name.len() != "padding"@.len());
                assert(name != "padding"@);
                assert(name[0] != "margin-top"@[0] || name.len() != "margin-top"@.len());
                assert(name != "margin-top"@);
                assert(name[0] != "margin-right"@[0] || name.len() != "margin-right"@.len());
                assert(name != "margin-right"@);
                assert(name[0] != "margin-bottom"@[0] || name.len() != "margin-bottom"@.len());
                assert(name != "margin-bottom"@);
                assert(name[0] != "margin-left"@[0] || name.len() != "margin-left"@.len());
                assert(name != "margin-left"@);
                match length_px(value) {
                    Some(x) => assert(r == StyleModel { padding: EdgeSizes { top: x, ..st.padding }, ..st }),
                    None => assert(r == st),
                }
            } else if side == 1 {
                assert(name == "padding-right"@);
                assert(name[0] != "display"@[0] || name.len() != "display"@.len());
                assert(name != "display"@);
                assert(name[0] != "color"@[0] || name.len() != "color"@.len());
                assert(name != "color"@);
                assert(name[0] != "background-color"@[0] || name.len() != "background-color"@.len());
                assert(name != "background-color"@);
                assert(name[0] != "font-weight"@[0] || name.len() != "font-weight"@.len());
                assert(name != "font-weight"@);
                assert(name[0] != "font-size"@[0] || name.len() != "font-size"@.len());
                assert(name != "font-size"@);
                assert(name[0] != "line-height"@[0] || name.len() != "line-height"@.len());
                assert(name != "line-height"@);
                assert(name[0] != "width"@[0] || name.len() != "width"@.len());
                assert(name != "width"@);
                assert(name[0] != "margin"@[0] || name.len() != "margin"@.len());
                assert(name != "margin"@);
                assert(name[0] != "padding"@[0] || name.len() != "padding"@.len());
                assert(name != "padding"@);
                assert(name[0] != "margin-top"@[0] || name.len() != "margin-top"@.len());
                assert(name != "margin-top"@);
                assert(name[0] != "margin-right"@[0] || name.len() != "margin-right"@.len());
                assert(name != "margin-right"@);
                assert(name[0] != "margin-bottom"@[0] || name.len() != "margin-bottom"@.len());
                assert(name != "margin-bottom"@);
                assert(name[0] != "margin-left"@[0] || name.len() != "margin-left"@.len());
                assert(name != "margin-left"@);
                assert(name[0] != "padding-top"@[0] || name.len() != "padding-top"@.len());
                assert(name != "padding-top"@);
                match length_px(value) {
                    Some(x) => assert(r == StyleModel { padding: EdgeSizes { right: x, ..st.padding }, ..st }),
                    None => assert(r == st),
                }
            } else if side == 2 {
                assert(name == "padding-bottom"@);
                assert(name[0] != "display"@[0] || name.len() != "display"@.len());
                assert(name != "display"@);
                assert(name[0] != "color"@[0] || name.len() != "color"@.len());
                assert(name != "color"@);
                assert(name[0] != "background-color"@[0] || name.len() != "background-color"@.len());
                assert(name != "background-color"@);
                assert(name[0] != "font-weight"@[0] || name.len() != "font-weight"@.len());
                assert(name != "font-weight"@);
                assert(name[0] != "font-size"@[0] || name.len() != "font-size"@.len());
                assert(name != "font-size"@);
                assert(name[0] != "line-height"@[0] || name.len() != "line-height"@.len());
                assert(name != "line-height"@);
                assert(name[0] != "width"@[0] || name.len() != "width"@.len());
                assert(name != "width"@);
                assert(name[0] != "margin"@[0] || name.len() != "margin"@.len());
                assert(name != "margin"@);
                assert(name[0] != "padding"@[0] || name.len() != "padding"@.len());
                assert(name != "padding"@);
                assert(name[0] != "margin-top"@[0] || name.len() != "margin-top"@.len());
                assert(name != "margin-top"@);
                assert(name[0] != "margin-right"@[0] || name.len() != "margin-right"@.len());
                assert(name != "margin-right"@);
                assert(name[0] != "margin-bottom"@[0] || name.len() != "margin-bottom"@.len());
                assert(name != "margin-bottom"@);
                assert(name[0] != "margin-left"@[0] || name.len() != "margin-left"@.len());
                assert(name != "margin-left"@);
                assert(name[0] != "padding-top"@[0] || name.len() != "padding-top"@.len());
                assert(name != "padding-top"@);
                assert(name[0] != "padding-right"@[0] || name.len() != "padding-right"@.len());
                assert(name != "padding-right"@);
                match length_px(value) {
                    Some(x) => assert(r == StyleModel { padding: EdgeSizes { bottom: x, ..st.padding }, ..st }),
                    None => assert(r == st),
                }
            } else {
                assert(name == "padding-left"@);
                assert(name[0] != "display"@[0] || name.len() != "display"@.len());
                assert(name != "display"@);
                assert(name[0] != "color"@[0] || name.len() != "color"@.len());
                assert(name != "color"@);
                assert(name[0] != "background-color"@[0] || name.len() != "background-color"@.len());
                assert(name != "background-color"@);
                assert(name[0] != "font-weight"@[0] || name.len() != "font-weight"@.len());
                assert(name != "font-weight"@);
                assert(name[0] != "font-size"@[0] || name.len() != "font-size"@.len());
                assert(name != "font-size"@);
                assert(name[0] != "line-height"@[0] || name.len() != "line-height"@.len());
                assert(name != "line-height"@);
                assert(name[0] != "width"@[0] || name.len() != "width"@.len());
                assert(name != "width"@);
                assert(name[0] != "margin"@[0] || name.len() != "margin"@.len());
                assert(name != "margin"@);
                assert(name[0] != "padding"@[0] || name.len() != "padding"@.len());
                assert(name != "padding"@);
                assert(name[0] != "margin-top"@[0] || name.len() != "margin-top"@.len());
                assert(name != "margin-top"@);
                assert(name[0] != "margin-right"@[0] || name.len() != "margin-right"@.len());
                assert(name != "margin-right"@);
                assert(name[0] != "margin-bottom"@[0] || name.len() != "margin-bottom"@.len());
                assert(name != "margin-bottom"@);
                assert(name[0] != "margin-left"@[0] || name.len() != "margin-left"@.len());
                assert(name != "margin-left"@);
                assert(name[0] != "padding-top"@[0] || name.len() != "padding-top"@.len());
                assert(name != "padding-top"@);
                assert(name[0] != "padding-right"@[0] || name.len() != "padding-right"@.len());
                assert(name != "padding-right"@);
                assert(name[0] != "padding-bottom"@[0] || name.len() != "padding-bottom"@.len());
                assert(name != "padding-bottom"@);
                match length_px(value) {
                    Some(x) => assert(r == StyleModel { padding: EdgeSizes { left: x, ..st.padding }, ..st }),
                    None => assert(r == st),
                }
            }
        }
        if let Some(x) = length_px(value) {
            assert forall|k: int| 0 <= k < 4 implies #[trigger] edge_side(box_edges(r, margin), k) == if k == side {
                x
            } else {
                edge_side(box_edges(st, margin), k)
            } by {}
        }
    }
}

fn apply_edge_value(value: &str, target: &mut usize)
    ensures
        *final(target) == match length_px(value@) {
            Some(x) => x,
            None => *old(target),
        },
{
    if let Some(size) = parse_length_px(value) {
        *target = size;
    }
}

/// Applies one declaration to a style.
pub fn apply_declaration(style: &mut ComputedStyle, name: &str, value: &str)
    ensures
        final(style)@ == apply_decl(old(style)@, name@, value@),
{
    let t = trimmed(value);
    let n = lowered(t.as_str());
    if str_is(name, "display") {
        style.display = if str_is(n.as_str(), "none") {
            Display::Hidden
        } else if str_is(n.as_str(), "inline") {
            Display::Inline
        } else {
            Display::Block
        };
    } else if str_is(name, "color") {
        style.color = n;
    } else if str_is(name, "background-color") {
        style.background_color = Some(n);
    } else if str_is(name, "font-weight") {
        style.font_weight = if str_is(n.as_str(), "bold") {
            FontWeight::Bold
        } else {
            FontWeight::Normal
        };
    } else if str_is(name, "font-size") {
        if let Some(font_size) = parse_font_size(value) {
            style.font_size = font_size;
        }
    } else if str_is(name, "line-height") {
        if let Some(line_height) = parse_line_height(value) {
            style.line_height = line_height;
        }
    } else if str_is(name, "width") {
        style.width = parse_length_px(value);
    } else if str_is(name, "margin") {
        if let Some(edges) = parse_edge_sizes(value) {
            style.margin = edges;
        }
    } else if str_is(name, "padding") {
        if let Some(edges) = parse_edge_sizes(value) {
            style.padding = edges;
        }
    } else if str_is(name, "margin-top") {
        apply_edge_value(value, &mut style.margin.top);
    } else if str_is(name, "margin-right") {
        apply_edge_value(value, &mut style.margin.right);
    } else if str_is(name, "margin-bottom") {
        apply_edge_value(value, &mut style.margin.bottom);
    } else if str_is(name, "margin-left") {
        apply_edge_value(value, &mut style.margin.left);
    } else if str_is(name, "padding-top") {
        apply_edge_value(value, &mut style.padding.top);
    } else if str_is(name, "padding-right") {
        apply_edge_value(value, &mut style.padding.right);
    } else if str_is(name, "padding-bottom") {
        apply_edge_value(value, &mut style.padding.bottom);
    } else if str_is(name, "padding-left") {
        apply_edge_value(value, &mut style.padding.left);
    } else if str_is(name, "text-decoration") {
        style.underline = str_is(n.as_str(), "underline");
    }
}

// ---------------------------------------------------------------------------
// Defaults

pub open spec fn is_tag(k: Kind, name: Seq<char>) -> bool {
    match k {
        Kind::Element { tag, .. } => tag == name,
        _ => false,
    }
}

/// The style a node has before any rule: the user-agent defaults of its tag.
pub open spec fn default_style(k: Kind) -> StyleModel {
    let st = initial_style();
    match k {
        Kind::Element { tag, .. } => {
            let display = if tag == "span"@ || tag == "a"@ || tag == "strong"@ || tag == "code"@ {
                Display::Inline
            } else if tag == "style"@ || tag == "head"@ {
                Display::Hidden
            } else {
                Display::Block
            };
            let st = StyleModel { display, ..st };
            if tag == "body"@ {
                StyleModel {
                    margin: EdgeSizes { top: 8, right: 8, bottom: 8, left: 8 },
                    line_height: LineHeight::RelativePercent(155),
                    ..st
                }
            } else if tag == "h1"@ {
                StyleModel {
                    font_weight: FontWeight::Bold,
                    font_size: 32,
                    line_height: LineHeight::RelativePercent(115),
                    margin: EdgeSizes { top: 20, right: 0, bottom: 16, left: 0 },
                    ..st
                }
            } else if tag == "h2"@ {
                StyleModel {
                    font_weight: FontWeight::Bold,
                    font_size: 24,
                    line_height: LineHeight::RelativePercent(120),
                    margin: EdgeSizes { top: 18, right: 0, bottom: 18, left: 0 },
                    ..st
                }
            } else if tag == "h3"@ || tag == "strong"@ {
                StyleModel { font_weight: FontWeight::Bold, font_size: 18, ..st }
            } else if tag == "p"@ {
                StyleModel {
                    line_height: LineHeight::RelativePercent(160),
                    margin: EdgeSizes { top: 12, right: 0, bottom: 12, left: 0 },
                    ..st
                }
            } else if tag == "div"@ {
                StyleModel {
                    line_height: LineHeight::RelativePercent(150),
                    margin: EdgeSizes { top: 8, right: 0, bottom: 8, left: 0 },
                    ..st
                }
            } else if tag == "a"@ {
                StyleModel { color: "blue"@, underline: true, ..st }
            } else if tag == "code"@ {
                StyleModel { background: Some("#ece7dc"@), ..st }
            } else {
                st
            }
        },
        Kind::Text(_) => StyleModel { display: Display::Inline, ..st },
        Kind::Document => st,
    }
}

pub fn default_style_of(node_type: &NodeType) -> (r: ComputedStyle)
    ensures
        r@ == default_style(node_type.kind()),
{
    let mut style = ComputedStyle::initial();
    match node_type {
        NodeType::Element(element) => {
            let t = element.tag_name.as_str();
            style.display = if str_is(t, "span") || str_is(t, "a") || str_is(t, "strong") || str_is(
                t,
                "code",
            ) {
                Display::Inline
            } else if str_is(t, "style") || str_is(t, "head") {
                Display::Hidden
            } else {
                Display::Block
            };
            if str_is(t, "body") {
                style.margin = EdgeSizes::uniform(8);
                style.line_height = LineHeight::RelativePercent(155);
            } else if str_is(t, "h1") {
                style.font_weight = FontWeight::Bold;
                style.font_size = 32;
                style.line_height = LineHeight::RelativePercent(115);
                style.margin = EdgeSizes { top: 20, right: 0, bottom: 16, left: 0 };
            } else if str_is(t, "h2") {
                style.font_weight = FontWeight::Bold;
                style.font_size = 24;
                style.line_height = LineHeight::RelativePercent(120);
                style.margin = EdgeSizes::vertical_horizontal(18, 0);
            } else if str_is(t, "h3") || str_is(t, "strong") {
                style.font_weight = FontWeight::Bold;
                style.font_size = 18;
            } else if str_is(t, "p") {
                style.line_height = LineHeight::RelativePercent(160);
                style.margin = EdgeSizes::vertical_horizontal(12, 0);
            } else if str_is(t, "div") {
                style.line_height = LineHeight::RelativePercent(150);
                style.margin = EdgeSizes::vertical_horizontal(8, 0);
            } else if str_is(t, "a") {
                style.color = String::from_str("blue");
                style.underline = true;
            } else if str_is(t, "code") {
                style.background_color = Some(String::from_str("#ece7dc"));
            }
        },
        NodeType::Text(_) => style.display = Display::Inline,
        NodeType::Document => {},
    }
    style
}

// ---------------------------------------------------------------------------
// Matching and the cascade

/// The value of the first attribute called `name`.
pub open spec fn attr_lookup(attrs: Attrs, name: Seq<char>) -> Option<Seq<char>>
    decreases attrs.len(),
{
    if attrs.len() == 0 {
        None
    } else if attrs[0].0 == name {
        Some(attrs[0].1)
    } else {
        attr_lookup(attrs.drop_first(), name)
    }
}

/// Whether an element with this tag and these attributes matches `sel`: the
/// tag, the `id` and each class (a word of the `class` attribute) agree.
pub open spec fn selector_matches(tag: Seq<char>, attrs: Attrs, sel: SelectorModel) -> bool {
    let classes = words(
        match attr_lookup(attrs, "class"@) {
            Some(v) => v,
            None => Seq::empty(),
        },
    );
    &&& (sel.tag matches Some(t) ==> t == tag)
    &&& (sel.id matches Some(i) ==> attr_lookup(attrs, "id"@) == Some(i))
    &&& forall|k: int| 0 <= k < sel.classes.len() ==> classes.contains(#[trigger] sel.classes[k])
}

/// A matched selector: its specificity (id, classes, tag) and the index of
/// its rule.
pub type Entry = (usize, usize, usize, usize);

pub open spec fn specificity_of(sel: SelectorModel) -> (usize, usize, usize) {
    (
        if sel.id is Some {
            1usize
        } else {
            0usize
        },
        sel.classes.len() as usize,
        if sel.tag is Some {
            1usize
        } else {
            0usize
        },
    )
}

/// The order of the cascade: specificity, then rule index.
pub open spec fn entry_lt(x: Entry, y: Entry) -> bool {
    ||| x.0 < y.0
    ||| (x.0 == y.0 && x.1 < y.1)
    ||| (x.0 == y.0 && x.1 == y.1 && x.2 < y.2)
    ||| (x.0 == y.0 && x.1 == y.1 && x.2 == y.2 && x.3 < y.3)
}

/// The entries of the selectors `sels[..n]` of rule `ri` that match.
pub open spec fn matched_in_rule(tag: Seq<char>, attrs: Attrs, sels: Seq<SelectorModel>, ri: usize, n: int) -> Seq<Entry>
    decreases n,
{
    if n <= 0 || n > sels.len() {
        Seq::empty()
    } else {
        let prev = matched_in_rule(tag, attrs, sels, ri, n - 1);
        let sel = sels[n - 1];
        if selector_matches(tag, attrs, sel) {
            let (a, b, c) = specificity_of(sel);
            prev.push((a, b, c, ri))
        } else {
            prev
        }
    }
}

/// The matching selectors of `rules[..n]`, in rule and selector order.
pub open spec fn matched(tag: Seq<char>, attrs: Attrs, rules: Seq<RuleModel>, n: int) -> Seq<Entry>
    decreases n,
{
    if n <= 0 || n > rules.len() {
        Seq::empty()
    } else {
        matched(tag, attrs, rules, n - 1) + matched_in_rule(
            tag,
            attrs,
            rules[n - 1].selectors,
            (n - 1) as usize,
            rules[n - 1].selectors.len() as int,
        )
    }
}

/// `e` inserted into an ordered list after every entry not above it.
pub open spec fn insert_entry(sorted: Seq<Entry>, e: Entry) -> Seq<Entry>
    decreases sorted.len(),
{
    if sorted.len() == 0 {
        seq![e]
    } else if entry_lt(e, sorted.last()) {
        insert_entry(sorted.drop_last(), e).push(sorted.last())
    } else {
        sorted.push(e)
    }
}

/// The entries in cascade order; equal entries keep their order.
pub open spec fn sort_entries(es: Seq<Entry>) -> Seq<Entry>
    decreases es.len(),
{
    if es.len() == 0 {
        Seq::empty()
    } else {
        insert_entry(sort_entries(es.drop_last()), es.last())
    }
}

/// Entries in cascade order: none comes after one that it is below.
pub open spec fn cascade_sorted(s: Seq<Entry>) -> bool {
    forall|i: int, j: int| 0 <= i < j < s.len() ==> !entry_lt(#[trigger] s[j], #[trigger] s[i])
}

proof fn lemma_insert_entry(s: Seq<Entry>, e: Entry)
    requires
        cascade_sorted(s),
    ensures
        cascade_sorted(insert_entry(s, e)),
        insert_entry(s, e).to_multiset() =~= s.to_multiset().insert(e),
        forall|k: int|
            0 <= k < insert_entry(s, e).len() ==> #[trigger] insert_entry(s, e)[k] == e || s.contains(
                insert_entry(s, e)[k],
            ),
    decreases s.len(),
{
    broadcast use vstd::seq_lib::group_to_multiset_ensures;

    if s.len() == 0 {
        assert(seq![e] =~= Seq::<Entry>::empty().push(e));
    } else if entry_lt(e, s.last()) {
        let d = s.drop_last();
        let last = s.last();
        assert(s =~= d.push(last));
        lemma_insert_entry(d, e);
        let r = insert_entry(d, e);
        let out = r.push(last);
        assert forall|i: int, j: int| 0 <= i < j < out.len() implies !entry_lt(
            #[trigger] out[j],
            #[trigger] out[i],
        ) by {
            if j == r.len() {
                assert(out[i] == r[i]);
                if r[i] != e {
                    assert(d.contains(r[i]));
                    let m = choose|m: int| 0 <= m < d.len() && d[m] == r[i];
                    assert(s[m] == d[m]);
                    assert(s[s.len() - 1] == last);
                }
            } else {
                assert(out[i] == r[i] && out[j] == r[j]);
            }
        }
        assert forall|k: int| 0 <= k < out.len() implies #[trigger] out[k] == e || s.contains(out[k]) by {
            if k < r.len() {
                assert(out[k] == r[k]);
                if r[k] != e {
                    let m = choose|m: int| 0 <= m < d.len() && d[m] == r[k];
                    assert(s[m] == d[m]);
                }
            } else {
                assert(s[s.len() - 1] == last);
            }
        }
    } else {
        let out = s.push(e);
        assert forall|i: int, j: int| 0 <= i < j < out.len() implies !entry_lt(
            #[trigger] out[j],
            #[trigger] out[i],
        ) by {
            if j == s.len() {
                assert(out[i] == s[i]);
                if i < s.len() - 1 {
                    assert(!entry_lt(s[s.len() - 1], s[i]));
                }
            } else {
                assert(out[i] == s[i] && out[j] == s[j]);
            }
        }
        assert forall|k: int| 0 <= k < out.len() implies #[trigger] out[k] == e || s.contains(out[k]) by {
            if k < s.len() {
                assert(out[k] == s[k]);
            }
        }
    }
}

/// The cascade order: the matched entries sorted by specificity, then by
/// rule position, come out ordered and are exactly the entries that went
/// in. Declarations applied later override earlier ones, so a rule with
/// higher specificity, or a later rule of equal specificity, wins.
pub proof fn law_cascade_order(es: Seq<Entry>)
    ensures
        cascade_sorted(sort_entries(es)),
        sort_entries(es).to_multiset() =~= es.to_multiset(),
    decreases es.len(),
{
    broadcast use vstd::seq_lib::group_to_multiset_ensures;

    if es.len() == 0 {
    } else {
        law_cascade_order(es.drop_last());
        lemma_insert_entry(sort_entries(es.drop_last()), es.last());
        assert(es =~= es.drop_last().push(es.last()));
    }
}

pub open spec fn apply_decls(st: StyleModel, ds: Seq<DeclModel>) -> StyleModel
    decreases ds.len(),
{
    if ds.len() == 0 {
        st
    } else {
        apply_decl(apply_decls(st, ds.drop_last()), ds.last().name, ds.last().value)
    }
}

pub open spec fn apply_entries(st: StyleModel, es: Seq<Entry>, rules: Seq<RuleModel>) -> StyleModel
    decreases es.len(),
{
    if es.len() == 0 {
        st
    } else {
        apply_decls(apply_entries(st, es.drop_last(), rules), rules[es.last().3 as int].decls)
    }
}

pub open spec fn has_attr(attrs: Attrs, name: Seq<char>) -> bool {
    exists|i: int| 0 <= i < attrs.len() && (#[trigger] attrs[i]).0 == name
}

/// The computed style of a node: the defaults of its tag, then the
/// declarations of every matching rule in cascade order; the `hidden`
/// attribute hides the element whatever the rules say.
pub open spec fn style_for(k: Kind, rules: Seq<RuleModel>) -> StyleModel {
    match k {
        Kind::Element { tag, attrs } => {
            let st = apply_entries(
                default_style(k),
                sort_entries(matched(tag, attrs, rules, rules.len() as int)),
                rules,
            );
            if has_attr(attrs, "hidden"@) {
                StyleModel { display: Display::Hidden, ..st }
            } else {
                st
            }
        },
        _ => default_style(k),
    }
}

/// The styled tree of a document.
pub open spec fn styled_of(t: Tree, rules: Seq<RuleModel>) -> StyledModel
    decreases t,
{
    StyledModel {
        kind: t.kind,
        style: style_for(t.kind, rules),
        children: Seq::new(
            t.children.len(),
            |i: int|
                if 0 <= i < t.children.len() {
                    styled_of(t.children[i], rules)
                } else {
                    StyledModel { kind: Kind::Document, style: initial_style(), children: Seq::empty() }
                },
        ),
    }
}

/// The value of the first attribute called `name`.
pub fn attribute_value<'a>(element: &'a ElementData, name: &str) -> (r: Option<&'a String>)
    ensures
        match r {
            Some(v) => attr_lookup(element.attrs(), name@) == Some(v@),
            None => attr_lookup(element.attrs(), name@) is None,
        },
{
    let ghost all = element.attrs();
    let mut i: usize = 0;
    assert(all.subrange(0, all.len() as int) =~= all);
    while i < element.attributes.len()
        invariant
            i <= element.attributes.len(),
            all == element.attrs(),
            attr_lookup(all, name@) == attr_lookup(all.subrange(i as int, all.len() as int), name@),
        decreases element.attributes.len() - i,
    {
        let (key, value) = &element.attributes[i];
        proof {
            assert(all.subrange(i as int, all.len() as int).drop_first() =~= all.subrange(
                i + 1,
                all.len() as int,
            ));
            assert(all.subrange(i as int, all.len() as int)[0] == (key@, value@));
        }
        if str_is(key.as_str(), name) {
            return Some(value);
        }
        i = i + 1;
    }
    None
}

/// Whether the element carries an attribute called `name`.
fn has_attribute(element: &ElementData, name: &str) -> (r: bool)
    ensures
        r == has_attr(element.attrs(), name@),
{
    let ghost all = element.attrs();
    let mut i: usize = 0;
    while i < element.attributes.len()
        invariant
            i <= element.attributes.len(),
            all == element.attrs(),
            forall|j: int| 0 <= j < i ==> all[j].0 != name@,
        decreases element.attributes.len() - i,
    {
        if str_is(element.attributes[i].0.as_str(), name) {
            assert(all[i as int].0 == name@);
            return true;
        }
        i = i + 1;
    }
    false
}

/// Whether `element` matches `selector`.
pub fn matches_selector(element: &ElementData, selector: &Selector) -> (r: bool)
    ensures
        r == selector_matches(element.tag(), element.attrs(), selector@),
{
    if let Some(tag_name) = &selector.tag_name {
        if !crate::text::string_eq(&element.tag_name, tag_name) {
            return false;
        }
    }
    if let Some(id) = &selector.id {
        match attribute_value(element, "id") {
            Some(v) => {
                if !crate::text::string_eq(v, id) {
                    return false;
                }
            },
            None => {
                return false;
            },
        }
    }
    let class_value = match attribute_value(element, "class") {
        Some(v) => chars_of(v.as_str()),
        None => Vec::new(),
    };
    let ranges = word_ranges(&class_value, 0, class_value.len());
    let ghost ws = words(class_value@.subrange(0, class_value.len() as int));
    assert(class_value@.subrange(0, class_value.len() as int) =~= class_value@);
    let ghost sc = strings_view(selector.classes@);
    let mut k: usize = 0;
    while k < selector.classes.len()
        invariant
            k <= selector.classes.len(),
            sc == strings_view(selector.classes@),
            ws == words(class_value@),
            class_value@ == match attr_lookup(element.attrs(), "class"@) {
                Some(v) => v,
                None => Seq::<char>::empty(),
            },
            selector@.tag matches Some(t) ==> t == element.tag(),
            selector@.id matches Some(i) ==> attr_lookup(element.attrs(), "id"@) == Some(i),
            ranges@.len() == ws.len(),
            forall|j: int|
                0 <= j < ranges@.len() ==> {
                    &&& (#[trigger] ranges@[j]).0 <= ranges@[j].1 <= class_value@.len()
                    &&& class_value@.subrange(ranges@[j].0 as int, ranges@[j].1 as int) == ws[j]
                },
            forall|j: int| 0 <= j < k ==> ws.contains(#[trigger] sc[j]),
        decreases selector.classes.len() - k,
    {
        let wanted = selector.classes[k].as_str();
        let mut found = false;
        let mut w: usize = 0;
        while w < ranges.len()
            invariant
                w <= ranges@.len() == ws.len(),
                k < selector.classes.len(),
                wanted@ == sc[k as int],
                sc == strings_view(selector.classes@),
                forall|j: int|
                    0 <= j < ranges@.len() ==> {
                        &&& (#[trigger] ranges@[j]).0 <= ranges@[j].1 <= class_value@.len()
                        &&& class_value@.subrange(ranges@[j].0 as int, ranges@[j].1 as int) == ws[j]
                    },
                found ==> ws.contains(sc[k as int]),
                !found ==> forall|j: int| 0 <= j < w ==> ws[j] != sc[k as int],
            decreases ranges@.len() - w,
        {
            let (a, b) = ranges[w];
            if range_eq(&class_value, a, b, wanted) {
                found = true;
                assert(ws[w as int] == sc[k as int]);
            }
            w = w + 1;
        }
        if !found {
            proof {
                assert(!ws.contains(sc[k as int]));
                assert(selector@.classes[k as int] == sc[k as int]);
            }
            return false;
        }
        k = k + 1;
    }
    true
}

fn entry_less(x: Entry, y: Entry) -> (r: bool)
    ensures
        r == entry_lt(x, y),
{
    x.0 < y.0 || (x.0 == y.0 && x.1 < y.1) || (x.0 == y.0 && x.1 == y.1 && x.2 < y.2) || (x.0
        == y.0 && x.1 == y.1 && x.2 == y.2 && x.3 < y.3)
}

pub open spec fn all_below(s: Seq<Entry>, n: int) -> bool {
    forall|j: int| 0 <= j < s.len() ==> (#[trigger] s[j]).3 < n
}

proof fn lemma_insert_below(s: Seq<Entry>, e: Entry, n: int)
    requires
        all_below(s, n),
        e.3 < n,
    ensures
        all_below(insert_entry(s, e), n),
    decreases s.len(),
{
    if s.len() > 0 && entry_lt(e, s.last()) {
        lemma_insert_below(s.drop_last(), e, n);
        let r = insert_entry(s.drop_last(), e);
        assert forall|j: int| 0 <= j < r.push(s.last()).len() implies (#[trigger] r.push(
            s.last(),
        )[j]).3 < n by {
            if j < r.len() {
                assert(r.push(s.last())[j] == r[j]);
            }
        }
    } else if s.len() > 0 {
        assert forall|j: int| 0 <= j < s.push(e).len() implies (#[trigger] s.push(e)[j]).3 < n by {
            if j < s.len() {
                assert(s.push(e)[j] == s[j]);
            }
        }
    }
}

/// Inserts `e` into `sorted` as `insert_entry` does.
fn insert_sorted(sorted: &mut Vec<Entry>, e: Entry)
    ensures
        final(sorted)@ == insert_entry(old(sorted)@, e),
{
    let ghost s = sorted@;
    let mut k = sorted.len();
    proof {
        assert(s.subrange(k as int, s.len() as int) =~= Seq::<Entry>::empty());
        assert(s.subrange(0, k as int) =~= s);
        assert(insert_entry(s, e) =~= insert_entry(s.subrange(0, k as int), e) + s.subrange(
            k as int,
            s.len() as int,
        ));
    }
    while k > 0 && entry_less(e, sorted[k - 1])
        invariant
            k <= sorted.len(),
            sorted@ == s,
            insert_entry(s, e) == insert_entry(s.subrange(0, k as int), e) + s.subrange(
                k as int,
                s.len() as int,
            ),
        decreases k,
    {
        proof {
            let pre = s.subrange(0, k as int);
            assert(pre.drop_last() =~= s.subrange(0, k - 1));
            assert(pre.last() == s[k - 1]);
            assert(insert_entry(s.subrange(0, k - 1), e) + s.subrange(k - 1, s.len() as int)
                =~= insert_entry(s.subrange(0, k - 1), e).push(s[k - 1]) + s.subrange(
                k as int,
                s.len() as int,
            ));
        }
        k = k - 1;
    }
    proof {
        let pre = s.subrange(0, k as int);
        if k > 0 {
            assert(pre.last() == s[k - 1]);
        }
        assert(insert_entry(pre, e) =~= pre.push(e));
    }
    sorted.insert(k, e);
    proof {
        assert(sorted@ =~= s.subrange(0, k as int).push(e) + s.subrange(k as int, s.len() as int));
    }
}

/// The computed style of `node` under `stylesheet`.
pub fn compute_style(node: &Node, stylesheet: &Stylesheet) -> (r: ComputedStyle)
    ensures
        r@ == style_for(node@.kind, stylesheet@),
{
    let mut style = default_style_of(&node.node_type);
    let element = match &node.node_type {
        NodeType::Element(element) => element,
        _ => {
            return style;
        },
    };
    let ghost tag = element.tag();
    let ghost attrs = element.attrs();
    let ghost rules = stylesheet@;
    let mut matched_entries: Vec<Entry> = Vec::new();
    let mut ri: usize = 0;
    while ri < stylesheet.rules.len()
        invariant
            ri <= stylesheet.rules.len(),
            rules == stylesheet@,
            tag == element.tag(),
            attrs == element.attrs(),
            matched_entries@ == matched(tag, attrs, rules, ri as int),
            all_below(matched_entries@, stylesheet.rules.len() as int),
        decreases stylesheet.rules.len() - ri,
    {
        let rule = &stylesheet.rules[ri];
        let ghost sels = rule@.selectors;
        let ghost before = matched_entries@;
        let mut si: usize = 0;
        while si < rule.selectors.len()
            invariant
                si <= rule.selectors.len(),
                ri < stylesheet.rules.len(),
                rule == &stylesheet.rules@[ri as int],
                sels == rule@.selectors,
                tag == element.tag(),
                attrs == element.attrs(),
                matched_entries@ == before + matched_in_rule(tag, attrs, sels, ri, si as int),
                all_below(matched_entries@, stylesheet.rules.len() as int),
            decreases rule.selectors.len() - si,
        {
            let selector = &rule.selectors[si];
            if matches_selector(element, selector) {
                let a: usize = if selector.id.is_some() {
                    1
                } else {
                    0
                };
                let c: usize = if selector.tag_name.is_some() {
                    1
                } else {
                    0
                };
                matched_entries.push((a, selector.classes.len(), c, ri));
                proof {
                    assert(sels[si as int] == selector@);
                    assert(matched_entries@ =~= before + matched_in_rule(
                        tag,
                        attrs,
                        sels,
                        ri,
                        si + 1,
                    ));
                }
            } else {
                proof {
                    assert(sels[si as int] == selector@);
                }
            }
            si = si + 1;
        }
        proof {
            assert(rules[ri as int] == rule@);
        }
        ri = ri + 1;
    }
    let mut sorted: Vec<Entry> = Vec::new();
    let mut k: usize = 0;
    while k < matched_entries.len()
        invariant
            k <= matched_entries.len(),
            sorted@ == sort_entries(matched_entries@.subrange(0, k as int)),
            all_below(matched_entries@, stylesheet.rules.len() as int),
            all_below(sorted@, stylesheet.rules.len() as int),
        decreases matched_entries.len() - k,
    {
        proof {
            lemma_insert_below(sorted@, matched_entries@[k as int], stylesheet.rules.len() as int);
        }
        proof {
            assert(matched_entries@.subrange(0, k + 1).drop_last() =~= matched_entries@.subrange(
                0,
                k as int,
            ));
        }
        insert_sorted(&mut sorted, matched_entries[k]);
        k = k + 1;
    }
    assert(matched_entries@.subrange(0, k as int) =~= matched_entries@);
    let ghost base = style@;
    let mut e: usize = 0;
    while e < sorted.len()
        invariant
            e <= sorted.len(),
            rules == stylesheet@,
            all_below(sorted@, rules.len() as int),
            style@ == apply_entries(base, sorted@.subrange(0, e as int), rules),
        decreases sorted.len() - e,
    {
        let rule = &stylesheet.rules[sorted[e].3];
        let ghost mid = style@;
        let mut d: usize = 0;
        while d < rule.declarations.len()
            invariant
                d <= rule.declarations.len(),
                style@ == apply_decls(mid, rule@.decls.subrange(0, d as int)),
            decreases rule.declarations.len() - d,
        {
            let decl = &rule.declarations[d];
            apply_declaration(&mut style, decl.name.as_str(), decl.value.as_str());
            proof {
                assert(rule@.decls.subrange(0, d + 1).drop_last() =~= rule@.decls.subrange(0, d as int));
                assert(rule@.decls[d as int] == decl@);
            }
            d = d + 1;
        }
        proof {
            assert(rule@.decls.subrange(0, d as int) =~= rule@.decls);
            assert(sorted@.subrange(0, e + 1).drop_last() =~= sorted@.subrange(0, e as int));
        }
        e = e + 1;
    }
    assert(sorted@.subrange(0, e as int) =~= sorted@);
    if has_attribute(element, "hidden") {
        style.display = Display::Hidden;
    }
    style
}

/// A copy of a node's own data.
pub fn copy_node_type(t: &NodeType) -> (r: NodeType)
    ensures
        r.kind() == t.kind(),
{
    match t {
        NodeType::Document => NodeType::Document,
        NodeType::Element(e) => NodeType::Element(
            ElementData { tag_name: copy_string(&e.tag_name), attributes: copy_attributes(&e.attributes) },
        ),
        NodeType::Text(s) => NodeType::Text(copy_string(s)),
    }
}

pub fn copy_attributes(a: &Vec<(String, String)>) -> (r: Vec<(String, String)>)
    ensures
        attrs_view(r@) == attrs_view(a@),
{
    let mut r: Vec<(String, String)> = Vec::new();
    let mut i: usize = 0;
    while i < a.len()
        invariant
            i <= a.len(),
            attrs_view(r@) == attrs_view(a@.subrange(0, i as int)),
        decreases a.len() - i,
    {
        let k = copy_string(&a[i].0);
        let v = copy_string(&a[i].1);
        let ghost before = r@;
        let ghost kv = (k@, v@);
        r.push((k, v));
        proof {
            assert(a@.subrange(0, i + 1) =~= a@.subrange(0, i as int).push(a@[i as int]));
            assert(attrs_view(r@) =~= attrs_view(before).push(kv));
            assert(attrs_view(a@.subrange(0, i + 1)) =~= attrs_view(a@.subrange(0, i as int)).push(
                kv,
            ));
        }
        i = i + 1;
    }
    assert(a@.subrange(0, a.len() as int) =~= a@);
    r
}

/// The styled tree of `node` under `stylesheet`.
pub fn style_tree(node: &Node, stylesheet: &Stylesheet) -> (r: StyledNode)
    ensures
        r@ == styled_of(node@, stylesheet@),
{
    build_styled_node(node, stylesheet)
}

fn build_styled_node(node: &Node, stylesheet: &Stylesheet) -> (r: StyledNode)
    ensures
        r@ == styled_of(node@, stylesheet@),
    decreases node,
{
    let style = compute_style(node, stylesheet);
    let mut children: Vec<StyledNode> = Vec::new();
    let mut i: usize = 0;
    while i < node.children.len()
        invariant
            i <= node.children.len(),
            children@.len() == i,
            forall|j: int|
                0 <= j < i ==> (#[trigger] children@[j])@ == styled_of(
                    node.children@[j]@,
                    stylesheet@,
                ),
        decreases node.children.len() - i,
    {
        let child = build_styled_node(&node.children[i], stylesheet);
        children.push(child);
        i = i + 1;
    }
    let r = StyledNode { node_type: copy_node_type(&node.node_type), style, children };
    proof {
        let m = r@;
        let want = styled_of(node@, stylesheet@);
        assert(m.children.len() == want.children.len());
        assert forall|j: int| 0 <= j < m.children.len() implies m.children[j] == want.children[j] by {
            assert(m.children[j] == r.children@[j]@);
            assert(node@.children[j] == node.children@[j]@);
        }
        assert(m.children =~= want.children);
    }
    r
}

/// The text of every `<style>` element, each text child followed by a line
/// break, in document order. Counts the first `n` children of `t`.
pub open spec fn style_text_n(t: Tree, n: int) -> Seq<char>
    decreases t, n,
{
    if n <= 0 || n > t.children.len() {
        Seq::empty()
    } else {
        let prev = style_text_n(t, n - 1);
        let c = t.children[n - 1];
        if is_tag(t.kind, "style"@) {
            match c.kind {
                Kind::Text(x) => prev + x.push('\n'),
                _ => prev,
            }
        } else {
            prev + style_text_n(c, c.children.len() as int)
        }
    }
}

pub open spec fn style_text(t: Tree) -> Seq<char> {
    style_text_n(t, t.children.len() as int)
}

fn is_style_element(node_type: &NodeType) -> (r: bool)
    ensures
        r == is_tag(node_type.kind(), "style"@),
{
    match node_type {
        NodeType::Element(e) => str_is(e.tag_name.as_str(), "style"),
        _ => false,
    }
}

pub fn append_str(out: &mut String, s: &String)
    ensures
        final(out)@ == old(out)@ + s@,
{
    let v = chars_of(s.as_str());
    let mut i: usize = 0;
    while i < v.len()
        invariant
            i <= v.len(),
            v@ == s@,
            out@ == old(out)@ + v@.subrange(0, i as int),
        decreases v.len() - i,
    {
        out.push(v[i]);
        proof {
            assert(v@.subrange(0, i + 1) =~= v@.subrange(0, i as int).push(v@[i as int]));
        }
        i = i + 1;
    }
    assert(v@.subrange(0, i as int) =~= v@);
}

fn collect_style_text(node: &Node, output: &mut String)
    ensures
        final(output)@ == old(output)@ + style_text(node@),
    decreases node,
{
    let ghost t = node@;
    let style_el = is_style_element(&node.node_type);
    let mut i: usize = 0;
    proof {
        assert(old(output)@ + style_text_n(t, 0) =~= old(output)@);
    }
    while i < node.children.len()
        invariant
            i <= node.children.len(),
            t == node@,
            style_el == is_tag(t.kind, "style"@),
            output@ == old(output)@ + style_text_n(t, i as int),
        decreases node.children.len() - i,
    {
        let child = &node.children[i];
        proof {
            assert(t.children[i as int] == child@);
        }
        let ghost before = output@;
        if style_el {
            if let NodeType::Text(text) = &child.node_type {
                append_str(output, text);
                output.push('\n');
            }
        } else {
            collect_style_text(child, output);
        }
        proof {
            assert(output@ =~= old(output)@ + style_text_n(t, i + 1));
        }
        i = i + 1;
    }
}

/// The stylesheet of all `<style>` elements of a document.
pub fn collect_stylesheets(node: &Node) -> (r: Stylesheet)
    ensures
        r@ == stylesheet_of(style_text(node@)),
{
    let mut css = String::new();
    collect_style_text(node, &mut css);
    assert(css@ =~= style_text(node@));
    crate::css::parse(css.as_str())
}

} // verus!

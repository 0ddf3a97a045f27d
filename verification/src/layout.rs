//! Block and inline layout: boxes for blocks, wrapped lines of styled text
//! fragments for inline content.
use vstd::prelude::*;
use crate::css::opt_view;
use crate::dom::{ElementData, Kind, NodeType};
use crate::style::{Display, EdgeSizes, FontWeight, LineHeight, StyleModel, StyledModel, StyledNode, attr_lookup, copy_opt, append_str};
use crate::text::{all_ws, string_eq};
use crate::text::{chars_of, copy_string, is_whitespace, is_ws, str_is, string_from};

verus! {

#[derive(Debug, PartialEq, Eq)]
pub struct LayoutBox {
    pub kind: LayoutKind,
    pub lines: Vec<LayoutLine>,
    pub children: Vec<LayoutBox>,
    pub style: LayoutStyle,
}

#[derive(Debug, Clone, PartialEq, Eq)]
pub struct LayoutLine {
    pub fragments: Vec<LayoutFragment>,
    pub width: usize,
    pub height: u32,
    pub text: String,
}

#[derive(Debug, Clone, PartialEq, Eq)]
pub struct LayoutFragment {
    pub text: String,
    pub width: usize,
    pub color: String,
    pub font_weight: FontWeight,
    pub underline: bool,
    pub font_size: usize,
    pub line_height: LineHeight,
    pub href: Option<String>,
    pub background_color: Option<String>,
}

#[derive(Debug, Clone, PartialEq, Eq)]
pub enum LayoutKind {
    Document,
    Block { tag_name: String },
    Text,
}

#[derive(Debug, Clone, PartialEq, Eq)]
pub struct LayoutStyle {
    pub color: String,
    pub background_color: Option<String>,
    pub font_weight: FontWeight,
    pub underline: bool,
    pub font_size: usize,
    pub line_height: LineHeight,
    pub margin: EdgeSizes,
    pub padding: EdgeSizes,
}

/// The model of a text fragment.
pub struct Frag {
    pub text: Seq<char>,
    pub width: usize,
    pub color: Seq<char>,
    pub font_weight: FontWeight,
    pub underline: bool,
    pub font_size: usize,
    pub line_height: LineHeight,
    pub href: Option<Seq<char>>,
    pub background: Option<Seq<char>>,
}

/// The model of a line.
pub struct Line {
    pub frags: Seq<Frag>,
    pub width: usize,
    pub height: u32,
    pub text: Seq<char>,
}

/// The model of a box kind.
pub enum BoxKind {
    Document,
    Block(Seq<char>),
    Text,
}

/// The model of a box style.
pub struct BoxStyle {
    pub color: Seq<char>,
    pub background: Option<Seq<char>>,
    pub font_weight: FontWeight,
    pub underline: bool,
    pub font_size: usize,
    pub line_height: LineHeight,
    pub margin: EdgeSizes,
    pub padding: EdgeSizes,
}

/// The model of a layout tree.
pub struct BoxModel {
    pub kind: BoxKind,
    pub lines: Seq<Line>,
    pub children: Seq<BoxModel>,
    pub style: BoxStyle,
}

impl View for LayoutFragment {
    type V = Frag;

    open spec fn view(&self) -> Frag {
        Frag {
            text: self.text@,
            width: self.width,
            color: self.color@,
            font_weight: self.font_weight,
            underline: self.underline,
            font_size: self.font_size,
            line_height: self.line_height,
            href: opt_view(self.href),
            background: opt_view(self.background_color),
        }
    }
}

pub open spec fn frags_view(v: Seq<LayoutFragment>) -> Seq<Frag> {
    v.map_values(|f: LayoutFragment| f@)
}

impl View for LayoutLine {
    type V = Line;

    open spec fn view(&self) -> Line {
        Line {
            frags: frags_view(self.fragments@),
            width: self.width,
            height: self.height,
            text: self.text@,
        }
    }
}

pub open spec fn lines_view(v: Seq<LayoutLine>) -> Seq<Line> {
    v.map_values(|l: LayoutLine| l@)
}

impl View for LayoutStyle {
    type V = BoxStyle;

    open spec fn view(&self) -> BoxStyle {
        BoxStyle {
            color: self.color@,
            background: opt_view(self.background_color),
            font_weight: self.font_weight,
            underline: self.underline,
            font_size: self.font_size,
            line_height: self.line_height,
            margin: self.margin,
            padding: self.padding,
        }
    }
}

impl LayoutKind {
    pub open spec fn model(&self) -> BoxKind {
        match self {
            LayoutKind::Document => BoxKind::Document,
            LayoutKind::Block { tag_name } => BoxKind::Block(tag_name@),
            LayoutKind::Text => BoxKind::Text,
        }
    }
}

pub open spec fn empty_box_style() -> BoxStyle {
    BoxStyle {
        color: Seq::empty(),
        background: None,
        font_weight: FontWeight::Normal,
        underline: false,
        font_size: 0,
        line_height: LineHeight::Normal,
        margin: EdgeSizes { top: 0, right: 0, bottom: 0, left: 0 },
        padding: EdgeSizes { top: 0, right: 0, bottom: 0, left: 0 },
    }
}

impl LayoutBox {
    pub open spec fn model(&self) -> BoxModel
        decreases self,
    {
        BoxModel {
            kind: self.kind.model(),
            lines: lines_view(self.lines@),
            children: Seq::new(
                self.children@.len(),
                |i: int|
                    if 0 <= i < self.children@.len() {
                        self.children@[i].model()
                    } else {
                        BoxModel {
                            kind: BoxKind::Text,
                            lines: Seq::empty(),
                            children: Seq::empty(),
                            style: empty_box_style(),
                        }
                    },
            ),
            style: self.style@,
        }
    }
}

impl View for LayoutBox {
    type V = BoxModel;

    open spec fn view(&self) -> BoxModel {
        self.model()
    }
}

pub open spec fn boxes_view(v: Seq<LayoutBox>) -> Seq<BoxModel> {
    v.map_values(|b: LayoutBox| b@)
}

/// Measures the width of a run of text, for applications to implement
/// with their own fonts. `measured` is the width an implementation gives;
/// the layout's contracts are stated over it. An implementation that does
/// not define `measured` is taken to measure as `approx_width` does, and
/// nothing checks that it does.
pub trait TextMeasurer {
    open spec fn measured(&self, text: Seq<char>, font_size: usize, font_weight: FontWeight) -> usize {
        approx_width(text, font_size, font_weight)
    }

    fn measure_text(&self, text: &str, font_size: usize, font_weight: FontWeight) -> (r: usize)
        ensures
            r == self.measured(text@, font_size, font_weight),
    ;
}

/// Proportional widths estimated per character class.
pub struct ApproximateTextMeasurer;

/// Every character takes a cell of half the font size, at least 8 wide.
pub struct MonospaceTextMeasurer;

/// The width unit of the approximation: half the font size (at least 12,
/// rounded up), one more for bold text.
pub open spec fn approx_unit(font_size: usize, font_weight: FontWeight) -> nat {
    let fs: nat = if font_size >= 12 {
        font_size as nat
    } else {
        12
    };
    (fs + 1) / 2 + if font_weight == FontWeight::Bold {
        1nat
    } else {
        0nat
    }
}

pub open spec fn char_width(c: char, unit: nat) -> nat {
    if c == 'i' || c == 'l' || c == '!' || c == '|' || c == '\'' || c == '.' || c == ',' || c
        == ':' || c == ';' {
        unit / 2
    } else if c == 'm' || c == 'w' || c == 'M' || c == 'W' || c == '@' || c == '#' || c == '%' {
        unit + unit / 2
    } else if c == ' ' {
        unit / 2
    } else if 'A' <= c && c <= 'Z' {
        unit + unit / 4
    } else {
        unit
    }
}

pub open spec fn widths_sum(s: Seq<char>, unit: nat) -> nat
    decreases s.len(),
{
    if s.len() == 0 {
        0
    } else {
        widths_sum(s.drop_last(), unit) + char_width(s.last(), unit)
    }
}

/// The approximate width of a text: the sum of its character widths, at
/// least 1, capped at `usize::MAX`.
pub open spec fn approx_width(s: Seq<char>, font_size: usize, font_weight: FontWeight) -> usize {
    let w = widths_sum(s, approx_unit(font_size, font_weight));
    if w == 0 {
        1
    } else if w > usize::MAX {
        usize::MAX
    } else {
        w as usize
    }
}

/// The approximate width of a text (see `approx_width`).
pub fn approximate_text_width(text: &str, font_size: usize, font_weight: FontWeight) -> (r: usize)
    ensures
        r == approx_width(text@, font_size, font_weight),
{
    let weight_bonus: usize = if font_weight == FontWeight::Bold {
        1
    } else {
        0
    };
    let fs = if font_size >= 12 {
        font_size
    } else {
        12
    };
    let unit: usize = fs / 2 + (fs % 2) + weight_bonus;
    assert(unit == approx_unit(font_size, font_weight));
    let v = chars_of(text);
    let mut sum: usize = 0;
    let mut i: usize = 0;
    while i < v.len()
        invariant
            i <= v.len(),
            v@ == text@,
            unit == approx_unit(font_size, font_weight),
            unit as nat <= usize::MAX,
            sum == if widths_sum(v@.subrange(0, i as int), unit as nat) > usize::MAX {
                usize::MAX as nat
            } else {
                widths_sum(v@.subrange(0, i as int), unit as nat)
            },
        decreases v.len() - i,
    {
        let ch = v[i];
        proof {
            assert(v@.subrange(0, i + 1).drop_last() =~= v@.subrange(0, i as int));
        }
        let big = ch == 'm' || ch == 'w' || ch == 'M' || ch == 'W' || ch == '@' || ch == '#' || ch
            == '%';
        let upper = !big && ch != ' ' && 'A' <= ch && ch <= 'Z';
        let narrow = ch == 'i' || ch == 'l' || ch == '!' || ch == '|' || ch == '\'' || ch == '.'
            || ch == ',' || ch == ':' || ch == ';';
        let extra: usize = if narrow {
            0
        } else if big {
            unit / 2
        } else if upper {
            unit / 4
        } else {
            0
        };
        let base: usize = if narrow || ch == ' ' {
            unit / 2
        } else {
            unit
        };
        proof {
            assert(base + extra == char_width(ch, unit as nat));
        }
        if sum == usize::MAX || base > usize::MAX - sum || extra > usize::MAX - sum - base {
            sum = usize::MAX;
        } else {
            sum = sum + base + extra;
        }
        i = i + 1;
    }
    assert(v@.subrange(0, i as int) =~= text@);
    if sum == 0 {
        1
    } else {
        sum
    }
}

impl TextMeasurer for ApproximateTextMeasurer {
    open spec fn measured(&self, text: Seq<char>, font_size: usize, font_weight: FontWeight) -> usize {
        approx_width(text, font_size, font_weight)
    }

    fn measure_text(&self, text: &str, font_size: usize, font_weight: FontWeight) -> (r: usize) {
        approximate_text_width(text, font_size, font_weight)
    }
}

/// The monospace width: characters times the cell width, capped at
/// `usize::MAX`.
pub open spec fn mono_width(text: Seq<char>, font_size: usize) -> usize {
    let cell: nat = if font_size / 2 >= 8 {
        (font_size / 2) as nat
    } else {
        8
    };
    if text.len() * cell > usize::MAX {
        usize::MAX
    } else {
        (text.len() * cell) as usize
    }
}

impl TextMeasurer for MonospaceTextMeasurer {
    open spec fn measured(&self, text: Seq<char>, font_size: usize, font_weight: FontWeight) -> usize {
        mono_width(text, font_size)
    }

    fn measure_text(&self, text: &str, font_size: usize, _font_weight: FontWeight) -> (r: usize) {
        let cell_width = if font_size / 2 >= 8 {
            font_size / 2
        } else {
            8
        };
        let count = chars_of(text).len();
        count.checked_mul(cell_width).unwrap_or(usize::MAX)
    }
}

// ---------------------------------------------------------------------------
// Line heights

pub open spec fn cap_u32(x: nat) -> u32 {
    if x > u32::MAX {
        u32::MAX
    } else {
        x as u32
    }
}

pub open spec fn at_least_18(x: nat) -> nat {
    if x >= 18 {
        x
    } else {
        18
    }
}

/// The height of a line of text: 135% of the font size for `normal`, the
/// given percentage of it, or the given pixels; never under 18.
pub open spec fn line_height_px(font_size: usize, lh: LineHeight) -> u32 {
    match lh {
        LineHeight::Normal => cap_u32(at_least_18((font_size * 135 + 50) as nat / 100)),
        LineHeight::RelativePercent(p) => cap_u32(at_least_18((font_size * p + 50) as nat / 100)),
        LineHeight::Px(px) => (if px >= 18 {
            px
        } else {
            18
        }) as u32,
    }
}

pub open spec fn frag_line_height(f: Frag) -> u32 {
    line_height_px(f.font_size, f.line_height)
}

/// The line height for a font size (see `line_height_px`).
pub fn line_height_for(font_size: usize, line_height: LineHeight) -> (r: u32)
    ensures
        r == line_height_px(font_size, line_height),
{
    match line_height {
        LineHeight::Normal => {
            let v: u128 = ((font_size as u128) * 135 + 50) / 100;
            let v = if v < 18 {
                18
            } else {
                v
            };
            if v > u32::MAX as u128 {
                u32::MAX
            } else {
                v as u32
            }
        },
        LineHeight::RelativePercent(percent) => {
            proof {
                assert((font_size as nat) * (percent as nat) <= (usize::MAX as nat) * (
                usize::MAX as nat)) by (nonlinear_arith)
                    requires
                        font_size <= usize::MAX,
                        percent <= usize::MAX,
                ;
                assert((usize::MAX as nat) * (usize::MAX as nat) + 50 <= u128::MAX) by (
                nonlinear_arith)
                    requires
                        usize::MAX <= u64::MAX,
                ;
            }
            let v: u128 = ((font_size as u128) * (percent as u128) + 50) / 100;
            let v = if v < 18 {
                18
            } else {
                v
            };
            if v > u32::MAX as u128 {
                u32::MAX
            } else {
                v as u32
            }
        },
        LineHeight::Px(px) => {
            let v = if px >= 18 {
                px
            } else {
                18
            };
            v as u32
        },
    }
}

pub fn fragment_line_height(fragment: &LayoutFragment) -> (r: u32)
    ensures
        r == frag_line_height(fragment@),
{
    line_height_for(fragment.font_size, fragment.line_height)
}

// ---------------------------------------------------------------------------
// Styles of boxes and inline runs

pub open spec fn box_style_of(st: StyleModel) -> BoxStyle {
    BoxStyle {
        color: st.color,
        background: st.background,
        font_weight: st.font_weight,
        underline: st.underline,
        font_size: st.font_size,
        line_height: st.line_height,
        margin: st.margin,
        padding: st.padding,
    }
}

pub fn to_layout_style(node: &StyledNode) -> (r: LayoutStyle)
    ensures
        r@ == box_style_of(node@.style),
{
    LayoutStyle {
        color: copy_string(&node.style.color),
        background_color: copy_opt(&node.style.background_color),
        font_weight: node.style.font_weight,
        underline: node.style.underline,
        font_size: node.style.font_size,
        line_height: node.style.line_height,
        margin: node.style.margin,
        padding: node.style.padding,
    }
}

/// The style of an inline element inside `parent`: what the element sets
/// (a color other than `default`, a background, bold, underline, a size
/// other than 16, a line height other than `normal`) wins, the rest is
/// inherited; inline runs have no margin or padding.
pub open spec fn merge_style(parent: BoxStyle, child: BoxStyle) -> BoxStyle {
    BoxStyle {
        color: if child.color != "default"@ {
            child.color
        } else {
            parent.color
        },
        background: if child.background is Some {
            child.background
        } else {
            parent.background
        },
        font_weight: if child.font_weight == FontWeight::Bold {
            FontWeight::Bold
        } else {
            parent.font_weight
        },
        underline: child.underline || parent.underline,
        font_size: if child.font_size != 16 {
            child.font_size
        } else {
            parent.font_size
        },
        line_height: if child.line_height != LineHeight::Normal {
            child.line_height
        } else {
            parent.line_height
        },
        margin: EdgeSizes { top: 0, right: 0, bottom: 0, left: 0 },
        padding: EdgeSizes { top: 0, right: 0, bottom: 0, left: 0 },
    }
}

/// Inline text keeps the underline of every enclosing inline element: a
/// nested element is underlined exactly when it or the element around it
/// is (so bold text inside a link stays underlined).
pub proof fn law_underline_is_inherited(parent: BoxStyle, child: BoxStyle)
    ensures
        merge_style(parent, child).underline == (parent.underline || child.underline),
{
}

/// Inline text inside an element takes what the element sets and inherits
/// the rest: bold stays bold, an explicit color, background, size or line
/// height of the inner element wins over the outer one, and the outer one's
/// shows through where the inner one keeps the default. Inline boxes carry
/// no margin and no padding.
pub proof fn law_inline_style_inheritance(parent: BoxStyle, child: BoxStyle)
    ensures
        (merge_style(parent, child).font_weight == FontWeight::Bold) == (parent.font_weight
            == FontWeight::Bold || child.font_weight == FontWeight::Bold),
        child.color != "default"@ ==> merge_style(parent, child).color == child.color,
        child.color == "default"@ ==> merge_style(parent, child).color == parent.color,
        (child.background is Some) ==> merge_style(parent, child).background == child.background,
        (child.background is None) ==> merge_style(parent, child).background == parent.background,
        child.font_size != 16 ==> merge_style(parent, child).font_size == child.font_size,
        child.font_size == 16 ==> merge_style(parent, child).font_size == parent.font_size,
        child.line_height != LineHeight::Normal ==> merge_style(parent, child).line_height
            == child.line_height,
        child.line_height == LineHeight::Normal ==> merge_style(parent, child).line_height
            == parent.line_height,
        merge_style(parent, child).margin == (EdgeSizes { top: 0, right: 0, bottom: 0, left: 0 }),
        merge_style(parent, child).padding == (EdgeSizes { top: 0, right: 0, bottom: 0, left: 0 }),
{
}

pub fn merge_inline_style(parent: &LayoutStyle, child: &LayoutStyle) -> (r: LayoutStyle)
    ensures
        r@ == merge_style(parent@, child@),
{
    LayoutStyle {
        color: if !str_is(child.color.as_str(), "default") {
            copy_string(&child.color)
        } else {
            copy_string(&parent.color)
        },
        background_color: if child.background_color.is_some() {
            copy_opt(&child.background_color)
        } else {
            copy_opt(&parent.background_color)
        },
        font_weight: if child.font_weight == FontWeight::Bold {
            FontWeight::Bold
        } else {
            parent.font_weight
        },
        underline: child.underline || parent.underline,
        font_size: if child.font_size != 16 {
            child.font_size
        } else {
            parent.font_size
        },
        line_height: if child.line_height != LineHeight::Normal {
            child.line_height
        } else {
            parent.line_height
        },
        margin: EdgeSizes::zero(),
        padding: EdgeSizes::zero(),
    }
}

/// Text, and elements displayed inline, flow in lines.
pub open spec fn is_inline(n: StyledModel) -> bool {
    match n.kind {
        Kind::Text(_) => true,
        Kind::Element { .. } => n.style.display == Display::Inline,
        Kind::Document => false,
    }
}

pub fn is_inline_node(node: &StyledNode) -> (r: bool)
    ensures
        r == is_inline(node@),
{
    match node.node_type {
        NodeType::Text(_) => true,
        NodeType::Element(_) => node.style.display == Display::Inline,
        NodeType::Document => false,
    }
}

// ---------------------------------------------------------------------------
// Fragments

pub open spec fn newline() -> Seq<char> {
    seq!['\n']
}

/// The runs of `s` that are all whitespace or all not, whitespace turned
/// into spaces. `.1` is the class of the last run.
pub open spec fn runs_state(s: Seq<char>) -> (Seq<Seq<char>>, Option<bool>)
    decreases s.len(),
{
    if s.len() == 0 {
        (Seq::empty(), None)
    } else {
        let (ts, cls) = runs_state(s.drop_last());
        let c = s.last();
        let w = is_ws(c);
        let mc = if w {
            ' '
        } else {
            c
        };
        if cls == Some(w) && ts.len() > 0 {
            (ts.update(ts.len() - 1, ts.last().push(mc)), Some(w))
        } else {
            (ts.push(seq![mc]), Some(w))
        }
    }
}

pub open spec fn runs(s: Seq<char>) -> Seq<Seq<char>> {
    runs_state(s).0
}

/// A fragment like `f` holding `text`, not yet measured.
pub open spec fn with_text(f: Frag, text: Seq<char>) -> Frag {
    Frag { text, width: 0, ..f }
}

pub open spec fn measure_frag<M: TextMeasurer>(m: &M, f: Frag) -> Frag {
    Frag { width: m.measured(f.text, f.font_size, f.font_weight), ..f }
}

pub open spec fn same_run_style(a: Frag, b: Frag) -> bool {
    &&& a.color == b.color
    &&& a.font_weight == b.font_weight
    &&& a.underline == b.underline
    &&& a.font_size == b.font_size
    &&& a.line_height == b.line_height
    &&& a.href == b.href
    &&& a.background == b.background
}

/// `f` appended to a line's fragments, joined to the last one when their
/// styles agree.
pub open spec fn merge_frag(cur: Seq<Frag>, f: Frag) -> Seq<Frag> {
    if cur.len() > 0 && same_run_style(cur.last(), f) {
        cur.update(
            cur.len() - 1,
            Frag { text: cur.last().text + f.text, width: (cur.last().width + f.width) as usize, ..cur.last() },
        )
    } else {
        cur.push(f)
    }
}

pub open spec fn concat_texts(fs: Seq<Frag>) -> Seq<char>
    decreases fs.len(),
{
    if fs.len() == 0 {
        Seq::empty()
    } else {
        concat_texts(fs.drop_last()) + fs.last().text
    }
}

pub open spec fn line_of(fs: Seq<Frag>, width: usize, height: u32) -> Line {
    Line { frags: fs, width, height, text: concat_texts(fs) }
}

pub fn copy_fragment(f: &LayoutFragment) -> (r: LayoutFragment)
    ensures
        r@ == f@,
{
    LayoutFragment {
        text: copy_string(&f.text),
        width: f.width,
        color: copy_string(&f.color),
        font_weight: f.font_weight,
        underline: f.underline,
        font_size: f.font_size,
        line_height: f.line_height,
        href: copy_opt(&f.href),
        background_color: copy_opt(&f.background_color),
    }
}

pub fn fragment_with_text(template: &LayoutFragment, text: String) -> (r: LayoutFragment)
    ensures
        r@ == with_text(template@, text@),
{
    LayoutFragment {
        text,
        width: 0,
        color: copy_string(&template.color),
        font_weight: template.font_weight,
        underline: template.underline,
        font_size: template.font_size,
        line_height: template.line_height,
        href: copy_opt(&template.href),
        background_color: copy_opt(&template.background_color),
    }
}

/// Splits a fragment into runs of whitespace and of other characters.
pub fn tokenize_fragment(fragment: &LayoutFragment) -> (r: Vec<LayoutFragment>)
    ensures
        frags_view(r@) == runs(fragment.text@).map_values(|t: Seq<char>| with_text(fragment@, t)),
{
    let v = chars_of(fragment.text.as_str());
    let ghost f = fragment@;
    let mut tokens: Vec<LayoutFragment> = Vec::new();
    let mut buffer: Vec<char> = Vec::new();
    let mut whitespace: Option<bool> = None;
    let mut i: usize = 0;
    while i < v.len()
        invariant
            i <= v.len(),
            v@ == fragment.text@,
            f == fragment@,
            ({
                let (ts, cls) = runs_state(v@.subrange(0, i as int));
                &&& cls == whitespace
                &&& (cls is None <==> ts.len() == 0)
                &&& ts.len() > 0 ==> frags_view(tokens@) == ts.drop_last().map_values(
                    |t: Seq<char>| with_text(f, t),
                ) && buffer@ == ts.last() && buffer@.len() > 0
                &&& ts.len() == 0 ==> tokens@.len() == 0 && buffer@.len() == 0
            }),
        decreases v.len() - i,
    {
        let ch = v[i];
        let w = is_whitespace(ch);
        let mc = if w {
            ' '
        } else {
            ch
        };
        let ghost prev = runs_state(v@.subrange(0, i as int));
        proof {
            assert(v@.subrange(0, i + 1).drop_last() =~= v@.subrange(0, i as int));
        }
        match whitespace {
            Some(current) => {
                if current != w {
                    let text = string_from(&buffer);
                    let ghost bv = buffer@;
                    let ghost old_tokens = tokens@;
                    let tok = fragment_with_text(fragment, text);
                    let ghost tv = tok@;
                    tokens.push(tok);
                    buffer = Vec::new();
                    whitespace = Some(w);
                    proof {
                        assert(tv == with_text(f, bv));
                        assert(prev.0 =~= prev.0.drop_last().push(prev.0.last()));
                        assert(frags_view(tokens@) =~= frags_view(old_tokens).push(tv));
                        assert(frags_view(tokens@) =~= prev.0.map_values(
                            |t: Seq<char>| with_text(f, t),
                        ));
                    }
                }
            },
            None => {
                whitespace = Some(w);
            },
        }
        buffer.push(mc);
        proof {
            let next = runs_state(v@.subrange(0, i + 1));
            if prev.1 == Some(w) && prev.0.len() > 0 {
                assert(next.0.drop_last() =~= prev.0.drop_last());
                assert(buffer@ =~= next.0.last());
            } else {
                assert(next.0.drop_last() =~= prev.0);
                assert(buffer@ =~= next.0.last());
            }
        }
        i = i + 1;
    }
    proof {
        assert(v@.subrange(0, i as int) =~= fragment.text@);
    }
    if buffer.len() > 0 {
        let text = string_from(&buffer);
        let ghost old_tokens = tokens@;
        let tok = fragment_with_text(fragment, text);
        let ghost tv = tok@;
        tokens.push(tok);
        proof {
            let ts = runs(fragment.text@);
            assert(ts =~= ts.drop_last().push(ts.last()));
            assert(frags_view(tokens@) =~= frags_view(old_tokens).push(tv));
            assert(frags_view(tokens@) =~= ts.map_values(|t: Seq<char>| with_text(f, t)));
        }
    } else {
        proof {
            assert(frags_view(tokens@) =~= runs(fragment.text@).map_values(
                |t: Seq<char>| with_text(f, t),
            ));
        }
    }
    tokens
}

pub fn with_measured_width<M: TextMeasurer>(fragment: LayoutFragment, measurer: &M) -> (r: LayoutFragment)
    ensures
        r@ == measure_frag(measurer, fragment@),
{
    let mut fragment = fragment;
    fragment.width = measurer.measure_text(fragment.text.as_str(), fragment.font_size, fragment.font_weight);
    fragment
}

/// The width of one character when a word is broken: at least 1.
pub open spec fn glyph_width<M: TextMeasurer>(m: &M, f: Frag, c: char) -> usize {
    let w = m.measured(seq![c], f.font_size, f.font_weight);
    if w >= 1 {
        w
    } else {
        1
    }
}

pub open spec fn piece(f: Frag, text: Seq<char>, width: usize) -> Frag {
    Frag { text, width, ..f }
}

/// Breaking the characters `s` of `f` into pieces no wider than `limit`
/// (a piece holds at least one character): the finished pieces, the piece
/// being filled and its width.
pub open spec fn break_state<M: TextMeasurer>(m: &M, f: Frag, limit: usize, s: Seq<char>) -> (
    Seq<Frag>,
    Seq<char>,
    usize,
)
    decreases s.len(),
{
    if s.len() == 0 {
        (Seq::empty(), Seq::empty(), 0)
    } else {
        let (ps, cur, w) = break_state(m, f, limit, s.drop_last());
        let c = s.last();
        let g = glyph_width(m, f, c);
        if w + g > limit && cur.len() > 0 {
            (ps.push(piece(f, cur, w)), seq![c], g)
        } else {
            (ps, cur.push(c), (w + g) as usize)
        }
    }
}

pub open spec fn break_pieces<M: TextMeasurer>(m: &M, f: Frag, limit: usize) -> Seq<Frag> {
    let (ps, cur, w) = break_state(m, f, limit, f.text);
    if cur.len() > 0 {
        ps.push(piece(f, cur, w))
    } else {
        ps
    }
}

proof fn lemma_break_state_inv<M: TextMeasurer>(m: &M, f: Frag, limit: usize, s: Seq<char>)
    ensures
        break_state(m, f, limit, s).1.len() == 0 ==> break_state(m, f, limit, s).2 == 0,
        break_state(m, f, limit, s).1.len() == 0 <==> s.len() == 0,
    decreases s.len(),
{
    if s.len() > 0 {
        lemma_break_state_inv(m, f, limit, s.drop_last());
    }
}

fn piece_fragment(fragment: &LayoutFragment, text: String, width: usize) -> (r: LayoutFragment)
    ensures
        r@ == piece(fragment@, text@, width),
{
    LayoutFragment {
        text,
        width,
        color: copy_string(&fragment.color),
        font_weight: fragment.font_weight,
        underline: fragment.underline,
        font_size: fragment.font_size,
        line_height: fragment.line_height,
        href: copy_opt(&fragment.href),
        background_color: copy_opt(&fragment.background_color),
    }
}

/// Breaks a word wider than a line into pieces that fit (see `break_pieces`).
pub fn break_fragment<M: TextMeasurer>(fragment: &LayoutFragment, max_width: usize, measurer: &M) -> (r: Vec<LayoutFragment>)
    ensures
        frags_view(r@) == break_pieces(measurer, fragment@, max_width),
{
    let v = chars_of(fragment.text.as_str());
    let ghost f = fragment@;
    let mut pieces: Vec<LayoutFragment> = Vec::new();
    let mut current: Vec<char> = Vec::new();
    let mut current_width: usize = 0;
    let mut i: usize = 0;
    while i < v.len()
        invariant
            i <= v.len(),
            v@ == fragment.text@,
            f == fragment@,
            (frags_view(pieces@), current@, current_width) == break_state(
                measurer,
                f,
                max_width,
                v@.subrange(0, i as int),
            ),
            current@.len() == 0 ==> current_width == 0,
        decreases v.len() - i,
    {
        let ch = v[i];
        let mut one = String::new();
        one.push(ch);
        assert(one@ =~= seq![ch]);
        let measured = measurer.measure_text(one.as_str(), fragment.font_size, fragment.font_weight);
        let glyph = if measured >= 1 {
            measured
        } else {
            1
        };
        proof {
            assert(v@.subrange(0, i + 1).drop_last() =~= v@.subrange(0, i as int));
        }
        let too_wide = current_width > max_width || glyph > max_width - current_width;
        if too_wide && current.len() > 0 {
            let text = string_from(&current);
            let ghost old_pieces = pieces@;
            let p = piece_fragment(fragment, text, current_width);
            let ghost pv = p@;
            pieces.push(p);
            proof {
                assert(frags_view(pieces@) =~= frags_view(old_pieces).push(pv));
            }
            current = Vec::new();
            current.push(ch);
            assert(current@ =~= seq![ch]);
            current_width = glyph;
        } else {
            current.push(ch);
            current_width = current_width + glyph;
        }
        i = i + 1;
    }
    assert(v@.subrange(0, i as int) =~= fragment.text@);
    if current.len() > 0 {
        let text = string_from(&current);
        let ghost old_pieces = pieces@;
        let p = piece_fragment(fragment, text, current_width);
        let ghost pv = p@;
        pieces.push(p);
        proof {
            assert(frags_view(pieces@) =~= frags_view(old_pieces).push(pv));
        }
    }
    pieces
}

fn same_href(a: &Option<String>, b: &Option<String>) -> (r: bool)
    ensures
        r == (opt_view(*a) == opt_view(*b)),
{
    match (a, b) {
        (Some(x), Some(y)) => string_eq(x, y),
        (None, None) => true,
        _ => false,
    }
}

/// Appends `fragment` to a line, joined to the last fragment when their
/// styles agree (see `merge_frag`).
pub fn push_or_merge_fragment(fragments: &mut Vec<LayoutFragment>, fragment: LayoutFragment)
    requires
        old(fragments)@.len() > 0 ==> old(fragments)@.last().width + fragment.width <= usize::MAX,
    ensures
        frags_view(final(fragments)@) == merge_frag(frags_view(old(fragments)@), fragment@),
{
    let ghost old_view = frags_view(fragments@);
    if fragments.len() > 0 {
        let n = fragments.len() - 1;
        let same = {
            let last = &fragments[n];
            string_eq(&last.color, &fragment.color) && last.font_weight == fragment.font_weight
                && last.underline == fragment.underline && last.font_size == fragment.font_size
                && last.line_height == fragment.line_height && same_href(&last.href, &fragment.href)
                && same_href(&last.background_color, &fragment.background_color)
        };
        if same {
            let mut last = fragments.pop().unwrap();
            let ghost lv = last@;
            append_str(&mut last.text, &fragment.text);
            last.width = last.width + fragment.width;
            let ghost nv = last@;
            fragments.push(last);
            proof {
                assert(lv == old_view.last());
                assert(frags_view(fragments@) =~= old_view.update(old_view.len() - 1, nv));
            }
            return;
        }
    }
    let ghost fv = fragment@;
    fragments.push(fragment);
    proof {
        assert(frags_view(fragments@) =~= old_view.push(fv));
    }
}

/// A line of `fragments` with its text.
pub fn make_line(fragments: Vec<LayoutFragment>, width: usize, height: u32) -> (r: LayoutLine)
    ensures
        r@ == line_of(frags_view(fragments@), width, height),
{
    let mut text = String::new();
    let mut i: usize = 0;
    while i < fragments.len()
        invariant
            i <= fragments.len(),
            text@ == concat_texts(frags_view(fragments@.subrange(0, i as int))),
        decreases fragments.len() - i,
    {
        append_str(&mut text, &fragments[i].text);
        proof {
            assert(frags_view(fragments@.subrange(0, i + 1)).drop_last() =~= frags_view(
                fragments@.subrange(0, i as int),
            ));
        }
        i = i + 1;
    }
    assert(fragments@.subrange(0, i as int) =~= fragments@);
    LayoutLine { fragments, width, height, text }
}

// ---------------------------------------------------------------------------
// Line wrapping

/// The state of line wrapping: finished lines, the fragments of the line
/// being filled with its width and height, and a space waiting for the
/// next word.
#[verifier::ext_equal]
pub struct WrapState {
    pub lines: Seq<Line>,
    pub cur: Seq<Frag>,
    pub cur_w: usize,
    pub cur_h: u32,
    pub pending: Option<Frag>,
}

pub open spec fn max_u32(a: u32, b: u32) -> u32 {
    if a >= b {
        a
    } else {
        b
    }
}

pub open spec fn fresh(lines: Seq<Line>) -> WrapState {
    WrapState { lines, cur: Seq::empty(), cur_w: 0, cur_h: 0, pending: None }
}

/// The finished lines with the line being filled closed.
pub open spec fn close_line(st: WrapState) -> Seq<Line> {
    st.lines.push(line_of(st.cur, st.cur_w, max_u32(st.cur_h, 1)))
}

pub open spec fn broken_lines(ps: Seq<Frag>) -> Seq<Line> {
    ps.map_values(|p: Frag| line_of(seq![p], p.width, frag_line_height(p)))
}

/// One run of a fragment. A space is kept until the next word and dropped
/// at the start of a line. A word wider than the line is broken over lines
/// of its own. A word that does not fit after the current line's content
/// starts a new line.
pub open spec fn wrap_token<M: TextMeasurer>(m: &M, limit: usize, st: WrapState, tok: Frag) -> WrapState {
    if all_ws(tok.text) {
        if st.cur.len() > 0 {
            WrapState { pending: Some(measure_frag(m, tok)), ..st }
        } else {
            st
        }
    } else {
        let t = measure_frag(m, tok);
        if t.width > limit {
            let lines = if st.cur.len() > 0 {
                close_line(st)
            } else {
                st.lines
            };
            fresh(lines + broken_lines(break_pieces(m, t, limit)))
        } else {
            let pw: nat = match st.pending {
                Some(p) => p.width as nat,
                None => 0,
            };
            let st1 = if st.cur.len() > 0 && st.cur_w + pw + t.width > limit {
                fresh(close_line(st))
            } else {
                st
            };
            let st2 = match st1.pending {
                Some(sp) => if st1.cur.len() > 0 {
                    WrapState {
                        cur: merge_frag(st1.cur, sp),
                        cur_w: (st1.cur_w + sp.width) as usize,
                        cur_h: max_u32(st1.cur_h, frag_line_height(sp)),
                        pending: None,
                        ..st1
                    }
                } else {
                    WrapState { pending: None, ..st1 }
                },
                None => st1,
            };
            WrapState {
                cur: merge_frag(st2.cur, t),
                cur_w: (st2.cur_w + t.width) as usize,
                cur_h: max_u32(st2.cur_h, frag_line_height(t)),
                ..st2
            }
        }
    }
}

pub open spec fn wrap_runs<M: TextMeasurer>(m: &M, limit: usize, st: WrapState, f: Frag, rs: Seq<Seq<char>>) -> WrapState
    decreases rs.len(),
{
    if rs.len() == 0 {
        st
    } else {
        wrap_token(m, limit, wrap_runs(m, limit, st, f, rs.drop_last()), with_text(f, rs.last()))
    }
}

/// One fragment: a line break closes the line (an empty line takes the
/// break's height), other text is wrapped run by run.
pub open spec fn wrap_frag<M: TextMeasurer>(m: &M, limit: usize, st: WrapState, f: Frag) -> WrapState {
    if f.text == newline() {
        let line = if st.cur.len() > 0 {
            line_of(st.cur, st.cur_w, max_u32(st.cur_h, 1))
        } else {
            line_of(Seq::empty(), 0, frag_line_height(f))
        };
        fresh(st.lines.push(line))
    } else {
        wrap_runs(m, limit, st, f, runs(f.text))
    }
}

pub open spec fn wrap_all<M: TextMeasurer>(m: &M, limit: usize, fs: Seq<Frag>) -> WrapState
    decreases fs.len(),
{
    if fs.len() == 0 {
        fresh(Seq::empty())
    } else {
        wrap_frag(m, limit, wrap_all(m, limit, fs.drop_last()), fs.last())
    }
}

/// The lines of inline fragments wrapped to `max_width` (at least 1).
pub open spec fn wrap_spec<M: TextMeasurer>(m: &M, max_width: usize, fs: Seq<Frag>) -> Seq<Line> {
    let limit: usize = if max_width >= 1 {
        max_width
    } else {
        1
    };
    let st = wrap_all(m, limit, fs);
    if st.cur.len() > 0 {
        close_line(st)
    } else {
        st.lines
    }
}

/// A line fits `limit` when it is no wider, or when it holds one character
/// that is wider on its own.
pub open spec fn line_fits(l: Line, limit: usize) -> bool {
    l.width <= limit || (l.frags.len() == 1 && l.frags[0].text.len() == 1)
}

pub open spec fn all_fit(ls: Seq<Line>, limit: usize) -> bool {
    forall|i: int| 0 <= i < ls.len() ==> line_fits(#[trigger] ls[i], limit)
}

/// What holds of every state that wrapping passes through.
pub open spec fn wrap_fits(st: WrapState, limit: usize) -> bool {
    &&& all_fit(st.lines, limit)
    &&& st.cur_w <= limit
    &&& st.cur.len() == 0 ==> st.cur_w == 0 && st.pending is None
}

proof fn lemma_break_fits<M: TextMeasurer>(m: &M, f: Frag, limit: usize, s: Seq<char>)
    ensures
        forall|i: int|
            0 <= i < break_state(m, f, limit, s).0.len() ==> {
                let p = #[trigger] break_state(m, f, limit, s).0[i];
                p.width <= limit || p.text.len() == 1
            },
        break_state(m, f, limit, s).2 <= limit || break_state(m, f, limit, s).1.len() == 1,
        break_state(m, f, limit, s).1.len() == 0 ==> break_state(m, f, limit, s).2 == 0,
    decreases s.len(),
{
    if s.len() > 0 {
        lemma_break_fits(m, f, limit, s.drop_last());
    }
}

proof fn lemma_broken_lines_fit<M: TextMeasurer>(m: &M, t: Frag, limit: usize)
    ensures
        all_fit(broken_lines(break_pieces(m, t, limit)), limit),
{
    lemma_break_fits(m, t, limit, t.text);
    let ps = break_pieces(m, t, limit);
    assert forall|i: int| 0 <= i < broken_lines(ps).len() implies line_fits(
        #[trigger] broken_lines(ps)[i],
        limit,
    ) by {
        let p = ps[i];
        assert(broken_lines(ps)[i] == line_of(seq![p], p.width, frag_line_height(p)));
        assert(seq![p][0] == p);
    }
}

proof fn lemma_close_line_fits(st: WrapState, limit: usize)
    requires
        wrap_fits(st, limit),
    ensures
        all_fit(close_line(st), limit),
{
    let ls = close_line(st);
    assert forall|i: int| 0 <= i < ls.len() implies line_fits(#[trigger] ls[i], limit) by {
        if i < st.lines.len() {
            assert(ls[i] == st.lines[i]);
        }
    }
}

proof fn lemma_wrap_token_fits<M: TextMeasurer>(m: &M, limit: usize, st: WrapState, tok: Frag)
    requires
        wrap_fits(st, limit),
    ensures
        wrap_fits(wrap_token(m, limit, st, tok), limit),
{
    if !all_ws(tok.text) {
        let t = measure_frag(m, tok);
        if t.width > limit {
            let lines = if st.cur.len() > 0 {
                lemma_close_line_fits(st, limit);
                close_line(st)
            } else {
                st.lines
            };
            lemma_broken_lines_fit(m, t, limit);
            let bl = broken_lines(break_pieces(m, t, limit));
            assert forall|i: int| 0 <= i < (lines + bl).len() implies line_fits(
                #[trigger] (lines + bl)[i],
                limit,
            ) by {
                if i < lines.len() {
                    assert((lines + bl)[i] == lines[i]);
                } else {
                    assert((lines + bl)[i] == bl[i - lines.len()]);
                }
            }
        } else {
            let pw: nat = match st.pending {
                Some(p) => p.width as nat,
                None => 0,
            };
            if st.cur.len() > 0 && st.cur_w + pw + t.width > limit {
                lemma_close_line_fits(st, limit);
            }
        }
    }
}

proof fn lemma_wrap_runs_fits<M: TextMeasurer>(m: &M, limit: usize, st: WrapState, f: Frag, rs: Seq<Seq<char>>)
    requires
        wrap_fits(st, limit),
    ensures
        wrap_fits(wrap_runs(m, limit, st, f, rs), limit),
    decreases rs.len(),
{
    if rs.len() > 0 {
        lemma_wrap_runs_fits(m, limit, st, f, rs.drop_last());
        lemma_wrap_token_fits(m, limit, wrap_runs(m, limit, st, f, rs.drop_last()), with_text(f, rs.last()));
    }
}

proof fn lemma_wrap_all_fits<M: TextMeasurer>(m: &M, limit: usize, fs: Seq<Frag>)
    ensures
        wrap_fits(wrap_all(m, limit, fs), limit),
    decreases fs.len(),
{
    if fs.len() > 0 {
        lemma_wrap_all_fits(m, limit, fs.drop_last());
        let st = wrap_all(m, limit, fs.drop_last());
        let f = fs.last();
        if f.text == newline() {
            if st.cur.len() > 0 {
                lemma_close_line_fits(st, limit);
                assert(close_line(st) == st.lines.push(line_of(st.cur, st.cur_w, max_u32(st.cur_h, 1))));
            } else {
                let ls = st.lines.push(line_of(Seq::empty(), 0, frag_line_height(f)));
                assert forall|i: int| 0 <= i < ls.len() implies line_fits(#[trigger] ls[i], limit) by {
                    if i < st.lines.len() {
                        assert(ls[i] == st.lines[i]);
                    }
                }
            }
        } else {
            lemma_wrap_runs_fits(m, limit, st, f, runs(f.text));
        }
    }
}

/// Wrapped lines fit the width: every line that wrapping gives is at most
/// `max_width` (taken as at least 1) wide, unless it holds a single
/// character that is wider than that on its own.
pub proof fn law_wrapped_lines_fit<M: TextMeasurer>(m: &M, max_width: usize, fs: Seq<Frag>)
    ensures
        all_fit(
            wrap_spec(m, max_width, fs),
            if max_width >= 1 {
                max_width
            } else {
                1
            },
        ),
{
    let limit: usize = if max_width >= 1 {
        max_width
    } else {
        1
    };
    lemma_wrap_all_fits(m, limit, fs);
    let st = wrap_all(m, limit, fs);
    if st.cur.len() > 0 {
        lemma_close_line_fits(st, limit);
    }
}

pub open spec fn opt_frag(p: Option<LayoutFragment>) -> Option<Frag> {
    match p {
        Some(f) => Some(f@),
        None => None,
    }
}

pub open spec fn state_of(
    lines: Seq<LayoutLine>,
    cur: Seq<LayoutFragment>,
    cur_w: usize,
    cur_h: u32,
    pending: Option<LayoutFragment>,
) -> WrapState {
    WrapState {
        lines: lines_view(lines),
        cur: frags_view(cur),
        cur_w,
        cur_h,
        pending: opt_frag(pending),
    }
}

/// What wrapping keeps: the line being filled fits, its fragments are no
/// wider than it, and an empty line has no size and no waiting space.
pub open spec fn wrap_good(st: WrapState, limit: usize) -> bool {
    &&& st.cur_w <= limit
    &&& forall|j: int| 0 <= j < st.cur.len() ==> (#[trigger] st.cur[j]).width <= st.cur_w
    &&& st.cur.len() == 0 ==> st.cur_w == 0 && st.cur_h == 0 && st.pending is None
}

fn max_height(a: u32, b: u32) -> (r: u32)
    ensures
        r == max_u32(a, b),
{
    if a >= b {
        a
    } else {
        b
    }
}

fn close_current_line(
    lines: &mut Vec<LayoutLine>,
    cur: &mut Vec<LayoutFragment>,
    cur_w: &mut usize,
    cur_h: &mut u32,
)
    ensures
        lines_view(final(lines)@) == close_line(
            state_of(old(lines)@, old(cur)@, *old(cur_w), *old(cur_h), None),
        ),
        final(cur)@.len() == 0,
        *final(cur_w) == 0,
        *final(cur_h) == 0,
{
    let mut taken: Vec<LayoutFragment> = Vec::new();
    std::mem::swap(&mut taken, cur);
    let ghost old_lines = lines_view(lines@);
    let line = make_line(taken, *cur_w, max_height(*cur_h, 1));
    let ghost lv = line@;
    lines.push(line);
    proof {
        assert(lines_view(lines@) =~= old_lines.push(lv));
    }
    *cur_w = 0;
    *cur_h = 0;
}

fn is_blank_text(s: &String) -> (r: bool)
    ensures
        r == all_ws(s@),
{
    let v = chars_of(s.as_str());
    let r = crate::text::is_blank(&v, 0, v.len());
    assert(v@.subrange(0, v.len() as int) =~= s@);
    r
}

fn wrap_token_exec<M: TextMeasurer>(
    measurer: &M,
    limit: usize,
    lines: &mut Vec<LayoutLine>,
    cur: &mut Vec<LayoutFragment>,
    cur_w: &mut usize,
    cur_h: &mut u32,
    pending: &mut Option<LayoutFragment>,
    token: LayoutFragment,
)
    requires
        wrap_good(state_of(old(lines)@, old(cur)@, *old(cur_w), *old(cur_h), *old(pending)), limit),
    ensures
        state_of(final(lines)@, final(cur)@, *final(cur_w), *final(cur_h), *final(pending))
            == wrap_token(
            measurer,
            limit,
            state_of(old(lines)@, old(cur)@, *old(cur_w), *old(cur_h), *old(pending)),
            token@,
        ),
        wrap_good(state_of(final(lines)@, final(cur)@, *final(cur_w), *final(cur_h), *final(pending)), limit),
{
    let ghost st = state_of(lines@, cur@, *cur_w, *cur_h, *pending);
    let ghost tok0 = token@;
    if is_blank_text(&token.text) {
        if cur.len() > 0 {
            *pending = Some(with_measured_width(token, measurer));
        }
        return;
    }
    let token = with_measured_width(token, measurer);
    if token.width > limit {
        if cur.len() > 0 {
            close_current_line(lines, cur, cur_w, cur_h);
        }
        let ghost base = lines_view(lines@);
        let broken = break_fragment(&token, limit, measurer);
        let mut k: usize = 0;
        while k < broken.len()
            invariant
                k <= broken.len(),
                lines_view(lines@) == base + broken_lines(frags_view(broken@.subrange(0, k as int))),
            decreases broken.len() - k,
        {
            let p = copy_fragment(&broken[k]);
            let h = fragment_line_height(&p);
            let w = p.width;
            let mut one: Vec<LayoutFragment> = Vec::new();
            one.push(p);
            let line = make_line(one, w, h);
            let ghost lv = line@;
            let ghost before = lines_view(lines@);
            lines.push(line);
            proof {
                assert(frags_view(one@) =~= seq![broken@[k as int]@]);
                assert(frags_view(broken@.subrange(0, k + 1)) =~= frags_view(
                    broken@.subrange(0, k as int),
                ).push(broken@[k as int]@));
                assert(lines_view(lines@) =~= before.push(lv));
                assert(broken_lines(frags_view(broken@.subrange(0, k + 1))) =~= broken_lines(
                    frags_view(broken@.subrange(0, k as int)),
                ).push(lv));
            }
            k = k + 1;
        }
        proof {
            assert(broken@.subrange(0, k as int) =~= broken@);
        }
        *pending = None;
        proof {
            assert(frags_view(cur@) =~= Seq::<Frag>::empty());
            assert(state_of(lines@, cur@, *cur_w, *cur_h, *pending) =~= wrap_token(
                measurer,
                limit,
                st,
                tok0,
            ));
        }
        return;
    }
    let pw: usize = match pending {
        Some(p) => p.width,
        None => 0,
    };
    if cur.len() > 0 && (pw > limit - *cur_w || token.width > limit - *cur_w - pw) {
        close_current_line(lines, cur, cur_w, cur_h);
        *pending = None;
    }
    let ghost st1 = state_of(lines@, cur@, *cur_w, *cur_h, *pending);
    proof {
        let t = token@;
        let pwn: nat = match st.pending {
            Some(p) => p.width as nat,
            None => 0,
        };
        if st.cur.len() > 0 && st.cur_w + pwn + t.width > limit {
            assert(frags_view(cur@) =~= Seq::<Frag>::empty());
            assert(st1 =~= fresh(close_line(st)));
        } else {
            assert(st1 =~= st);
        }
    }
    let taken = pending.take();
    match taken {
        Some(space) => {
            if cur.len() > 0 {
                let sw = space.width;
                let sh = fragment_line_height(&space);
                push_or_merge_fragment(cur, space);
                *cur_w = *cur_w + sw;
                *cur_h = max_height(*cur_h, sh);
            }
        },
        None => {},
    }
    let ghost st2 = state_of(lines@, cur@, *cur_w, *cur_h, *pending);
    proof {
        assert forall|j: int| 0 <= j < st2.cur.len() implies (#[trigger] st2.cur[j]).width <= st2.cur_w by {
            if st1.cur.len() > 0 && st1.pending is Some && j == st1.cur.len() - 1 {
            } else if j < st1.cur.len() {
                assert(st1.cur[j].width <= st1.cur_w);
            }
        }
    }
    proof {
        match st1.pending {
            Some(sp) => {
                if st1.cur.len() > 0 {
                    assert(st2 =~= WrapState {
                        cur: merge_frag(st1.cur, sp),
                        cur_w: (st1.cur_w + sp.width) as usize,
                        cur_h: max_u32(st1.cur_h, frag_line_height(sp)),
                        pending: None,
                        ..st1
                    });
                } else {
                    assert(st2 =~= WrapState { pending: None, ..st1 });
                }
            },
            None => {
                assert(st2 =~= st1);
            },
        }
    }
    let tw = token.width;
    let th = fragment_line_height(&token);
    push_or_merge_fragment(cur, token);
    *cur_w = *cur_w + tw;
    *cur_h = max_height(*cur_h, th);
    proof {
        let st3 = state_of(lines@, cur@, *cur_w, *cur_h, *pending);
        assert forall|j: int| 0 <= j < st3.cur.len() implies (#[trigger] st3.cur[j]).width <= st3.cur_w by {
            if j < st2.cur.len() {
                assert(st2.cur[j].width <= st2.cur_w);
            }
        }
        assert(st3 =~= wrap_token(measurer, limit, st, tok0));
    }
}

fn is_newline(s: &String) -> (r: bool)
    ensures
        r == (s@ == newline()),
{
    proof {
        reveal_strlit("\n");
        assert("\n"@ =~= newline());
    }
    str_is(s.as_str(), "\n")
}

/// Wraps inline fragments into lines no wider than `max_width` (at least
/// 1) where the words allow it (see `wrap_spec`).
pub fn wrap_fragments<M: TextMeasurer>(fragments: &Vec<LayoutFragment>, max_width: usize, measurer: &M) -> (r: Vec<LayoutLine>)
    ensures
        lines_view(r@) == wrap_spec(measurer, max_width, frags_view(fragments@)),
{
    let width_limit: usize = if max_width >= 1 {
        max_width
    } else {
        1
    };
    let mut lines: Vec<LayoutLine> = Vec::new();
    let mut cur: Vec<LayoutFragment> = Vec::new();
    let mut cur_w: usize = 0;
    let mut cur_h: u32 = 0;
    let mut pending: Option<LayoutFragment> = None;
    let ghost fs = frags_view(fragments@);
    proof {
        assert(state_of(lines@, cur@, cur_w, cur_h, pending) =~= fresh(Seq::empty()));
        assert(fs.subrange(0, 0) =~= Seq::<Frag>::empty());
    }
    let mut i: usize = 0;
    while i < fragments.len()
        invariant
            i <= fragments.len(),
            fs == frags_view(fragments@),
            width_limit >= 1,
            width_limit == (if max_width >= 1 {
                max_width
            } else {
                1
            }),
            state_of(lines@, cur@, cur_w, cur_h, pending) == wrap_all(
                measurer,
                width_limit,
                fs.subrange(0, i as int),
            ),
            wrap_good(state_of(lines@, cur@, cur_w, cur_h, pending), width_limit),
        decreases fragments.len() - i,
    {
        let fragment = &fragments[i];
        proof {
            assert(fs.subrange(0, i + 1).drop_last() =~= fs.subrange(0, i as int));
            assert(fs.subrange(0, i + 1).last() == fragment@);
        }
        let ghost st0 = state_of(lines@, cur@, cur_w, cur_h, pending);
        if is_newline(&fragment.text) {
            if cur.len() > 0 {
                close_current_line(&mut lines, &mut cur, &mut cur_w, &mut cur_h);
            } else {
                let h = fragment_line_height(fragment);
                let line = make_line(Vec::new(), 0, h);
                let ghost lv = line@;
                let ghost before = lines_view(lines@);
                lines.push(line);
                proof {
                    assert(frags_view(Seq::<LayoutFragment>::empty()) =~= Seq::<Frag>::empty());
                    assert(lines_view(lines@) =~= before.push(lv));
                }
            }
            cur_w = 0;
            cur_h = 0;
            pending = None;
            proof {
                assert(frags_view(cur@) =~= Seq::<Frag>::empty());
                assert(state_of(lines@, cur@, cur_w, cur_h, pending) =~= wrap_frag(
                    measurer,
                    width_limit,
                    st0,
                    fragment@,
                ));
            }
        } else {
            let tokens = tokenize_fragment(fragment);
            let ghost rs = runs(fragment.text@);
            let mut k: usize = 0;
            proof {
                assert(rs.subrange(0, 0) =~= Seq::<Seq<char>>::empty());
                assert(frags_view(tokens@).len() == tokens@.len());
            }
            while k < tokens.len()
                invariant
                    k <= tokens.len(),
                    tokens@.len() == rs.len(),
                    rs == runs(fragment.text@),
                    frags_view(tokens@) == rs.map_values(|t: Seq<char>| with_text(fragment@, t)),
                    state_of(lines@, cur@, cur_w, cur_h, pending) == wrap_runs(
                        measurer,
                        width_limit,
                        st0,
                        fragment@,
                        rs.subrange(0, k as int),
                    ),
                    wrap_good(state_of(lines@, cur@, cur_w, cur_h, pending), width_limit),
                decreases tokens.len() - k,
            {
                let token = copy_fragment(&tokens[k]);
                proof {
                    assert(rs.subrange(0, k + 1).drop_last() =~= rs.subrange(0, k as int));
                    assert(frags_view(tokens@)[k as int] == tokens@[k as int]@);
                    assert(token@ == with_text(fragment@, rs[k as int]));
                }
                wrap_token_exec(
                    measurer,
                    width_limit,
                    &mut lines,
                    &mut cur,
                    &mut cur_w,
                    &mut cur_h,
                    &mut pending,
                    token,
                );
                k = k + 1;
            }
            proof {
                assert(rs.subrange(0, k as int) =~= rs);
            }
        }
        i = i + 1;
    }
    proof {
        assert(fs.subrange(0, i as int) =~= fs);
    }
    if cur.len() > 0 {
        close_current_line(&mut lines, &mut cur, &mut cur_w, &mut cur_h);
    }
    lines
}

// ---------------------------------------------------------------------------
// Inline content

/// A run of text in an inline style.
pub open spec fn text_frag(t: Seq<char>, st: BoxStyle, href: Option<Seq<char>>) -> Frag {
    Frag {
        text: t,
        width: 0,
        color: st.color,
        font_weight: st.font_weight,
        underline: st.underline,
        font_size: st.font_size,
        line_height: st.line_height,
        href,
        background: st.background,
    }
}

/// The line break of a `<br>`.
pub open spec fn br_frag(st: BoxStyle) -> Frag {
    Frag {
        text: newline(),
        width: 0,
        color: st.color,
        font_weight: st.font_weight,
        underline: false,
        font_size: st.font_size,
        line_height: st.line_height,
        href: None,
        background: None,
    }
}

/// The link target inside an element: an `<a href>` sets it, other elements
/// pass on the one around them.
pub open spec fn element_href(tag: Seq<char>, attrs: crate::dom::Attrs, inherited: Option<Seq<char>>) -> Option<Seq<char>> {
    if tag == "a"@ {
        match attr_lookup(attrs, "href"@) {
            Some(v) => Some(v),
            None => inherited,
        }
    } else {
        inherited
    }
}

/// The fragments of an inline node, in document order, in the style and
/// under the link it inherits. Hidden and block children are skipped.
pub open spec fn inline_frags(n: StyledModel, inh: BoxStyle, href: Option<Seq<char>>) -> Seq<Frag>
    decreases n, n.children.len() + 1,
{
    match n.kind {
        Kind::Text(t) => if t.len() == 0 {
            Seq::empty()
        } else {
            seq![text_frag(t, inh, href)]
        },
        Kind::Element { tag, attrs } => if tag == "br"@ {
            seq![br_frag(inh)]
        } else {
            inline_kids(
                n,
                n.children.len() as int,
                merge_style(inh, box_style_of(n.style)),
                element_href(tag, attrs, href),
            )
        },
        Kind::Document => Seq::empty(),
    }
}

pub open spec fn inline_kids(n: StyledModel, k: int, st: BoxStyle, href: Option<Seq<char>>) -> Seq<Frag>
    decreases n, k,
{
    if k <= 0 || k > n.children.len() {
        Seq::empty()
    } else {
        let c = n.children[k - 1];
        inline_kids(n, k - 1, st, href) + if c.style.display != Display::Hidden && is_inline(c) {
            inline_frags(c, st, href)
        } else {
            Seq::empty()
        }
    }
}

fn copy_opt_string(o: &Option<String>) -> (r: Option<String>)
    ensures
        opt_view(r) == opt_view(*o),
{
    copy_opt(o)
}

fn link_target(element: &ElementData, inherited_href: Option<String>) -> (r: Option<String>)
    ensures
        opt_view(r) == element_href(element.tag(), element.attrs(), opt_view(inherited_href)),
{
    if str_is(element.tag_name.as_str(), "a") {
        match crate::style::attribute_value(element, "href") {
            Some(value) => Some(copy_string(value)),
            None => inherited_href,
        }
    } else {
        inherited_href
    }
}

/// Appends the fragments of an inline node (see `inline_frags`).
pub fn collect_inline_fragments(
    node: &StyledNode,
    inherited_style: &LayoutStyle,
    inherited_href: Option<String>,
    output: &mut Vec<LayoutFragment>,
)
    ensures
        frags_view(final(output)@) == frags_view(old(output)@) + inline_frags(
            node@,
            inherited_style@,
            opt_view(inherited_href),
        ),
    decreases node,
{
    let ghost before = frags_view(output@);
    let ghost n = node@;
    match &node.node_type {
        NodeType::Text(text) => {
            if text.as_str().is_empty() {
                assert(frags_view(output@) =~= before + inline_frags(
                    n,
                    inherited_style@,
                    opt_view(inherited_href),
                ));
                return;
            }
            let f = LayoutFragment {
                text: copy_string(text),
                width: 0,
                color: copy_string(&inherited_style.color),
                font_weight: inherited_style.font_weight,
                underline: inherited_style.underline,
                font_size: inherited_style.font_size,
                line_height: inherited_style.line_height,
                href: inherited_href,
                background_color: copy_opt(&inherited_style.background_color),
            };
            let ghost fv = f@;
            output.push(f);
            proof {
                assert(frags_view(output@) =~= before.push(fv));
                assert(frags_view(output@) =~= before + inline_frags(
                    n,
                    inherited_style@,
                    opt_view(inherited_href),
                ));
            }
        },
        NodeType::Element(element) => {
            if str_is(element.tag_name.as_str(), "br") {
                let f = LayoutFragment {
                    text: String::from_str("\n"),
                    width: 0,
                    color: copy_string(&inherited_style.color),
                    font_weight: inherited_style.font_weight,
                    underline: false,
                    font_size: inherited_style.font_size,
                    line_height: inherited_style.line_height,
                    href: None,
                    background_color: None,
                };
                proof {
                    reveal_strlit("\n");
                    assert("\n"@ =~= newline());
                }
                let ghost fv = f@;
                output.push(f);
                proof {
                    assert(frags_view(output@) =~= before.push(fv));
                    assert(frags_view(output@) =~= before + inline_frags(
                        n,
                        inherited_style@,
                        opt_view(inherited_href),
                    ));
                }
                return;
            }
            let own = to_layout_style(node);
            let style = merge_inline_style(inherited_style, &own);
            let ghost h0 = opt_view(inherited_href);
            let href = link_target(element, inherited_href);
            let ghost st = style@;
            let ghost hv = opt_view(href);
            let mut i: usize = 0;
            proof {
                assert(before + inline_kids(n, 0, st, hv) =~= before);
            }
            while i < node.children.len()
                invariant
                    i <= node.children.len(),
                    n == node@,
                    st == style@,
                    hv == opt_view(href),
                    frags_view(output@) == before + inline_kids(n, i as int, st, hv),
                decreases node.children.len() - i,
            {
                let child = &node.children[i];
                proof {
                    assert(n.children[i as int] == child@);
                }
                let ghost mid = frags_view(output@);
                if child.style.display != Display::Hidden && is_inline_node(child) {
                    collect_inline_fragments(child, &style, copy_opt_string(&href), output);
                }
                proof {
                    assert(frags_view(output@) =~= before + inline_kids(n, i + 1, st, hv));
                }
                i = i + 1;
            }
            proof {
                assert(inline_frags(n, inherited_style@, h0) == inline_kids(
                    n,
                    n.children.len() as int,
                    st,
                    hv,
                ));
            }
        },
        NodeType::Document => {
            assert(frags_view(output@) =~= before + inline_frags(
                n,
                inherited_style@,
                opt_view(inherited_href),
            ));
        },
    }
}

// ---------------------------------------------------------------------------
// Boxes

pub open spec fn sat_add(a: usize, b: usize) -> usize {
    if a + b > usize::MAX {
        usize::MAX
    } else {
        (a + b) as usize
    }
}

pub open spec fn sat_sub(a: usize, b: usize) -> usize {
    if a >= b {
        (a - b) as usize
    } else {
        0
    }
}

/// The width available to a block's content: its `width` if set, otherwise
/// what its margins and paddings leave; never more than its margins leave
/// and never under 1.
pub open spec fn avail_width(st: StyleModel, max_width: usize) -> usize {
    let mh = sat_add(st.margin.left, st.margin.right);
    let overhead = sat_add(mh, sat_add(st.padding.left, st.padding.right));
    let w = match st.width {
        Some(w) => w,
        None => sat_sub(max_width, overhead),
    };
    let cap = sat_sub(max_width, mh);
    let w2 = if w <= cap {
        w
    } else {
        cap
    };
    if w2 >= 1 {
        w2
    } else {
        1
    }
}

/// The text of a text node's own box, in the default inline style.
pub open spec fn plain_frag(t: Seq<char>) -> Frag {
    Frag {
        text: t,
        width: 0,
        color: "default"@,
        font_weight: FontWeight::Normal,
        underline: false,
        font_size: 16,
        line_height: LineHeight::Normal,
        href: None,
        background: None,
    }
}

/// The line break of a `<br>` box.
pub open spec fn br_box_frag(st: StyleModel) -> Frag {
    Frag {
        text: newline(),
        width: 0,
        color: st.color,
        font_weight: st.font_weight,
        underline: st.underline,
        font_size: st.font_size,
        line_height: st.line_height,
        href: None,
        background: None,
    }
}

/// The state of a block's layout after some of its children: its lines,
/// its child boxes, and the inline fragments waiting to be wrapped.
#[verifier::ext_equal]
pub struct BlockState {
    pub lines: Seq<Line>,
    pub children: Seq<BoxModel>,
    pub inline: Seq<Frag>,
}

pub open spec fn flush_inline<M: TextMeasurer>(m: &M, avail: usize, st: BlockState) -> Seq<Line> {
    if st.inline.len() > 0 {
        st.lines + wrap_spec(m, avail, st.inline)
    } else {
        st.lines
    }
}

/// A block's first `k` children: inline ones add fragments, block ones
/// first wrap the waiting fragments into lines and then add their box.
pub open spec fn block_state<M: TextMeasurer>(m: &M, n: StyledModel, k: int, avail: usize) -> BlockState
    decreases n, k,
{
    if k <= 0 || k > n.children.len() {
        BlockState { lines: Seq::empty(), children: Seq::empty(), inline: Seq::empty() }
    } else {
        let st = block_state(m, n, k - 1, avail);
        let c = n.children[k - 1];
        if c.style.display == Display::Hidden {
            st
        } else if is_inline(c) {
            BlockState { inline: st.inline + inline_frags(c, box_style_of(n.style), None), ..st }
        } else {
            BlockState {
                lines: flush_inline(m, avail, st),
                children: st.children.push(build_box(m, c, avail)),
                inline: Seq::empty(),
            }
        }
    }
}

/// The boxes of a document's first `k` children that are not hidden.
pub open spec fn doc_kids<M: TextMeasurer>(m: &M, n: StyledModel, k: int, max_width: usize) -> Seq<BoxModel>
    decreases n, k,
{
    if k <= 0 || k > n.children.len() {
        Seq::empty()
    } else {
        let c = n.children[k - 1];
        doc_kids(m, n, k - 1, max_width) + if c.style.display != Display::Hidden {
            seq![build_box(m, c, max_width)]
        } else {
            Seq::empty()
        }
    }
}

/// The layout box of a styled node laid out in `max_width`.
pub open spec fn build_box<M: TextMeasurer>(m: &M, n: StyledModel, max_width: usize) -> BoxModel
    decreases n, n.children.len() + 1,
{
    let style = box_style_of(n.style);
    match n.kind {
        Kind::Document => BoxModel {
            kind: BoxKind::Document,
            lines: Seq::empty(),
            children: doc_kids(m, n, n.children.len() as int, max_width),
            style,
        },
        Kind::Element { tag, .. } => if tag == "br"@ {
            let bf = br_box_frag(n.style);
            BoxModel {
                kind: BoxKind::Block(tag),
                lines: seq![line_of(seq![bf], 0, frag_line_height(bf))],
                children: Seq::empty(),
                style,
            }
        } else {
            let avail = avail_width(n.style, max_width);
            let st = block_state(m, n, n.children.len() as int, avail);
            BoxModel {
                kind: BoxKind::Block(tag),
                lines: flush_inline(m, avail, st),
                children: st.children,
                style,
            }
        },
        Kind::Text(t) => BoxModel {
            kind: BoxKind::Text,
            lines: wrap_spec(m, max_width, seq![plain_frag(t)]),
            children: Seq::empty(),
            style,
        },
    }
}

/// Lays out a styled tree in `max_width` with the approximate text measurer.
pub fn build(node: &StyledNode, max_width: usize) -> (r: LayoutBox)
    ensures
        r@ == build_box(&ApproximateTextMeasurer, node@, max_width),
{
    build_with_measurer(node, max_width, &ApproximateTextMeasurer)
}

fn available_width(style: &crate::style::ComputedStyle, max_width: usize) -> (r: usize)
    ensures
        r == avail_width(style@, max_width),
{
    let mh = style.margin.left.saturating_add(style.margin.right);
    let overhead = mh.saturating_add(style.padding.left.saturating_add(style.padding.right));
    let w = match style.width {
        Some(w) => w,
        None => max_width.saturating_sub(overhead),
    };
    let cap = max_width.saturating_sub(mh);
    let w2 = if w <= cap {
        w
    } else {
        cap
    };
    if w2 >= 1 {
        w2
    } else {
        1
    }
}

fn append_lines(lines: &mut Vec<LayoutLine>, more: Vec<LayoutLine>)
    ensures
        lines_view(final(lines)@) == lines_view(old(lines)@) + lines_view(more@),
{
    let mut more = more;
    let ghost a = lines_view(lines@);
    let ghost b = lines_view(more@);
    lines.append(&mut more);
    assert(lines_view(lines@) =~= a + b);
}

/// Lays out a styled tree in `max_width`, measuring text with `measurer`
/// (see `build_box`).
pub fn build_with_measurer<M: TextMeasurer>(node: &StyledNode, max_width: usize, measurer: &M) -> (r: LayoutBox)
    ensures
        r@ == build_box(measurer, node@, max_width),
    decreases node,
{
    let ghost n = node@;
    match &node.node_type {
        NodeType::Document => {
            let mut children: Vec<LayoutBox> = Vec::new();
            let mut i: usize = 0;
            proof {
                assert(boxes_view(children@) =~= doc_kids(measurer, n, 0, max_width));
            }
            while i < node.children.len()
                invariant
                    i <= node.children.len(),
                    n == node@,
                    boxes_view(children@) == doc_kids(measurer, n, i as int, max_width),
                decreases node.children.len() - i,
            {
                let child = &node.children[i];
                proof {
                    assert(n.children[i as int] == child@);
                }
                let ghost before = boxes_view(children@);
                if child.style.display != Display::Hidden {
                    let b = build_with_measurer(child, max_width, measurer);
                    let ghost bv = b@;
                    children.push(b);
                    proof {
                        assert(boxes_view(children@) =~= before.push(bv));
                    }
                }
                proof {
                    assert(boxes_view(children@) =~= doc_kids(measurer, n, i + 1, max_width));
                }
                i = i + 1;
            }
            let r = LayoutBox {
                kind: LayoutKind::Document,
                lines: Vec::new(),
                children,
                style: to_layout_style(node),
            };
            proof {
                assert(r@.children =~= boxes_view(r.children@));
                assert(r@.lines =~= Seq::<Line>::empty());
                assert(r@ =~~= build_box(measurer, n, max_width));
            }
            r
        },
        NodeType::Element(element) => {
            if str_is(element.tag_name.as_str(), "br") {
                let f = LayoutFragment {
                    text: String::from_str("\n"),
                    width: 0,
                    color: copy_string(&node.style.color),
                    font_weight: node.style.font_weight,
                    underline: node.style.underline,
                    font_size: node.style.font_size,
                    line_height: node.style.line_height,
                    href: None,
                    background_color: None,
                };
                proof {
                    reveal_strlit("\n");
                    assert("\n"@ =~= newline());
                }
                let h = fragment_line_height(&f);
                let mut one: Vec<LayoutFragment> = Vec::new();
                let ghost fv = f@;
                one.push(f);
                let line = make_line(one, 0, h);
                let mut lines: Vec<LayoutLine> = Vec::new();
                let ghost lv = line@;
                lines.push(line);
                let r = LayoutBox {
                    kind: LayoutKind::Block { tag_name: copy_string(&element.tag_name) },
                    lines,
                    children: Vec::new(),
                    style: to_layout_style(node),
                };
                proof {
                    assert(frags_view(one@) =~= seq![fv]);
                    assert(r@.lines =~= seq![lv]);
                    assert(r@.children =~= Seq::<BoxModel>::empty());
                    assert(r@ =~~= build_box(measurer, n, max_width));
                }
                return r;
            }
            let available = available_width(&node.style, max_width);
            let base_style = to_layout_style(node);
            let mut children: Vec<LayoutBox> = Vec::new();
            let mut lines: Vec<LayoutLine> = Vec::new();
            let mut inline_fragments: Vec<LayoutFragment> = Vec::new();
            let mut i: usize = 0;
            proof {
                assert((BlockState {
                    lines: lines_view(lines@),
                    children: boxes_view(children@),
                    inline: frags_view(inline_fragments@),
                }) =~= block_state(measurer, n, 0, available));
            }
            while i < node.children.len()
                invariant
                    i <= node.children.len(),
                    n == node@,
                    base_style@ == box_style_of(n.style),
                    available == avail_width(n.style, max_width),
                    (BlockState {
                        lines: lines_view(lines@),
                        children: boxes_view(children@),
                        inline: frags_view(inline_fragments@),
                    }) == block_state(measurer, n, i as int, available),
                decreases node.children.len() - i,
            {
                let child = &node.children[i];
                proof {
                    assert(n.children[i as int] == child@);
                }
                let ghost st = block_state(measurer, n, i as int, available);
                if child.style.display == Display::Hidden {
                } else if is_inline_node(child) {
                    collect_inline_fragments(child, &base_style, None, &mut inline_fragments);
                } else {
                    if inline_fragments.len() > 0 {
                        let wrapped = wrap_fragments(&inline_fragments, available, measurer);
                        append_lines(&mut lines, wrapped);
                        inline_fragments = Vec::new();
                    }
                    let b = build_with_measurer(child, available, measurer);
                    let ghost bv = b@;
                    let ghost before = boxes_view(children@);
                    children.push(b);
                    proof {
                        assert(boxes_view(children@) =~= before.push(bv));
                    }
                }
                proof {
                    assert(frags_view(Seq::<LayoutFragment>::empty()) =~= Seq::<Frag>::empty());
                    assert((BlockState {
                        lines: lines_view(lines@),
                        children: boxes_view(children@),
                        inline: frags_view(inline_fragments@),
                    }) =~= block_state(measurer, n, i + 1, available));
                }
                i = i + 1;
            }
            if inline_fragments.len() > 0 {
                let wrapped = wrap_fragments(&inline_fragments, available, measurer);
                append_lines(&mut lines, wrapped);
            }
            let r = LayoutBox {
                kind: LayoutKind::Block { tag_name: copy_string(&element.tag_name) },
                lines,
                children,
                style: base_style,
            };
            proof {
                assert(r@.children =~= boxes_view(r.children@));
                assert(r@ =~~= build_box(measurer, n, max_width));
            }
            r
        },
        NodeType::Text(text) => {
            let f = LayoutFragment {
                text: copy_string(text),
                width: 0,
                color: String::from_str("default"),
                font_weight: FontWeight::Normal,
                underline: false,
                font_size: 16,
                line_height: LineHeight::Normal,
                href: None,
                background_color: None,
            };
            let mut one: Vec<LayoutFragment> = Vec::new();
            let ghost fv = f@;
            one.push(f);
            proof {
                assert(frags_view(one@) =~= seq![plain_frag(match n.kind {
                    Kind::Text(t) => t,
                    _ => Seq::empty(),
                })]);
            }
            let lines = wrap_fragments(&one, max_width, measurer);
            let r = LayoutBox {
                kind: LayoutKind::Text,
                lines,
                children: Vec::new(),
                style: to_layout_style(node),
            };
            proof {
                assert(r@.children =~= Seq::<BoxModel>::empty());
                assert(r@ =~~= build_box(measurer, n, max_width));
            }
            r
        },
    }
}

} // verus!

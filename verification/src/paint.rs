//! Display-list generation: positioned rectangles and text runs, and the
//! regions of links, for a layout tree.
use vstd::prelude::*;

use crate::layout::{
    BoxKind, BoxModel, Frag, LayoutBox, LayoutKind, Line, line_height_for, line_height_px,
};
use crate::style::{FontWeight, LineHeight};
use crate::text::{copy_string, lower_seq, str_is, trim, lowered, trimmed};

verus! {

pub const CHAR_WIDTH: u32 = 8;

pub const LINE_HEIGHT: u32 = 18;

pub const H_PADDING: u32 = 16;

pub const V_PADDING: u32 = 16;

#[derive(Debug, Clone, PartialEq, Eq)]
pub struct DisplayList {
    pub width: u32,
    pub height: u32,
    pub commands: Vec<DisplayCommand>,
    pub link_regions: Vec<LinkRegion>,
    pub background: Color,
}

#[derive(Debug, Clone, PartialEq, Eq)]
pub struct LinkRegion {
    pub x: u32,
    pub y: u32,
    pub width: u32,
    pub height: u32,
    pub target: String,
}

#[derive(Debug, Clone, PartialEq, Eq)]
pub enum DisplayCommand {
    FillRect { x: u32, y: u32, width: u32, height: u32, color: Color },
    DrawText {
        x: u32,
        y: u32,
        text: String,
        width: u32,
        line_height: u32,
        color: Color,
        font_weight: FontWeight,
        underline: bool,
        font_size: u32,
    },
}

#[derive(Debug, Clone, Copy, PartialEq, Eq, Structural)]
pub struct Color {
    pub r: u8,
    pub g: u8,
    pub b: u8,
    pub a: u8,
}

impl Color {
    pub open spec fn opaque(r: u8, g: u8, b: u8) -> Color {
        Color { r, g, b, a: 0xff }
    }

    pub fn rgb(r: u8, g: u8, b: u8) -> (c: Self)
        ensures
            c == Color::opaque(r, g, b),
    {
        Self { r, g, b, a: 0xff }
    }
}

/// The model of a display command.
pub enum Cmd {
    Fill { x: u32, y: u32, width: u32, height: u32, color: Color },
    Text {
        x: u32,
        y: u32,
        text: Seq<char>,
        width: u32,
        line_height: u32,
        color: Color,
        font_weight: FontWeight,
        underline: bool,
        font_size: u32,
    },
}

/// The model of a link region.
pub struct Link {
    pub x: u32,
    pub y: u32,
    pub width: u32,
    pub height: u32,
    pub target: Seq<char>,
}

impl View for DisplayCommand {
    type V = Cmd;

    open spec fn view(&self) -> Cmd {
        match self {
            DisplayCommand::FillRect { x, y, width, height, color } => Cmd::Fill {
                x: *x,
                y: *y,
                width: *width,
                height: *height,
                color: *color,
            },
            DisplayCommand::DrawText {
                x,
                y,
                text,
                width,
                line_height,
                color,
                font_weight,
                underline,
                font_size,
            } => Cmd::Text {
                x: *x,
                y: *y,
                text: text@,
                width: *width,
                line_height: *line_height,
                color: *color,
                font_weight: *font_weight,
                underline: *underline,
                font_size: *font_size,
            },
        }
    }
}

impl View for LinkRegion {
    type V = Link;

    open spec fn view(&self) -> Link {
        Link { x: self.x, y: self.y, width: self.width, height: self.height, target: self.target@ }
    }
}

pub open spec fn cmds_view(v: Seq<DisplayCommand>) -> Seq<Cmd> {
    v.map_values(|c: DisplayCommand| c@)
}

pub open spec fn links_view(v: Seq<LinkRegion>) -> Seq<Link> {
    v.map_values(|l: LinkRegion| l@)
}

// ---------------------------------------------------------------------------
// Colors

pub open spec fn hex_val(b: u8) -> Option<u8> {
    if 48 <= b <= 57 {
        Some((b - 48) as u8)
    } else if 97 <= b <= 102 {
        Some((b - 87) as u8)
    } else if 65 <= b <= 70 {
        Some((b - 55) as u8)
    } else {
        None
    }
}

/// `u8::from_str_radix(_, 16)` of a two-byte text: two hex digits, or `+`
/// and one.
pub open spec fn hex_pair(b1: u8, b2: u8) -> Option<u8> {
    if b1 == 43 {
        hex_val(b2)
    } else {
        match (hex_val(b1), hex_val(b2)) {
            (Some(h), Some(l)) => Some((h * 16 + l) as u8),
            _ => None,
        }
    }
}

pub open spec fn or_30(v: Option<u8>) -> u8 {
    match v {
        Some(x) => x,
        None => 30,
    }
}

/// The color a CSS color value names: a few named colors (`default` is the
/// text color), `#rrggbb` (a component that does not parse is 30), and
/// dark gray otherwise.
pub open spec fn color_of(value: Seq<char>) -> Color {
    let n = lower_seq(trim(value));
    let b = vstd::utf8::encode_utf8(n);
    if n == "default"@ || n == "black"@ {
        Color::opaque(30, 30, 30)
    } else if n == "white"@ {
        Color::opaque(255, 255, 255)
    } else if n == "red"@ {
        Color::opaque(204, 58, 58)
    } else if n == "blue"@ {
        Color::opaque(51, 102, 204)
    } else if n == "navy"@ {
        Color::opaque(27, 54, 93)
    } else if n == "yellow"@ {
        Color::opaque(244, 208, 63)
    } else if n == "beige"@ {
        Color::opaque(245, 245, 220)
    } else if n == "tomato"@ {
        Color::opaque(255, 99, 71)
    } else if n == "gray"@ || n == "grey"@ {
        Color::opaque(130, 130, 130)
    } else if n.len() > 0 && n[0] == '#' && b.len() == 7 {
        Color::opaque(
            or_30(hex_pair(b[1], b[2])),
            or_30(hex_pair(b[3], b[4])),
            or_30(hex_pair(b[5], b[6])),
        )
    } else {
        Color::opaque(30, 30, 30)
    }
}

/// Named colors ignore case and surrounding whitespace and each names its
/// fixed color; `default` and `black` name the text color, and `white`
/// names white, which differs from it.
pub proof fn law_named_colors(value: Seq<char>)
    ensures
        lower_seq(trim(value)) == "default"@ ==> color_of(value) == Color::opaque(30, 30, 30),
        lower_seq(trim(value)) == "black"@ ==> color_of(value) == Color::opaque(30, 30, 30),
        lower_seq(trim(value)) == "white"@ ==> color_of(value) == Color::opaque(255, 255, 255),
        lower_seq(trim(value)) == "red"@ ==> color_of(value) == Color::opaque(204, 58, 58),
        lower_seq(trim(value)) == "blue"@ ==> color_of(value) == Color::opaque(51, 102, 204),
        lower_seq(trim(value)) == "navy"@ ==> color_of(value) == Color::opaque(27, 54, 93),
        lower_seq(trim(value)) == "yellow"@ ==> color_of(value) == Color::opaque(244, 208, 63),
        lower_seq(trim(value)) == "beige"@ ==> color_of(value) == Color::opaque(245, 245, 220),
        lower_seq(trim(value)) == "tomato"@ ==> color_of(value) == Color::opaque(255, 99, 71),
        lower_seq(trim(value)) == "gray"@ ==> color_of(value) == Color::opaque(130, 130, 130),
        lower_seq(trim(value)) == "grey"@ ==> color_of(value) == Color::opaque(130, 130, 130),
        Color::opaque(255, 255, 255) != Color::opaque(30, 30, 30),
{
    let n = lower_seq(trim(value));
    reveal_strlit("default");
    reveal_strlit("black");
    reveal_strlit("white");
    reveal_strlit("red");
    reveal_strlit("blue");
    reveal_strlit("navy");
    reveal_strlit("yellow");
    reveal_strlit("beige");
    reveal_strlit("tomato");
    reveal_strlit("gray");
    reveal_strlit("grey");
    if n == "black"@ {
        assert("black"@.len() != "default"@.len());
        assert("black"@ != "default"@);
    }
    if n == "white"@ {
        assert("white"@.len() != "default"@.len());
        assert("white"@ != "default"@);
        assert("white"@[0] != "black"@[0]);
        assert("white"@ != "black"@);
    }
    if n == "red"@ {
        assert("red"@.len() != "default"@.len());
        assert("red"@ != "default"@);
        assert("red"@.len() != "black"@.len());
        assert("red"@ != "black"@);
        assert("red"@.len() != "white"@.len());
        assert("red"@ != "white"@);
    }
    if n == "blue"@ {
        assert("blue"@.len() != "default"@.len());
        assert("blue"@ != "default"@);
        assert("blue"@.len() != "black"@.len());
        assert("blue"@ != "black"@);
        assert("blue"@.len() != "white"@.len());
        assert("blue"@ != "white"@);
        assert("blue"@.len() != "red"@.len());
        assert("blue"@ != "red"@);
    }
    if n == "navy"@ {
        assert("navy"@.len() != "default"@.len());
        assert("navy"@ != "default"@);
        assert("navy"@.len() != "black"@.len());
        assert("navy"@ != "black"@);
        assert("navy"@.len() != "white"@.len());
        assert("navy"@ != "white"@);
        assert("navy"@.len() != "red"@.len());
        assert("navy"@ != "red"@);
        assert("navy"@[0] != "blue"@[0]);
        assert("navy"@ != "blue"@);
    }
    if n == "yellow"@ {
        assert("yellow"@.len() != "default"@.len());
        assert("yellow"@ != "default"@);
        assert("yellow"@.len() != "black"@.len());
        assert("yellow"@ != "black"@);
        assert("yellow"@.len() != "white"@.len());
        assert("yellow"@ != "white"@);
        assert("yellow"@.len() != "red"@.len());
        assert("yellow"@ != "red"@);
        assert("yellow"@.len() != "blue"@.len());
        assert("yellow"@ != "blue"@);
        assert("yellow"@.len() != "navy"@.len());
        assert("yellow"@ != "navy"@);
    }
    if n == "beige"@ {
        assert("beige"@.len() != "default"@.len());
        assert("beige"@ != "default"@);
        assert("beige"@[1] != "black"@[1]);
        assert("beige"@ != "black"@);
        assert("beige"@[0] != "white"@[0]);
        assert("beige"@ != "white"@);
        assert("beige"@.len() != "red"@.len());
        assert("beige"@ != "red"@);
        assert("beige"@.len() != "blue"@.len());
        assert("beige"@ != "blue"@);
        assert("beige"@.len() != "navy"@.len());
        assert("beige"@ != "navy"@);
        assert("beige"@.len() != "yellow"@.len());
        assert("beige"@ != "yellow"@);
    }
    if n == "tomato"@ {
        assert("tomato"@.len() != "default"@.len());
        assert("tomato"@ != "default"@);
        assert("tomato"@.len() != "black"@.len());
        assert("tomato"@ != "black"@);
        assert("tomato"@.len() != "white"@.len());
        assert("tomato"@ != "white"@);
        assert("tomato"@.len() != "red"@.len());
        assert("tomato"@ != "red"@);
        assert("tomato"@.len() != "blue"@.len());
        assert("tomato"@ != "blue"@);
        assert("tomato"@.len() != "navy"@.len());
        assert("tomato"@ != "navy"@);
        assert("tomato"@[0] != "yellow"@[0]);
        assert("tomato"@ != "yellow"@);
        assert("tomato"@.len() != "beige"@.len());
        assert("tomato"@ != "beige"@);
    }
    if n == "gray"@ {
        assert("gray"@.len() != "default"@.len());
        assert("gray"@ != "default"@);
        assert("gray"@.len() != "black"@.len());
        assert("gray"@ != "black"@);
        assert("gray"@.len() != "white"@.len());
        assert("gray"@ != "white"@);
        assert("gray"@.len() != "red"@.len());
        assert("gray"@ != "red"@);
        assert("gray"@[0] != "blue"@[0]);
        assert("gray"@ != "blue"@);
        assert("gray"@[0] != "navy"@[0]);
        assert("gray"@ != "navy"@);
        assert("gray"@.len() != "yellow"@.len());
        assert("gray"@ != "yellow"@);
        assert("gray"@.len() != "beige"@.len());
        assert("gray"@ != "beige"@);
        assert("gray"@.len() != "tomato"@.len());
        assert("gray"@ != "tomato"@);
    }
    if n == "grey"@ {
        assert("grey"@.len() != "default"@.len());
        assert("grey"@ != "default"@);
        assert("grey"@.len() != "black"@.len());
        assert("grey"@ != "black"@);
        assert("grey"@.len() != "white"@.len());
        assert("grey"@ != "white"@);
        assert("grey"@.len() != "red"@.len());
        assert("grey"@ != "red"@);
        assert("grey"@[0] != "blue"@[0]);
        assert("grey"@ != "blue"@);
        assert("grey"@[0] != "navy"@[0]);
        assert("grey"@ != "navy"@);
        assert("grey"@.len() != "yellow"@.len());
        assert("grey"@ != "yellow"@);
        assert("grey"@.len() != "beige"@.len());
        assert("grey"@ != "beige"@);
        assert("grey"@.len() != "tomato"@.len());
        assert("grey"@ != "tomato"@);
        assert("grey"@[2] != "gray"@[2]);
        assert("grey"@ != "gray"@);
    }
}

fn hex_digit(b: u8) -> (r: Option<u8>)
    ensures
        r == hex_val(b),
{
    if 48 <= b && b <= 57 {
        Some(b - 48)
    } else if 97 <= b && b <= 102 {
        Some(b - 87)
    } else if 65 <= b && b <= 70 {
        Some(b - 55)
    } else {
        None
    }
}

fn hex_component(b1: u8, b2: u8) -> (r: u8)
    ensures
        r == or_30(hex_pair(b1, b2)),
{
    if b1 == 43 {
        match hex_digit(b2) {
            Some(v) => v,
            None => 30,
        }
    } else {
        match (hex_digit(b1), hex_digit(b2)) {
            (Some(h), Some(l)) => h * 16 + l,
            _ => 30,
        }
    }
}

/// Color values ignore case and surrounding whitespace: a value reads as
/// the same color as its trimmed, lower-cased form.
pub proof fn law_color_ignores_case_and_space(value: Seq<char>)
    ensures
        color_of(value) == color_of(lower_seq(trim(value))),
{
    crate::text::lemma_lower_trim_idempotent(value);
}

/// A lower-case hexadecimal digit.
pub open spec fn is_hex_digit(c: char) -> bool {
    (48 <= c as u32 <= 57) || (97 <= c as u32 <= 102)
}

/// The value of a lower-case hexadecimal digit.
pub open spec fn hex_digit_value(c: char) -> int {
    if c as u32 <= 57 {
        c as u32 - 48
    } else {
        c as u32 - 87
    }
}

/// The text of ASCII characters is one byte per character, each the
/// character's code.
proof fn lemma_ascii_bytes(s: Seq<char>)
    requires
        forall|i: int| 0 <= i < s.len() ==> (#[trigger] s[i]) as u32 <= 0x7F,
    ensures
        vstd::utf8::encode_utf8(s).len() == s.len(),
        forall|i: int| 0 <= i < s.len() ==> #[trigger] vstd::utf8::encode_utf8(s)[i] == (s[i] as u32) as u8,
    decreases s.len(),
{
    if s.len() > 0 {
        let rest = s.drop_first();
        assert forall|i: int| 0 <= i < rest.len() implies (#[trigger] rest[i]) as u32 <= 0x7F by {
            assert(rest[i] == s[i + 1]);
        }
        lemma_ascii_bytes(rest);
        let x: u32 = s[0] as u32;
        assert(x <= 0x7F ==> (x & 0x7F) as u8 == x as u8) by (bit_vector);
        let head = vstd::utf8::encode_scalar(x);
        assert(head == seq![x as u8]);
        assert forall|i: int| 0 <= i < s.len() implies #[trigger] vstd::utf8::encode_utf8(s)[i] == (s[i] as u32) as u8 by {
            if i > 0 {
                assert(rest[i - 1] == s[i]);
            }
        }
    }
}

/// `#rrggbb` names the color whose red, green and blue are the three
/// hexadecimal pairs, high digit first, whatever the case of the digits.
#[verifier::spinoff_prover]
pub proof fn law_hex_colors(value: Seq<char>)
    requires
        lower_seq(trim(value)).len() == 7,
        lower_seq(trim(value))[0] == '#',
        forall|i: int| 1 <= i < 7 ==> is_hex_digit(#[trigger] lower_seq(trim(value))[i]),
    ensures
        ({
            let n = lower_seq(trim(value));
            color_of(value) == Color::opaque(
                (16 * hex_digit_value(n[1]) + hex_digit_value(n[2])) as u8,
                (16 * hex_digit_value(n[3]) + hex_digit_value(n[4])) as u8,
                (16 * hex_digit_value(n[5]) + hex_digit_value(n[6])) as u8,
            )
        }),
{
    let n = lower_seq(trim(value));
    reveal_strlit("default");
    reveal_strlit("black");
    reveal_strlit("white");
    reveal_strlit("red");
    reveal_strlit("blue");
    reveal_strlit("navy");
    reveal_strlit("yellow");
    reveal_strlit("beige");
    reveal_strlit("tomato");
    reveal_strlit("gray");
    reveal_strlit("grey");
    assert(n[0] != "default"@[0]);
    assert(n != "default"@);
    assert(n.len() != "black"@.len());
    assert(n != "black"@);
    assert(n.len() != "white"@.len());
    assert(n != "white"@);
    assert(n.len() != "red"@.len());
    assert(n != "red"@);
    assert(n.len() != "blue"@.len());
    assert(n != "blue"@);
    assert(n.len() != "navy"@.len());
    assert(n != "navy"@);
    assert(n.len() != "yellow"@.len());
    assert(n != "yellow"@);
    assert(n.len() != "beige"@.len());
    assert(n != "beige"@);
    assert(n.len() != "tomato"@.len());
    assert(n != "tomato"@);
    assert(n.len() != "gray"@.len());
    assert(n != "gray"@);
    assert(n.len() != "grey"@.len());
    assert(n != "grey"@);
    assert forall|i: int| 0 <= i < n.len() implies (#[trigger] n[i]) as u32 <= 0x7F by {
        if i > 0 {
            assert(is_hex_digit(n[i]));
        }
    }
    lemma_ascii_bytes(n);
    let b = vstd::utf8::encode_utf8(n);
    assert forall|k: int| 1 <= k < 7 implies #[trigger] hex_val(b[k]) == Some(hex_digit_value(n[k]) as u8) by {
        assert(is_hex_digit(n[k]));
        assert(b[k] == (n[k] as u32) as u8);
    }
    assert(b[1] != 43) by {
        assert(is_hex_digit(n[1]));
        assert(b[1] == (n[1] as u32) as u8);
    }
    assert(b[3] != 43) by {
        assert(is_hex_digit(n[3]));
        assert(b[3] == (n[3] as u32) as u8);
    }
    assert(b[5] != 43) by {
        assert(is_hex_digit(n[5]));
        assert(b[5] == (n[5] as u32) as u8);
    }
    assert(hex_val(b[1]) == Some(hex_digit_value(n[1]) as u8));
    assert(hex_val(b[2]) == Some(hex_digit_value(n[2]) as u8));
    assert(hex_val(b[3]) == Some(hex_digit_value(n[3]) as u8));
    assert(hex_val(b[4]) == Some(hex_digit_value(n[4]) as u8));
    assert(hex_val(b[5]) == Some(hex_digit_value(n[5]) as u8));
    assert(hex_val(b[6]) == Some(hex_digit_value(n[6]) as u8));
}

pub fn parse_color(value: &str) -> (r: Color)
    ensures
        r == color_of(value@),
{
    let t = trimmed(value);
    let normalized = lowered(t.as_str());
    let n = normalized.as_str();
    if str_is(n, "default") || str_is(n, "black") {
        Color::rgb(30, 30, 30)
    } else if str_is(n, "white") {
        Color::rgb(255, 255, 255)
    } else if str_is(n, "red") {
        Color::rgb(204, 58, 58)
    } else if str_is(n, "blue") {
        Color::rgb(51, 102, 204)
    } else if str_is(n, "navy") {
        Color::rgb(27, 54, 93)
    } else if str_is(n, "yellow") {
        Color::rgb(244, 208, 63)
    } else if str_is(n, "beige") {
        Color::rgb(245, 245, 220)
    } else if str_is(n, "tomato") {
        Color::rgb(255, 99, 71)
    } else if str_is(n, "gray") || str_is(n, "grey") {
        Color::rgb(130, 130, 130)
    } else {
        let chars = crate::text::chars_of(n);
        let bytes = n.as_bytes();
        if chars.len() > 0 && chars[0] == '#' && bytes.len() == 7 {
            let r = hex_component(bytes[1], bytes[2]);
            let g = hex_component(bytes[3], bytes[4]);
            let b = hex_component(bytes[5], bytes[6]);
            Color::rgb(r, g, b)
        } else {
            Color::rgb(30, 30, 30)
        }
    }
}

/// The line height for a font size (see `line_height_px`).
pub fn line_height_for_font(font_size: usize, line_height: LineHeight) -> (r: u32)
    ensures
        r == line_height_px(font_size, line_height),
{
    line_height_for(font_size, line_height)
}

// ---------------------------------------------------------------------------
// Painting

pub open spec fn sadd(a: u32, b: u32) -> u32 {
    if a + b > u32::MAX {
        u32::MAX
    } else {
        (a + b) as u32
    }
}

pub open spec fn umax(a: u32, b: u32) -> u32 {
    if a >= b {
        a
    } else {
        b
    }
}

/// The painter's state: the vertical cursor, the widest extent painted,
/// the commands and the link regions so far.
#[verifier::ext_equal]
pub struct PaintState {
    pub y: u32,
    pub max_w: u32,
    pub cmds: Seq<Cmd>,
    pub links: Seq<Link>,
}

/// The model of a display list.
pub struct ListModel {
    pub width: u32,
    pub height: u32,
    pub commands: Seq<Cmd>,
    pub links: Seq<Link>,
    pub background: Color,
}

impl View for DisplayList {
    type V = ListModel;

    open spec fn view(&self) -> ListModel {
        ListModel {
            width: self.width,
            height: self.height,
            commands: cmds_view(self.commands@),
            links: links_view(self.link_regions@),
            background: self.background,
        }
    }
}

pub open spec fn widest(lines: Seq<Line>) -> u32
    decreases lines.len(),
{
    if lines.len() == 0 {
        0
    } else {
        umax(widest(lines.drop_last()), lines.last().width as u32)
    }
}

pub open spec fn lines_height(lines: Seq<Line>) -> u32
    decreases lines.len(),
{
    if lines.len() == 0 {
        0
    } else {
        sadd(lines_height(lines.drop_last()), lines.last().height)
    }
}

pub open spec fn text_width(lines: Seq<Line>) -> u32 {
    umax(widest(lines), if lines.len() > 0 {
        1u32
    } else {
        0u32
    })
}

pub open spec fn is_block_tag(k: BoxKind, t: Seq<char>) -> bool {
    match k {
        BoxKind::Block(tag) => tag == t,
        _ => false,
    }
}

/// The first `k` fragments of a line at height `y`: a background, the text
/// and a link region for each, left to right from `x0`. `.0` is the next x.
pub open spec fn paint_frags(frags: Seq<Frag>, k: int, x0: u32, y: u32, h: u32, cmds: Seq<Cmd>, links: Seq<Link>) -> (u32, Seq<Cmd>, Seq<Link>)
    decreases k,
{
    if k <= 0 || k > frags.len() {
        (x0, cmds, links)
    } else {
        let (x, c, l) = paint_frags(frags, k - 1, x0, y, h, cmds, links);
        let f = frags[k - 1];
        let c1 = match f.background {
            Some(bg) => c.push(Cmd::Fill { x, y, width: f.width as u32, height: h, color: color_of(bg) }),
            None => c,
        };
        let c2 = c1.push(
            Cmd::Text {
                x,
                y,
                text: f.text,
                width: f.width as u32,
                line_height: h,
                color: color_of(f.color),
                font_weight: f.font_weight,
                underline: f.underline,
                font_size: f.font_size as u32,
            },
        );
        let l1 = match f.href {
            Some(t) => l.push(Link { x, y, width: f.width as u32, height: h, target: t }),
            None => l,
        };
        (sadd(x, f.width as u32), c2, l1)
    }
}

pub open spec fn bullet() -> Seq<char> {
    seq!['\u{2022}']
}

/// The first `k` lines of a box from height `y0`, one below the other; the
/// first line of a list item gets a bullet. `.0` is the height below them.
pub open spec fn paint_lines(b: BoxModel, k: int, content_x: u32, box_x: u32, y0: u32, cmds: Seq<Cmd>, links: Seq<Link>) -> (u32, Seq<Cmd>, Seq<Link>)
    decreases k,
{
    if k <= 0 || k > b.lines.len() {
        (y0, cmds, links)
    } else {
        let (y, c, l) = paint_lines(b, k - 1, content_x, box_x, y0, cmds, links);
        let line = b.lines[k - 1];
        let c1 = if is_block_tag(b.kind, "li"@) && k == 1 {
            c.push(
                Cmd::Text {
                    x: sadd(box_x, 8),
                    y,
                    text: bullet(),
                    width: umax((b.style.font_size as u32) / 2, 8),
                    line_height: line.height,
                    color: color_of(b.style.color),
                    font_weight: b.style.font_weight,
                    underline: false,
                    font_size: b.style.font_size as u32,
                },
            )
        } else {
            c
        };
        let (_, c2, l2) = paint_frags(line.frags, line.frags.len() as int, content_x, y, line.height, c1, l);
        (sadd(y, line.height), c2, l2)
    }
}

pub open spec fn painted(b: BoxModel) -> bool {
    b.lines.len() > 0 || b.children.len() > 0 || is_block_tag(b.kind, "hr"@)
}

/// A box painted at `x` below the cursor: its margin, a background behind
/// its lines, a bar for a blockquote, a rule for an `hr`, its lines, its
/// children, then its bottom padding and margin. Boxes with nothing in them
/// take only their top margin and padding.
pub open spec fn paint(b: BoxModel, x: u32, st: PaintState) -> PaintState
    decreases b, b.children.len() + 1,
{
    let y0 = sadd(st.y, b.style.margin.top as u32);
    let box_x = sadd(x, b.style.margin.left as u32);
    let content_x = sadd(box_x, b.style.padding.left as u32);
    let content_y = sadd(y0, b.style.padding.top as u32);
    let tw = text_width(b.lines);
    let th = lines_height(b.lines);
    let full_w = sadd(sadd(tw, b.style.padding.left as u32), b.style.padding.right as u32);
    let full_h = sadd(sadd(th, b.style.padding.top as u32), b.style.padding.bottom as u32);
    let st1 = if painted(b) {
        let c1 = match b.style.background {
            Some(bg) => st.cmds.push(
                Cmd::Fill { x: box_x, y: y0, width: full_w, height: full_h, color: color_of(bg) },
            ),
            None => st.cmds,
        };
        let c2 = if is_block_tag(b.kind, "blockquote"@) {
            c1.push(
                Cmd::Fill {
                    x: sadd(box_x, 6),
                    y: y0,
                    width: 4,
                    height: umax(full_h, 24),
                    color: Color::opaque(196, 188, 172),
                },
            )
        } else {
            c1
        };
        let c3 = if is_block_tag(b.kind, "hr"@) {
            c2.push(
                Cmd::Fill {
                    x: box_x,
                    y: sadd(content_y, 1),
                    width: umax(tw, 32),
                    height: 2,
                    color: Color::opaque(210, 205, 194),
                },
            )
        } else {
            c2
        };
        let (y, c4, l4) = paint_lines(b, b.lines.len() as int, content_x, box_x, content_y, c3, st.links);
        PaintState { y, max_w: st.max_w, cmds: c4, links: l4 }
    } else {
        PaintState { y: content_y, ..st }
    };
    let st2 = paint_kids(b, b.children.len() as int, content_x, st1);
    let st3 = if painted(b) {
        PaintState {
            y: sadd(sadd(st2.y, b.style.padding.bottom as u32), b.style.margin.bottom as u32),
            ..st2
        }
    } else {
        st2
    };
    let extent = sadd(sadd(sadd(box_x, tw), b.style.padding.left as u32), b.style.padding.right as u32);
    PaintState { max_w: umax(st3.max_w, sadd(extent, 16)), ..st3 }
}

pub open spec fn paint_kids(b: BoxModel, k: int, content_x: u32, st: PaintState) -> PaintState
    decreases b, k,
{
    if k <= 0 || k > b.children.len() {
        st
    } else {
        paint(b.children[k - 1], content_x, paint_kids(b, k - 1, content_x, st))
    }
}

/// The display list of a layout: everything painted from (16, 16), on a
/// canvas at least 160 by 80 with 16 pixels of padding right and below.
pub open spec fn display_list_of(b: BoxModel) -> ListModel {
    let st = paint(b, 16, PaintState { y: 16, max_w: 0, cmds: Seq::empty(), links: Seq::empty() });
    ListModel {
        width: umax(sadd(st.max_w, 16), 160),
        height: umax(sadd(st.y, 16), 80),
        commands: st.cmds,
        links: st.links,
        background: Color::opaque(250, 248, 242),
    }
}

pub fn build_display_list(layout: &LayoutBox) -> (r: DisplayList)
    ensures
        r@ == display_list_of(layout@),
{
    let mut commands: Vec<DisplayCommand> = Vec::new();
    let mut link_regions: Vec<LinkRegion> = Vec::new();
    let mut max_width: u32 = 0;
    let mut cursor_y: u32 = V_PADDING;
    proof {
        assert(cmds_view(commands@) =~= Seq::<Cmd>::empty());
        assert(links_view(link_regions@) =~= Seq::<Link>::empty());
    }
    paint_box(layout, H_PADDING, &mut cursor_y, &mut max_width, &mut commands, &mut link_regions);
    let w = max_width.saturating_add(H_PADDING);
    let h = cursor_y.saturating_add(V_PADDING);
    DisplayList {
        width: if w >= 160 {
            w
        } else {
            160
        },
        height: if h >= 80 {
            h
        } else {
            80
        },
        commands,
        link_regions,
        background: Color::rgb(250, 248, 242),
    }
}

fn umax_exec(a: u32, b: u32) -> (r: u32)
    ensures
        r == umax(a, b),
{
    if a >= b {
        a
    } else {
        b
    }
}

fn widest_line(lines: &Vec<crate::layout::LayoutLine>) -> (r: u32)
    ensures
        r == widest(crate::layout::lines_view(lines@)),
{
    let ghost lv = crate::layout::lines_view(lines@);
    let mut w: u32 = 0;
    let mut i: usize = 0;
    while i < lines.len()
        invariant
            i <= lines.len(),
            lv == crate::layout::lines_view(lines@),
            w == widest(lv.subrange(0, i as int)),
        decreases lines.len() - i,
    {
        proof {
            assert(lv.subrange(0, i + 1).drop_last() =~= lv.subrange(0, i as int));
        }
        w = umax_exec(w, lines[i].width as u32);
        i = i + 1;
    }
    assert(lv.subrange(0, i as int) =~= lv);
    w
}

fn total_height(lines: &Vec<crate::layout::LayoutLine>) -> (r: u32)
    ensures
        r == lines_height(crate::layout::lines_view(lines@)),
{
    let ghost lv = crate::layout::lines_view(lines@);
    let mut h: u32 = 0;
    let mut i: usize = 0;
    while i < lines.len()
        invariant
            i <= lines.len(),
            lv == crate::layout::lines_view(lines@),
            h == lines_height(lv.subrange(0, i as int)),
        decreases lines.len() - i,
    {
        proof {
            assert(lv.subrange(0, i + 1).drop_last() =~= lv.subrange(0, i as int));
        }
        h = h.saturating_add(lines[i].height);
        i = i + 1;
    }
    assert(lv.subrange(0, i as int) =~= lv);
    h
}

fn block_tag_is(kind: &LayoutKind, t: &str) -> (r: bool)
    ensures
        r == is_block_tag(kind.model(), t@),
{
    match kind {
        LayoutKind::Block { tag_name } => str_is(tag_name.as_str(), t),
        _ => false,
    }
}

fn push_cmd(commands: &mut Vec<DisplayCommand>, c: DisplayCommand)
    ensures
        cmds_view(final(commands)@) == cmds_view(old(commands)@).push(c@),
{
    let ghost before = cmds_view(commands@);
    let ghost cv = c@;
    commands.push(c);
    assert(cmds_view(commands@) =~= before.push(cv));
}

fn push_link(links: &mut Vec<LinkRegion>, l: LinkRegion)
    ensures
        links_view(final(links)@) == links_view(old(links)@).push(l@),
{
    let ghost before = links_view(links@);
    let ghost lv = l@;
    links.push(l);
    assert(links_view(links@) =~= before.push(lv));
}

fn paint_line(
    line: &crate::layout::LayoutLine,
    content_x: u32,
    y: u32,
    commands: &mut Vec<DisplayCommand>,
    link_regions: &mut Vec<LinkRegion>,
)
    ensures
        ({
            let (_, c, l) = paint_frags(
                line@.frags,
                line@.frags.len() as int,
                content_x,
                y,
                line.height,
                cmds_view(old(commands)@),
                links_view(old(link_regions)@),
            );
            cmds_view(final(commands)@) == c && links_view(final(link_regions)@) == l
        }),
{
    let ghost fs = line@.frags;
    let ghost c0 = cmds_view(commands@);
    let ghost l0 = links_view(link_regions@);
    let mut cursor_x = content_x;
    let mut j: usize = 0;
    while j < line.fragments.len()
        invariant
            j <= line.fragments.len(),
            fs == line@.frags,
            (cursor_x, cmds_view(commands@), links_view(link_regions@)) == paint_frags(
                fs,
                j as int,
                content_x,
                y,
                line.height,
                c0,
                l0,
            ),
        decreases line.fragments.len() - j,
    {
        let fragment = &line.fragments[j];
        proof {
            assert(fs[j as int] == fragment@);
        }
        if let Some(background) = &fragment.background_color {
            push_cmd(
                commands,
                DisplayCommand::FillRect {
                    x: cursor_x,
                    y,
                    width: fragment.width as u32,
                    height: line.height,
                    color: parse_color(background.as_str()),
                },
            );
        }
        push_cmd(
            commands,
            DisplayCommand::DrawText {
                x: cursor_x,
                y,
                text: copy_string(&fragment.text),
                width: fragment.width as u32,
                line_height: line.height,
                color: parse_color(fragment.color.as_str()),
                font_weight: fragment.font_weight,
                underline: fragment.underline,
                font_size: fragment.font_size as u32,
            },
        );
        if let Some(target) = &fragment.href {
            push_link(
                link_regions,
                LinkRegion {
                    x: cursor_x,
                    y,
                    width: fragment.width as u32,
                    height: line.height,
                    target: copy_string(target),
                },
            );
        }
        cursor_x = cursor_x.saturating_add(fragment.width as u32);
        j = j + 1;
    }
}

/// The part of `paint` for a box with content: background, accents and
/// lines, down to the height below its last line.
pub open spec fn paint_own(b: BoxModel, box_x: u32, y0: u32, st: PaintState) -> PaintState {
    let content_x = sadd(box_x, b.style.padding.left as u32);
    let content_y = sadd(y0, b.style.padding.top as u32);
    let tw = text_width(b.lines);
    let th = lines_height(b.lines);
    let full_w = sadd(sadd(tw, b.style.padding.left as u32), b.style.padding.right as u32);
    let full_h = sadd(sadd(th, b.style.padding.top as u32), b.style.padding.bottom as u32);
    let c1 = match b.style.background {
        Some(bg) => st.cmds.push(
            Cmd::Fill { x: box_x, y: y0, width: full_w, height: full_h, color: color_of(bg) },
        ),
        None => st.cmds,
    };
    let c2 = if is_block_tag(b.kind, "blockquote"@) {
        c1.push(
            Cmd::Fill {
                x: sadd(box_x, 6),
                y: y0,
                width: 4,
                height: umax(full_h, 24),
                color: Color::opaque(196, 188, 172),
            },
        )
    } else {
        c1
    };
    let c3 = if is_block_tag(b.kind, "hr"@) {
        c2.push(
            Cmd::Fill {
                x: box_x,
                y: sadd(content_y, 1),
                width: umax(tw, 32),
                height: 2,
                color: Color::opaque(210, 205, 194),
            },
        )
    } else {
        c2
    };
    let (y, c4, l4) = paint_lines(b, b.lines.len() as int, content_x, box_x, content_y, c3, st.links);
    PaintState { y, max_w: st.max_w, cmds: c4, links: l4 }
}

proof fn lemma_paint_unfold(b: BoxModel, x: u32, st: PaintState)
    ensures
        ({
            let y0 = sadd(st.y, b.style.margin.top as u32);
            let box_x = sadd(x, b.style.margin.left as u32);
            let content_x = sadd(box_x, b.style.padding.left as u32);
            let content_y = sadd(y0, b.style.padding.top as u32);
            let tw = text_width(b.lines);
            let st1 = if painted(b) {
                paint_own(b, box_x, y0, st)
            } else {
                PaintState { y: content_y, ..st }
            };
            let st2 = paint_kids(b, b.children.len() as int, content_x, st1);
            let st3 = if painted(b) {
                PaintState {
                    y: sadd(sadd(st2.y, b.style.padding.bottom as u32), b.style.margin.bottom as u32),
                    ..st2
                }
            } else {
                st2
            };
            let extent = sadd(
                sadd(sadd(box_x, tw), b.style.padding.left as u32),
                b.style.padding.right as u32,
            );
            paint(b, x, st) == PaintState { max_w: umax(st3.max_w, sadd(extent, 16)), ..st3 }
        }),
{
}

fn paint_own_exec(
    layout: &LayoutBox,
    box_x: u32,
    start_y: u32,
    cursor_y: &mut u32,
    commands: &mut Vec<DisplayCommand>,
    link_regions: &mut Vec<LinkRegion>,
)
    ensures
        (PaintState {
            y: *final(cursor_y),
            max_w: 0,
            cmds: cmds_view(final(commands)@),
            links: links_view(final(link_regions)@),
        }) == paint_own(
            layout@,
            box_x,
            start_y,
            PaintState {
                y: *old(cursor_y),
                max_w: 0,
                cmds: cmds_view(old(commands)@),
                links: links_view(old(link_regions)@),
            },
        ),
{
    let ghost b = layout@;
    let ghost l0 = links_view(link_regions@);
    let padding = layout.style.padding;
    let content_x = box_x.saturating_add(padding.left as u32);
    let content_y = start_y.saturating_add(padding.top as u32);
    let widest_w = widest_line(&layout.lines);
    let text_w = umax_exec(widest_w, if layout.lines.len() > 0 {
        1
    } else {
        0
    });
    let text_height = total_height(&layout.lines);
    let full_w = text_w.saturating_add(padding.left as u32).saturating_add(padding.right as u32);
    let full_h = text_height.saturating_add(padding.top as u32).saturating_add(
        padding.bottom as u32,
    );
    if let Some(background) = &layout.style.background_color {
        push_cmd(
            commands,
            DisplayCommand::FillRect {
                x: box_x,
                y: start_y,
                width: full_w,
                height: full_h,
                color: parse_color(background.as_str()),
            },
        );
    }
    if block_tag_is(&layout.kind, "blockquote") {
        push_cmd(
            commands,
            DisplayCommand::FillRect {
                x: box_x.saturating_add(6),
                y: start_y,
                width: 4,
                height: umax_exec(full_h, 24),
                color: Color::rgb(196, 188, 172),
            },
        );
    }
    if block_tag_is(&layout.kind, "hr") {
        push_cmd(
            commands,
            DisplayCommand::FillRect {
                x: box_x,
                y: content_y.saturating_add(1),
                width: umax_exec(text_w, 32),
                height: 2,
                color: Color::rgb(210, 205, 194),
            },
        );
    }
    let is_li = block_tag_is(&layout.kind, "li");
    let ghost c3 = cmds_view(commands@);
    *cursor_y = content_y;
    let mut i: usize = 0;
    while i < layout.lines.len()
        invariant
            i <= layout.lines.len(),
            b == layout@,
            is_li == is_block_tag(b.kind, "li"@),
            (*cursor_y, cmds_view(commands@), links_view(link_regions@)) == paint_lines(
                b,
                i as int,
                content_x,
                box_x,
                content_y,
                c3,
                l0,
            ),
        decreases layout.lines.len() - i,
    {
        let line = &layout.lines[i];
        proof {
            assert(b.lines[i as int] == line@);
        }
        if is_li && i == 0 {
            let fs = layout.style.font_size as u32;
            push_cmd(
                commands,
                DisplayCommand::DrawText {
                    x: box_x.saturating_add(8),
                    y: *cursor_y,
                    text: String::from_str("\u{2022}"),
                    width: umax_exec(fs / 2, 8),
                    line_height: line.height,
                    color: parse_color(layout.style.color.as_str()),
                    font_weight: layout.style.font_weight,
                    underline: false,
                    font_size: fs,
                },
            );
            proof {
                reveal_strlit("\u{2022}");
                assert("\u{2022}"@ =~= bullet());
            }
        }
        paint_line(line, content_x, *cursor_y, commands, link_regions);
        *cursor_y = (*cursor_y).saturating_add(line.height);
        i = i + 1;
    }
}

/// Paints a box and its children (see `paint`).
pub fn paint_box(
    layout: &LayoutBox,
    current_x: u32,
    cursor_y: &mut u32,
    max_width: &mut u32,
    commands: &mut Vec<DisplayCommand>,
    link_regions: &mut Vec<LinkRegion>,
)
    ensures
        (PaintState {
            y: *final(cursor_y),
            max_w: *final(max_width),
            cmds: cmds_view(final(commands)@),
            links: links_view(final(link_regions)@),
        }) == paint(
            layout@,
            current_x,
            PaintState {
                y: *old(cursor_y),
                max_w: *old(max_width),
                cmds: cmds_view(old(commands)@),
                links: links_view(old(link_regions)@),
            },
        ),
    decreases layout,
{
    let ghost b = layout@;
    let ghost st = PaintState {
        y: *cursor_y,
        max_w: *max_width,
        cmds: cmds_view(commands@),
        links: links_view(link_regions@),
    };
    proof {
        lemma_paint_unfold(b, current_x, st);
    }
    let margin = layout.style.margin;
    let padding = layout.style.padding;
    *cursor_y = (*cursor_y).saturating_add(margin.top as u32);
    let box_x = current_x.saturating_add(margin.left as u32);
    let start_y = *cursor_y;
    let content_x = box_x.saturating_add(padding.left as u32);
    let content_y = start_y.saturating_add(padding.top as u32);
    let widest_w = widest_line(&layout.lines);
    let text_w = umax_exec(widest_w, if layout.lines.len() > 0 {
        1
    } else {
        0
    });
    let visible = layout.lines.len() > 0 || layout.children.len() > 0 || block_tag_is(
        &layout.kind,
        "hr",
    );
    if visible {
        paint_own_exec(layout, box_x, start_y, cursor_y, commands, link_regions);
    } else {
        *cursor_y = content_y;
    }
    let ghost st1 = PaintState {
        y: *cursor_y,
        max_w: *max_width,
        cmds: cmds_view(commands@),
        links: links_view(link_regions@),
    };
    let mut k: usize = 0;
    while k < layout.children.len()
        invariant
            k <= layout.children.len(),
            b == layout@,
            (PaintState {
                y: *cursor_y,
                max_w: *max_width,
                cmds: cmds_view(commands@),
                links: links_view(link_regions@),
            }) == paint_kids(b, k as int, content_x, st1),
        decreases layout.children.len() - k,
    {
        let child = &layout.children[k];
        proof {
            assert(b.children[k as int] == child@);
        }
        paint_box(child, content_x, cursor_y, max_width, commands, link_regions);
        k = k + 1;
    }
    if visible {
        *cursor_y = (*cursor_y).saturating_add(padding.bottom as u32);
        *cursor_y = (*cursor_y).saturating_add(margin.bottom as u32);
    }
    let extent = box_x.saturating_add(text_w).saturating_add(padding.left as u32).saturating_add(
        padding.right as u32,
    );
    *max_width = umax_exec(*max_width, extent.saturating_add(H_PADDING));
    proof {
        assert((PaintState {
            y: *cursor_y,
            max_w: *max_width,
            cmds: cmds_view(commands@),
            links: links_view(link_regions@),
        }) =~= paint(b, current_x, st));
    }
}

} // verus!

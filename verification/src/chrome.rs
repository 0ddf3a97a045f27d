//! The browser window's toolbar: the rectangles, the address text and the
//! status line that make it up, in drawing order, in window pixels.
//! Where the address text's characters fall is measured with the
//! application's fonts; the caller hands in those positions.
use vstd::prelude::*;
use crate::paint::Color;
use crate::viewport::{address_bar_height, address_bar_padding, chrome_height, sat_sub_u32, scaled_spec, ADDRESS_BAR_HEIGHT, ADDRESS_BAR_PADDING, CHROME_HEIGHT};

verus! {

/// One drawing step of the toolbar.
#[derive(Debug, PartialEq, Eq)]
pub enum ChromeOp {
    /// A rectangle.
    Fill { x: i32, y: i32, width: i32, height: i32, color: Color },
    /// The address text, where its layout placed it, at `font_size` pixels.
    AddressText { color: Color, font_size: u32 },
    /// A line of text whose box starts at (`x`, `y`), at `font_size` pixels.
    Text { x: i32, y: i32, text: String, color: Color, font_size: u32 },
}

pub enum ChromeOpModel {
    Fill { x: i32, y: i32, width: i32, height: i32, color: Color },
    AddressText { color: Color, font_size: u32 },
    Text { x: i32, y: i32, text: Seq<char>, color: Color, font_size: u32 },
}

pub open spec fn chrome_op_view(o: ChromeOp) -> ChromeOpModel {
    match o {
        ChromeOp::Fill { x, y, width, height, color } => ChromeOpModel::Fill { x, y, width, height, color },
        ChromeOp::AddressText { color, font_size } => ChromeOpModel::AddressText { color, font_size },
        ChromeOp::Text { x, y, text, color, font_size } => ChromeOpModel::Text { x, y, text: text@, color, font_size },
    }
}

pub open spec fn chrome_ops_view(s: Seq<ChromeOp>) -> Seq<ChromeOpModel> {
    s.map_values(|o: ChromeOp| chrome_op_view(o))
}

/// The toolbar's lengths at this scale stay within `u32`.
pub open spec fn toolbar_fits(scale: u32) -> bool {
    52 * scale <= u32::MAX
}

/// Whether the toolbar's lengths fit in `u32` at this scale.
pub fn toolbar_fits_at(scale: u32) -> (r: bool)
    ensures
        r == toolbar_fits(scale),
{
    scale <= 82595524
}

pub open spec fn max_i32(a: i32, b: i32) -> i32 {
    if a >= b {
        a
    } else {
        b
    }
}

/// `a - b`, held within `i32`.
pub open spec fn sat_sub_i32(a: i32, b: i32) -> i32 {
    let d = a - b;
    if d > i32::MAX {
        i32::MAX
    } else if d < i32::MIN {
        i32::MIN
    } else {
        d as i32
    }
}

fn sat_sub(a: i32, b: i32) -> (r: i32)
    ensures
        r == sat_sub_i32(a, b),
{
    let d = a as i64 - b as i64;
    if d > 0x7fff_ffff {
        0x7fff_ffff
    } else if d < -0x8000_0000 {
        -0x8000_0000
    } else {
        d as i32
    }
}

/// The toolbar: its background across the window, the address bar inset
/// by the padding on both sides (white while focused), the selection's
/// highlight from its start to its end position (at least one scaled
/// pixel wide), the address text, the caret where one is shown (at most 2
/// pixels wide) and the status line below the address bar.
pub open spec fn toolbar(
    width: u32,
    scale: u32,
    address_focus: bool,
    selection: Option<(i32, i32)>,
    caret_x: Option<i32>,
    status_message: Option<Seq<char>>,
) -> Seq<ChromeOpModel> {
    let bar_height = scaled_spec(ADDRESS_BAR_HEIGHT, scale);
    let padding = scaled_spec(ADDRESS_BAR_PADDING, scale);
    let frame = seq![
        ChromeOpModel::Fill {
            x: 0,
            y: 0,
            width: width as i32,
            height: scaled_spec(CHROME_HEIGHT, scale) as i32,
            color: Color::opaque(232, 228, 220),
        },
        ChromeOpModel::Fill {
            x: padding as i32,
            y: (12 * scale) as i32,
            width: sat_sub_u32(width, (padding * 2) as u32) as i32,
            height: bar_height as i32,
            color: if address_focus {
                Color::opaque(255, 255, 255)
            } else {
                Color::opaque(246, 243, 236)
            },
        },
    ];
    let highlight = match selection {
        Some((start_x, end_x)) => seq![
            ChromeOpModel::Fill {
                x: start_x,
                y: (14 * scale) as i32,
                width: max_i32(sat_sub_i32(end_x, start_x), scale as i32),
                height: sat_sub_u32(bar_height, (4 * scale) as u32) as i32,
                color: Color::opaque(205, 222, 246),
            },
        ],
        None => Seq::empty(),
    };
    let text = seq![ChromeOpModel::AddressText { color: Color::opaque(32, 35, 40), font_size: (17 * scale) as u32 }];
    let caret = match caret_x {
        Some(cx) => seq![
            ChromeOpModel::Fill {
                x: cx,
                y: (16 * scale) as i32,
                width: if scale < 2 {
                    scale as i32
                } else {
                    2
                },
                height: sat_sub_u32(bar_height, (8 * scale) as u32) as i32,
                color: Color::opaque(46, 50, 56),
            },
        ],
        None => Seq::empty(),
    };
    let status = match status_message {
        Some(m) => seq![
            ChromeOpModel::Text {
                x: (padding + 8 * scale) as i32,
                y: (52 * scale) as i32,
                text: m,
                color: Color::opaque(96, 100, 110),
                font_size: (13 * scale) as u32,
            },
        ],
        None => Seq::empty(),
    };
    frame + highlight + text + caret + status
}

/// The toolbar's drawing steps for a window `width` pixels wide at `scale`:
/// `selection` holds the window x positions of the selected text's start
/// and end, `caret_x` the caret's position when it is shown.
pub fn toolbar_plan(
    width: u32,
    scale: u32,
    address_focus: bool,
    selection: Option<(i32, i32)>,
    caret_x: Option<i32>,
    status_message: Option<&str>,
) -> (ops: Vec<ChromeOp>)
    requires
        toolbar_fits(scale),
    ensures
        chrome_ops_view(ops@) == toolbar(
            width,
            scale,
            address_focus,
            selection,
            caret_x,
            match status_message {
                Some(m) => Some(m@),
                None => None,
            },
        ),
{
    let bar_height = address_bar_height(scale);
    let padding = address_bar_padding(scale);
    let mut ops: Vec<ChromeOp> = Vec::new();
    ops.push(
        ChromeOp::Fill {
            x: 0,
            y: 0,
            width: width as i32,
            height: chrome_height(scale) as i32,
            color: Color::rgb(232, 228, 220),
        },
    );
    ops.push(
        ChromeOp::Fill {
            x: padding as i32,
            y: (12 * scale) as i32,
            width: width.saturating_sub(padding * 2) as i32,
            height: bar_height as i32,
            color: if address_focus {
                Color::rgb(255, 255, 255)
            } else {
                Color::rgb(246, 243, 236)
            },
        },
    );
    if let Some((start_x, end_x)) = selection {
        let selection_width = sat_sub(end_x, start_x);
        let least = scale as i32;
        ops.push(
            ChromeOp::Fill {
                x: start_x,
                y: (14 * scale) as i32,
                width: if selection_width >= least {
                    selection_width
                } else {
                    least
                },
                height: bar_height.saturating_sub(4 * scale) as i32,
                color: Color::rgb(205, 222, 246),
            },
        );
    }
    ops.push(ChromeOp::AddressText { color: Color::rgb(32, 35, 40), font_size: 17 * scale });
    if let Some(cx) = caret_x {
        ops.push(
            ChromeOp::Fill {
                x: cx,
                y: (16 * scale) as i32,
                width: if scale < 2 {
                    scale as i32
                } else {
                    2
                },
                height: bar_height.saturating_sub(8 * scale) as i32,
                color: Color::rgb(46, 50, 56),
            },
        );
    }
    if let Some(m) = status_message {
        ops.push(
            ChromeOp::Text {
                x: (padding + 8 * scale) as i32,
                y: (52 * scale) as i32,
                text: String::from_str(m),
                color: Color::rgb(96, 100, 110),
                font_size: 13 * scale,
            },
        );
    }
    proof {
        let s = match status_message {
            Some(m) => Some(m@),
            None => None,
        };
        assert(chrome_ops_view(ops@) =~= toolbar(width, scale, address_focus, selection, caret_x, s));
    }
    ops
}

/// What the address bar shows: "> " first while it has focus, then the
/// address and the text being composed.
pub open spec fn address_display_of(address_input: Seq<char>, preedit_text: Seq<char>, address_focus: bool) -> Seq<
    char,
> {
    (if address_focus {
        "> "@
    } else {
        Seq::empty()
    }) + address_input + preedit_text
}

pub fn address_display_text(address_input: &str, preedit_text: &str, address_focus: bool) -> (r: String)
    ensures
        r@ == address_display_of(address_input@, preedit_text@, address_focus),
{
    let mut text = if address_focus {
        String::from_str("> ")
    } else {
        String::new()
    };
    let input = String::from_str(address_input);
    let preedit = String::from_str(preedit_text);
    crate::style::append_str(&mut text, &input);
    crate::style::append_str(&mut text, &preedit);
    proof {
        assert(text@ =~= address_display_of(address_input@, preedit_text@, address_focus));
    }
    text
}

/// Where the address text starts in the window: 8 scaled pixels into the
/// address bar, 20 scaled pixels down.
pub fn address_text_origin(scale: u32) -> (r: (i32, i32))
    requires
        toolbar_fits(scale),
    ensures
        r == ((scaled_spec(ADDRESS_BAR_PADDING, scale) + 8 * scale) as i32, (20 * scale) as i32),
{
    ((address_bar_padding(scale) + 8 * scale) as i32, (20 * scale) as i32)
}

} // verus!

//! From an HTML text to what the window shows: parsing, styling, layout at
//! the width that the window leaves for the page, and painting.
use vstd::prelude::*;
use crate::layout::{build_box, build_with_measurer, TextMeasurer};
use crate::paint::{build_display_list, display_list_of, DisplayList, ListModel};
use crate::style::{collect_stylesheets, style_tree, style_text, styled_of};
use crate::css::stylesheet_of;
use crate::html::document_of;
use crate::viewport::{SCROLLBAR_WIDTH, SIDE_MARGIN};

verus! {

/// The width, in page pixels, that a window `viewport_width` pixels wide
/// gives the page at `content_scale`: the window less the side margins,
/// the scroll bar and a gap (at least 420 pixels), divided by the scale
/// (taken as at least 1), and at least 180.
pub open spec fn layout_width_for(viewport_width: u32, content_scale: u32) -> usize {
    let used: int = SIDE_MARGIN * 2 + SCROLLBAR_WIDTH + 18;
    let available: int = if viewport_width - used >= 420 {
        viewport_width - used
    } else {
        420
    };
    let scale: int = if content_scale >= 1 {
        content_scale as int
    } else {
        1
    };
    let w: int = available / scale;
    if w >= 180 {
        w as usize
    } else {
        180
    }
}

pub fn layout_width(viewport_width: u32, content_scale: u32) -> (r: usize)
    ensures
        r == layout_width_for(viewport_width, content_scale),
{
    let used: u32 = SIDE_MARGIN * 2 + SCROLLBAR_WIDTH + 18;
    let available: u32 = if viewport_width >= used && viewport_width - used >= 420 {
        viewport_width - used
    } else {
        420
    };
    let scale: u32 = if content_scale >= 1 {
        content_scale
    } else {
        1
    };
    let w = (available / scale) as usize;
    if w >= 180 {
        w
    } else {
        180
    }
}

/// The display list of a page laid out for the window.
pub open spec fn page_list<M: TextMeasurer>(m: &M, html: Seq<char>, viewport_width: u32, content_scale: u32) -> ListModel {
    let document = document_of(html);
    let stylesheet = stylesheet_of(style_text(document));
    display_list_of(build_box(m, styled_of(document, stylesheet), layout_width_for(viewport_width, content_scale)))
}

/// Parses, styles, lays out and paints `html_input` for a window
/// `viewport_width` pixels wide at `content_scale`.
pub fn build_page_display_list<M: TextMeasurer>(html_input: &str, viewport_width: u32, content_scale: u32, measurer: &M) -> (r: DisplayList)
    ensures
        r@ == page_list(measurer, html_input@, viewport_width, content_scale),
{
    let width = layout_width(viewport_width, content_scale);
    let document = crate::html::parse(html_input);
    let stylesheet = collect_stylesheets(&document);
    let styled = style_tree(&document, &stylesheet);
    let layout = build_with_measurer(&styled, width, measurer);
    build_display_list(&layout)
}

} // verus!

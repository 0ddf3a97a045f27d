//! What part of the browser window a pointer is over: the address bar, or
//! a link of the page. Window edges are whole pixels; a pointer position
//! is given by the whole numbers around it.
use vstd::prelude::*;
use crate::paint::{links_view, DisplayList, Link};
use crate::viewport::{address_bar_height, address_bar_padding, chrome_height, compute_content_origin_x, min_u32, sat_sub_u32, scaled_spec, top_margin, ADDRESS_BAR_HEIGHT, ADDRESS_BAR_PADDING, CHROME_HEIGHT, SIDE_MARGIN, TOP_MARGIN};

verus! {

/// A pointer coordinate in window pixels, held as the whole number at or
/// below it (`lo`, its floor) and the whole number at or above it (`hi`,
/// its ceiling). A coordinate lies at or past a whole edge `a` exactly
/// when `lo >= a`, and at or before it exactly when `hi <= a`.
#[derive(Clone, Copy, Debug, PartialEq, Eq)]
pub struct Coord {
    pub lo: i64,
    pub hi: i64,
}

/// The coordinate lies between the edges `a` and `b`, both included.
pub open spec fn between(c: Coord, a: int, b: int) -> bool {
    c.lo >= a && c.hi <= b
}

fn is_between(c: Coord, a: i64, b: i64) -> (r: bool)
    ensures
        r == between(c, a as int, b as int),
{
    c.lo >= a && c.hi <= b
}

/// The address bar: from the padding to the padding before the window's
/// right edge, from 12 scaled pixels down over the bar's height.
pub open spec fn over_address_bar(x: Coord, y: Coord, viewport_width: u32, scale: u32) -> bool {
    let padding = scaled_spec(ADDRESS_BAR_PADDING, scale);
    between(x, padding as int, sat_sub_u32(viewport_width, padding) as int) && between(
        y,
        12 * scale,
        12 * scale + scaled_spec(ADDRESS_BAR_HEIGHT, scale),
    )
}

/// Whether the address bar's rows can be computed in `u32` at this scale.
pub fn address_bar_fits_at(scale: u32) -> (r: bool)
    ensures
        r == (12 * scale + scaled_spec(ADDRESS_BAR_HEIGHT, scale) <= u32::MAX),
{
    12 * (scale as u64) + address_bar_height(scale) as u64 <= 0xffff_ffff
}

/// Whether the page's origin below the chrome fits in `u32` at this scale.
pub fn page_origin_fits_at(scale: u32) -> (r: bool)
    ensures
        r == (scaled_spec(CHROME_HEIGHT, scale) + scaled_spec(TOP_MARGIN, scale) <= u32::MAX),
{
    chrome_height(scale) as u64 + top_margin(scale) as u64 <= 0xffff_ffff
}

/// Whether the pointer at (`x`, `y`) is over the address bar.
pub fn address_bar_hit_test(x: Coord, y: Coord, viewport_width: u32, scale: u32) -> (r: bool)
    requires
        12 * scale + scaled_spec(ADDRESS_BAR_HEIGHT, scale) <= u32::MAX,
    ensures
        r == over_address_bar(x, y, viewport_width, scale),
{
    let padding = address_bar_padding(scale);
    let min_x = padding as i64;
    let max_x = viewport_width.saturating_sub(padding) as i64;
    let min_y = (12 * scale) as i64;
    let max_y = (12 * scale + address_bar_height(scale)) as i64;
    is_between(x, min_x, max_x) && is_between(y, min_y, max_y)
}

pub open spec fn sat_mul_u32(a: u32, b: u32) -> u32 {
    if a * b > u32::MAX {
        u32::MAX
    } else {
        (a * b) as u32
    }
}

fn sat_mul(a: u32, b: u32) -> (r: u32)
    ensures
        r == sat_mul_u32(a, b),
{
    match a.checked_mul(b) {
        Some(v) => v,
        None => u32::MAX,
    }
}

/// Where a link's box lies in the window, as (left, top, right, bottom):
/// placed from the content's origin, scrolled (a box above the scroll
/// offset is taken as starting at it), scaled, each length held within
/// `u32`.
pub open spec fn link_edges(l: Link, origin_x: int, origin_y: int, scale: u32, scroll_y: u32) -> (int, int, int, int) {
    let left = origin_x + sat_mul_u32(l.x, scale);
    let top = origin_y + sat_mul_u32(sat_sub_u32(l.y, scroll_y), scale);
    (left, top, left + sat_mul_u32(l.width, scale), top + sat_mul_u32(l.height, scale))
}

/// The target of the first link, from the `i`-th on, whose box holds the
/// pointer.
pub open spec fn link_from(
    links: Seq<Link>,
    i: int,
    x: Coord,
    y: Coord,
    origin_x: int,
    origin_y: int,
    scale: u32,
    scroll_y: u32,
) -> Option<Seq<char>>
    decreases links.len() - i,
{
    if i < 0 || i >= links.len() {
        None
    } else {
        let (left, top, right, bottom) = link_edges(links[i], origin_x, origin_y, scale, scroll_y);
        if between(x, left, right) && between(y, top, bottom) {
            Some(links[i].target)
        } else {
            link_from(links, i + 1, x, y, origin_x, origin_y, scale, scroll_y)
        }
    }
}

/// The target of the first link of the page under the pointer, the page
/// laid out below the toolbar at `scale` and scrolled by `scroll_y`.
pub open spec fn link_under(
    links: Seq<Link>,
    x: Coord,
    y: Coord,
    viewport_width: u32,
    scale: u32,
    scroll_y: u32,
) -> Option<Seq<char>> {
    let origin_x = min_u32(SIDE_MARGIN, sat_sub_u32(viewport_width, 1)) as int;
    let origin_y = scaled_spec(CHROME_HEIGHT, scale) + scaled_spec(TOP_MARGIN, scale);
    link_from(links, 0, x, y, origin_x, origin_y, scale, scroll_y)
}

/// The target of the link under the pointer at (`x`, `y`), if any.
pub fn link_hit_test(
    display_list: &DisplayList,
    x: Coord,
    y: Coord,
    viewport_width: u32,
    scale: u32,
    scroll_y: u32,
) -> (r: Option<String>)
    requires
        scaled_spec(CHROME_HEIGHT, scale) + scaled_spec(TOP_MARGIN, scale) <= u32::MAX,
    ensures
        crate::css::opt_view(r) == link_under(links_view(display_list.link_regions@), x, y, viewport_width, scale, scroll_y),
{
    let ghost links = links_view(display_list.link_regions@);
    let content_pixel_width = sat_mul(display_list.width, scale);
    let origin_x = compute_content_origin_x(viewport_width, content_pixel_width) as i64;
    let origin_y = (chrome_height(scale) + top_margin(scale)) as i64;
    let regions = &display_list.link_regions;
    let mut i: usize = 0;
    while i < regions.len()
        invariant
            links == links_view(regions@),
            links == links_view(display_list.link_regions@),
            0 <= origin_x <= SIDE_MARGIN,
            0 <= origin_y <= u32::MAX,
            i <= regions.len(),
            link_under(links, x, y, viewport_width, scale, scroll_y) == link_from(
                links,
                i as int,
                x,
                y,
                origin_x as int,
                origin_y as int,
                scale,
                scroll_y,
            ),
        decreases regions.len() - i,
    {
        let region = &regions[i];
        let left = origin_x + sat_mul(region.x, scale) as i64;
        let top = origin_y + sat_mul(region.y.saturating_sub(scroll_y), scale) as i64;
        let right = left + sat_mul(region.width, scale) as i64;
        let bottom = top + sat_mul(region.height, scale) as i64;
        proof {
            assert(links[i as int] == region@);
            assert(region.y.saturating_sub(scroll_y) == sat_sub_u32(region.y, scroll_y));
            assert(link_edges(links[i as int], origin_x as int, origin_y as int, scale, scroll_y) == (
                left as int,
                top as int,
                right as int,
                bottom as int,
            ));
        }
        if is_between(x, left, right) && is_between(y, top, bottom) {
            let target = crate::text::copy_string(&region.target);
            assert(link_from(links, i as int, x, y, origin_x as int, origin_y as int, scale, scroll_y) == Some(
                target@,
            ));
            return Some(target);
        }
        i = i + 1;
    }
    None
}

} // verus!

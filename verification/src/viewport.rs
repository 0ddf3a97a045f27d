//! Scrolling and the metrics of the browser window's chrome.
use vstd::prelude::*;

verus! {

pub const CHROME_HEIGHT: u32 = 72;

pub const TOP_MARGIN: u32 = 12;

pub const SIDE_MARGIN: u32 = 32;

pub const SCROLLBAR_WIDTH: u32 = 10;

pub const ADDRESS_BAR_HEIGHT: u32 = 32;

pub const ADDRESS_BAR_PADDING: u32 = 12;

pub open spec fn sat_sub_u32(a: u32, b: u32) -> u32 {
    if a >= b {
        (a - b) as u32
    } else {
        0
    }
}

pub open spec fn min_u32(a: u32, b: u32) -> u32 {
    if a <= b {
        a
    } else {
        b
    }
}

/// The furthest a page can scroll: its height less the viewport's.
pub open spec fn max_scroll(content_height: u32, viewport_height: u32) -> u32 {
    sat_sub_u32(content_height, viewport_height)
}

/// A scroll offset kept within the page.
pub fn clamp_scroll(scroll_y: u32, content_height: u32, viewport_height: u32) -> (r: u32)
    ensures
        r == min_u32(scroll_y, max_scroll(content_height, viewport_height)),
{
    let limit = content_height.saturating_sub(viewport_height);
    if scroll_y <= limit {
        scroll_y
    } else {
        limit
    }
}

/// The offset after scrolling by `delta` (negative is up), kept within the
/// page.
pub open spec fn scrolled(current: u32, delta: i32, content_height: u32, viewport_height: u32) -> u32 {
    let next: int = current + delta;
    let next_u: u32 = if next < 0 {
        0
    } else if next > u32::MAX {
        u32::MAX
    } else {
        next as u32
    };
    min_u32(next_u, max_scroll(content_height, viewport_height))
}

pub fn apply_scroll_delta(current_scroll: u32, delta: i32, content_height: u32, viewport_height: u32) -> (r: u32)
    ensures
        r == scrolled(current_scroll, delta, content_height, viewport_height),
{
    let next = if delta < 0 {
        let up: u32 = if delta == i32::MIN {
            2147483648u32
        } else {
            (-delta) as u32
        };
        current_scroll.saturating_sub(up)
    } else {
        current_scroll.saturating_add(delta as u32)
    };
    clamp_scroll(next, content_height, viewport_height)
}

/// Scrolling never leaves the page: the offset after any scroll is at most
/// the page height less the viewport height, and keeping an offset within
/// the page a second time changes nothing.
pub proof fn law_scroll_stays_within_page(current: u32, delta: i32, content_height: u32, viewport_height: u32)
    ensures
        scrolled(current, delta, content_height, viewport_height) <= max_scroll(content_height, viewport_height),
        min_u32(
            scrolled(current, delta, content_height, viewport_height),
            max_scroll(content_height, viewport_height),
        ) == scrolled(current, delta, content_height, viewport_height),
{
}

/// Scrolling by a delta and back returns to the same offset while both
/// offsets lie within the page.
pub proof fn law_scroll_round_trip(current: u32, delta: i32, content_height: u32, viewport_height: u32)
    requires
        delta != i32::MIN,
        current <= max_scroll(content_height, viewport_height),
        0 <= current + delta <= max_scroll(content_height, viewport_height),
    ensures
        scrolled(
            scrolled(current, delta, content_height, viewport_height),
            -delta as i32,
            content_height,
            viewport_height,
        ) == current,
{
}

pub open spec fn scaled_spec(value: u32, scale: u32) -> u32 {
    let s: nat = if scale >= 1 {
        scale as nat
    } else {
        1
    };
    if value * s > u32::MAX {
        u32::MAX
    } else {
        (value * s) as u32
    }
}

/// A length of the chrome at a scale (a scale of 0 counts as 1).
pub fn scaled(value: u32, scale: u32) -> (r: u32)
    ensures
        r == scaled_spec(value, scale),
{
    let s = if scale >= 1 {
        scale
    } else {
        1
    };
    value.checked_mul(s).unwrap_or(u32::MAX)
}

pub fn chrome_height(scale: u32) -> (r: u32)
    ensures
        r == scaled_spec(CHROME_HEIGHT, scale),
{
    scaled(CHROME_HEIGHT, scale)
}

pub fn top_margin(scale: u32) -> (r: u32)
    ensures
        r == scaled_spec(TOP_MARGIN, scale),
{
    scaled(TOP_MARGIN, scale)
}

pub fn address_bar_height(scale: u32) -> (r: u32)
    ensures
        r == scaled_spec(ADDRESS_BAR_HEIGHT, scale),
{
    scaled(ADDRESS_BAR_HEIGHT, scale)
}

pub fn address_bar_padding(scale: u32) -> (r: u32)
    ensures
        r == scaled_spec(ADDRESS_BAR_PADDING, scale),
{
    scaled(ADDRESS_BAR_PADDING, scale)
}

/// The chrome and the margins above and below the page fit in `u32`.
pub open spec fn chrome_fits(scale: u32) -> bool {
    scaled_spec(CHROME_HEIGHT, scale) + 2 * scaled_spec(TOP_MARGIN, scale) <= u32::MAX
}

/// Whether the chrome and the margins fit in `u32` at this scale.
pub fn chrome_fits_at(scale: u32) -> (r: bool)
    ensures
        r == chrome_fits(scale),
{
    let margins = top_margin(scale) as u64 * 2;
    chrome_height(scale) as u64 + margins <= 0xffff_ffff
}

/// How many page pixels fit below the chrome: the window height less the
/// chrome and two margins (at least one scaled pixel), divided by the scale,
/// and at least 1.
pub open spec fn content_viewport_height_spec(viewport_height: u32, scale: u32) -> u32 {
    let used = (scaled_spec(CHROME_HEIGHT, scale) + 2 * scaled_spec(TOP_MARGIN, scale)) as u32;
    let available = sat_sub_u32(viewport_height, used);
    let available = if available >= scale {
        available
    } else {
        scale
    };
    let rows = (available / scale) as u32;
    if rows >= 1 {
        rows
    } else {
        1
    }
}

pub fn content_viewport_height_for(viewport_height: u32, scale: u32) -> (r: u32)
    requires
        scale >= 1,
        chrome_fits(scale),
    ensures
        r == content_viewport_height_spec(viewport_height, scale),
{
    let used = chrome_height(scale) + top_margin(scale) * 2;
    let available = viewport_height.saturating_sub(used);
    let available = if available >= scale {
        available
    } else {
        scale
    };
    let rows = available / scale;
    if rows >= 1 {
        rows
    } else {
        1
    }
}

/// Where page content starts horizontally: the side margin, inside the
/// window.
pub fn compute_content_origin_x(viewport_width: u32, content_pixel_width: u32) -> (r: u32)
    ensures
        r == min_u32(SIDE_MARGIN, sat_sub_u32(viewport_width, 1)),
{
    let inside = viewport_width.saturating_sub(1);
    if SIDE_MARGIN <= inside {
        SIDE_MARGIN
    } else {
        inside
    }
}

} // verus!

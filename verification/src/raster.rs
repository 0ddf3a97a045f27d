//! Where a display list lands in the window: each command placed below the
//! chrome at the content scale, scrolled, and dropped when it lies outside
//! the visible rows. Rectangles are then painted with `frame`; text runs
//! go to the application's font rasterizer.
use vstd::prelude::*;
use crate::paint::{Cmd, Color, DisplayCommand, DisplayList};
use crate::style::FontWeight;
use crate::viewport::{chrome_height, compute_content_origin_x, min_u32, sat_sub_u32, scaled_spec, top_margin, SIDE_MARGIN, CHROME_HEIGHT, TOP_MARGIN};

verus! {

/// One drawing step, in window pixels.
#[derive(Debug, PartialEq, Eq)]
pub enum RasterOp {
    /// A rectangle, painted within the plan's clip rows.
    Fill { x: i32, y: i32, width: i32, height: i32, color: Color },
    /// A text run whose line box starts at (`x`, `y`); `font_size` is the
    /// unscaled size.
    Text { x: i32, y: i32, text: String, color: Color, font_weight: FontWeight, font_size: u32 },
}

/// The steps of drawing a display list and the rows they are clipped to.
#[derive(Debug)]
pub struct RasterPlan {
    pub clip_top: i32,
    pub clip_bottom: i32,
    pub ops: Vec<RasterOp>,
}

pub enum OpModel {
    Fill { x: i32, y: i32, width: i32, height: i32, color: Color },
    Text { x: i32, y: i32, text: Seq<char>, color: Color, font_weight: FontWeight, font_size: u32 },
}

pub open spec fn op_view(o: RasterOp) -> OpModel {
    match o {
        RasterOp::Fill { x, y, width, height, color } => OpModel::Fill { x, y, width, height, color },
        RasterOp::Text { x, y, text, color, font_weight, font_size } => OpModel::Text {
            x,
            y,
            text: text@,
            color,
            font_weight,
            font_size,
        },
    }
}

pub open spec fn ops_view(s: Seq<RasterOp>) -> Seq<OpModel> {
    s.map_values(|o: RasterOp| op_view(o))
}

/// Where the content starts and the rows it may use, for a window and a
/// scale.
pub struct Placement {
    pub origin_x: int,
    pub origin_y: int,
    pub clip_top: int,
    pub clip_bottom: int,
    pub scroll: int,
    pub scale: int,
}

pub open spec fn placement(width: u32, height: u32, scroll_y: u32, scale: u32) -> Placement {
    let origin_y = (scaled_spec(CHROME_HEIGHT, scale) + scaled_spec(TOP_MARGIN, scale)) as u32 as i32;
    Placement {
        origin_x: min_u32(SIDE_MARGIN, sat_sub_u32(width, 1)) as int,
        origin_y: origin_y as int,
        clip_top: origin_y as int,
        clip_bottom: sat_sub_u32(height, scaled_spec(TOP_MARGIN, scale)) as i32 as int,
        scroll: scroll_y as i32 as int,
        scale: scale as i32 as int,
    }
}

pub open spec fn fits_i32(v: int) -> bool {
    i32::MIN <= v <= i32::MAX
}

/// The top of a command's box in the window: below the chrome, scrolled,
/// scaled.
pub open spec fn draw_y(p: Placement, y: u32) -> int {
    p.origin_y + ((y as i32 as int) - p.scroll) * p.scale
}

pub open spec fn draw_x(p: Placement, x: u32) -> int {
    p.origin_x + (x as i32 as int) * p.scale
}

/// The underline's thickness: the scale, at most 2.
pub open spec fn underline_size(p: Placement) -> int {
    if p.scale < 2 {
        p.scale
    } else {
        2
    }
}

/// The pixel arithmetic of placing a command stays within `i32`.
pub open spec fn cmd_fits(p: Placement, c: Cmd) -> bool {
    match c {
        Cmd::Fill { x, y, width, height, .. } => {
            &&& fits_i32((y as i32 as int) - p.scroll)
            &&& fits_i32(((y as i32 as int) - p.scroll) * p.scale)
            &&& fits_i32(draw_y(p, y))
            &&& fits_i32((height as i32 as int) * p.scale)
            &&& fits_i32(draw_y(p, y) + (height as i32 as int) * p.scale)
            &&& fits_i32((x as i32 as int) * p.scale)
            &&& fits_i32(draw_x(p, x))
            &&& fits_i32((width as i32 as int) * p.scale)
            &&& fits_i32(draw_x(p, x) + (width as i32 as int) * p.scale)
        },
        Cmd::Text { x, y, width, line_height, underline, .. } => {
            &&& fits_i32((y as i32 as int) - p.scroll)
            &&& fits_i32(((y as i32 as int) - p.scroll) * p.scale)
            &&& fits_i32(draw_y(p, y))
            &&& fits_i32((line_height as i32 as int) * p.scale)
            &&& fits_i32(draw_y(p, y) + (line_height as i32 as int) * p.scale)
            &&& fits_i32((x as i32 as int) * p.scale)
            &&& fits_i32(draw_x(p, x))
            &&& (underline ==> {
                &&& fits_i32(draw_y(p, y) + (line_height as i32 as int) * p.scale - underline_size(p) * 2)
                &&& fits_i32((width as i32 as int) * p.scale)
                &&& fits_i32(draw_x(p, x) + (width as i32 as int) * p.scale)
                &&& fits_i32(draw_y(p, y) + (line_height as i32 as int) * p.scale - underline_size(p) * 2 + underline_size(p))
            })
        },
    }
}

/// The window placement of the chrome fits `u32` and `i32`, and so does
/// every command's.
pub open spec fn plan_fits(list: Seq<Cmd>, width: u32, height: u32, scroll_y: u32, scale: u32) -> bool {
    &&& scaled_spec(CHROME_HEIGHT, scale) + 2 * scaled_spec(TOP_MARGIN, scale) <= u32::MAX
    &&& forall|i: int| 0 <= i < list.len() ==> cmd_fits(placement(width, height, scroll_y, scale), #[trigger] list[i])
}

/// A box from `top` spanning `h` rows misses the clip rows.
pub open spec fn off_screen(p: Placement, top: int, h: int) -> bool {
    top >= p.clip_bottom || top + h <= p.clip_top
}

/// The steps for one command: nothing when it is off screen; a fill; a
/// text run, with an underline bar along the bottom of its line box when
/// underlined.
pub open spec fn cmd_ops(p: Placement, c: Cmd) -> Seq<OpModel> {
    match c {
        Cmd::Fill { x, y, width, height, color } => {
            let top = draw_y(p, y);
            let h = (height as i32 as int) * p.scale;
            if off_screen(p, top, h) {
                Seq::empty()
            } else {
                seq![OpModel::Fill {
                    x: draw_x(p, x) as i32,
                    y: top as i32,
                    width: ((width as i32 as int) * p.scale) as i32,
                    height: h as i32,
                    color,
                }]
            }
        },
        Cmd::Text { x, y, text, width, line_height, color, font_weight, underline, font_size } => {
            let top = draw_y(p, y);
            let h = (line_height as i32 as int) * p.scale;
            if off_screen(p, top, h) {
                Seq::empty()
            } else {
                let run = OpModel::Text { x: draw_x(p, x) as i32, y: top as i32, text, color, font_weight, font_size };
                if underline {
                    seq![run, OpModel::Fill {
                        x: draw_x(p, x) as i32,
                        y: (top + h - underline_size(p) * 2) as i32,
                        width: ((width as i32 as int) * p.scale) as i32,
                        height: underline_size(p) as i32,
                        color: Color::opaque(51, 102, 204),
                    }]
                } else {
                    seq![run]
                }
            }
        },
    }
}

pub open spec fn plan_ops(p: Placement, cmds: Seq<Cmd>) -> Seq<OpModel>
    decreases cmds.len(),
{
    if cmds.len() == 0 {
        Seq::empty()
    } else {
        plan_ops(p, cmds.drop_last()) + cmd_ops(p, cmds.last())
    }
}

/// The steps of drawing `display_list` into a `width` by `height` window at
/// `scale`, scrolled down `scroll_y` page pixels, in display-list order:
/// the content starts below the chrome and a margin, and only the rows
/// between that and the bottom margin are drawn.
pub fn raster_plan(display_list: &DisplayList, width: u32, height: u32, scroll_y: u32, scale: u32) -> (r: RasterPlan)
    requires
        plan_fits(display_list@.commands, width, height, scroll_y, scale),
    ensures
        r.clip_top == placement(width, height, scroll_y, scale).clip_top,
        r.clip_bottom == placement(width, height, scroll_y, scale).clip_bottom,
        ops_view(r.ops@) == plan_ops(placement(width, height, scroll_y, scale), display_list@.commands),
{
    let ghost p = placement(width, height, scroll_y, scale);
    let ghost cmds = display_list@.commands;
    let content_pixel_width = display_list.width.checked_mul(scale).unwrap_or(u32::MAX);
    let origin_x = compute_content_origin_x(width, content_pixel_width) as i32;
    let origin_y = (chrome_height(scale) + top_margin(scale)) as i32;
    let clip_top = origin_y;
    let clip_bottom = height.saturating_sub(top_margin(scale)) as i32;
    let scroll = scroll_y as i32;
    let k = scale as i32;
    let mut ops: Vec<RasterOp> = Vec::new();
    let mut i: usize = 0;
    while i < display_list.commands.len()
        invariant
            p == placement(width, height, scroll_y, scale),
            cmds == display_list@.commands,
            plan_fits(cmds, width, height, scroll_y, scale),
            origin_x == p.origin_x,
            origin_y == p.origin_y,
            clip_top == p.clip_top,
            clip_bottom == p.clip_bottom,
            scroll == p.scroll,
            k == p.scale,
            i <= cmds.len(),
            ops_view(ops@) == plan_ops(p, cmds.take(i as int)),
        decreases cmds.len() - i,
    {
        let ghost before = ops@;
        proof {
            assert(cmds.take(i + 1).drop_last() =~= cmds.take(i as int));
            assert(cmd_fits(p, cmds[i as int]));
            assert(cmds[i as int] == display_list.commands@[i as int]@);
        }
        match &display_list.commands[i] {
            DisplayCommand::FillRect { x, y, width: w, height: h, color } => {
                let top = origin_y + ((*y as i32 - scroll) * k);
                let rows = *h as i32 * k;
                if !(top >= clip_bottom || top + rows <= clip_top) {
                    ops.push(RasterOp::Fill { x: origin_x + (*x as i32 * k), y: top, width: *w as i32 * k, height: rows, color: *color });
                }
            },
            DisplayCommand::DrawText { x, y, text, width: w, line_height, color, font_weight, underline, font_size } => {
                let top = origin_y + ((*y as i32 - scroll) * k);
                let rows = *line_height as i32 * k;
                if !(top >= clip_bottom || top + rows <= clip_top) {
                    let left = origin_x + (*x as i32 * k);
                    ops.push(RasterOp::Text { x: left, y: top, text: text.clone(), color: *color, font_weight: *font_weight, font_size: *font_size });
                    if *underline {
                        let thickness: i32 = if k < 2 {
                            k
                        } else {
                            2
                        };
                        ops.push(RasterOp::Fill {
                            x: left,
                            y: top + rows - thickness * 2,
                            width: *w as i32 * k,
                            height: thickness,
                            color: Color::rgb(51, 102, 204),
                        });
                    }
                }
            },
        }
        proof {
            assert(ops_view(ops@) =~= ops_view(before) + cmd_ops(p, cmds[i as int]));
        }
        i = i + 1;
    }
    proof {
        assert(cmds.take(i as int) =~= cmds);
    }
    RasterPlan { clip_top, clip_bottom, ops }
}

fn small_product(a: i128, b: i128) -> (r: i128)
    requires
        -0x2_0000_0000 <= a <= 0x2_0000_0000,
        -0x2_0000_0000 <= b <= 0x2_0000_0000,
    ensures
        r == a * b,
        -0x4_0000_0000_0000_0000 <= r <= 0x4_0000_0000_0000_0000,
{
    proof {
        assert(-0x4_0000_0000_0000_0000 <= a * b <= 0x4_0000_0000_0000_0000) by (nonlinear_arith)
            requires
                -0x2_0000_0000 <= a <= 0x2_0000_0000,
                -0x2_0000_0000 <= b <= 0x2_0000_0000,
        ;
    }
    a * b
}

fn fits(v: i128) -> (r: bool)
    ensures
        r == fits_i32(v as int),
{
    -2147483648i128 <= v && v <= 2147483647i128
}

/// Whether the pixel arithmetic of placing one command stays within `i32`.
fn cmd_fits_check(origin_x: i32, origin_y: i32, scroll: i32, k: i32, c: &DisplayCommand) -> (r: bool)
    ensures
        r == cmd_fits(
            Placement {
                origin_x: origin_x as int,
                origin_y: origin_y as int,
                clip_top: 0,
                clip_bottom: 0,
                scroll: scroll as int,
                scale: k as int,
            },
            c@,
        ),
{
    let ox = origin_x as i128;
    let oy = origin_y as i128;
    let sc = scroll as i128;
    let kk = k as i128;
    match c {
        DisplayCommand::FillRect { x, y, width, height, .. } => {
            let dy0 = *y as i32 as i128 - sc;
            let dy1 = small_product(dy0, kk);
            let dy = oy + dy1;
            let h = small_product(*height as i32 as i128, kk);
            let dx1 = small_product(*x as i32 as i128, kk);
            let dx = ox + dx1;
            let w = small_product(*width as i32 as i128, kk);
            fits(dy0) && fits(dy1) && fits(dy) && fits(h) && fits(dy + h) && fits(dx1) && fits(dx) && fits(w)
                && fits(dx + w)
        },
        DisplayCommand::DrawText { x, y, width, line_height, underline, .. } => {
            let dy0 = *y as i32 as i128 - sc;
            let dy1 = small_product(dy0, kk);
            let dy = oy + dy1;
            let h = small_product(*line_height as i32 as i128, kk);
            let dx1 = small_product(*x as i32 as i128, kk);
            let dx = ox + dx1;
            let base = fits(dy0) && fits(dy1) && fits(dy) && fits(h) && fits(dy + h) && fits(dx1) && fits(dx);
            if !*underline {
                base
            } else {
                let t: i128 = if kk < 2 {
                    kk
                } else {
                    2
                };
                let w = small_product(*width as i32 as i128, kk);
                base && fits(dy + h - t * 2) && fits(w) && fits(dx + w) && fits(dy + h - t * 2 + t)
            }
        },
    }
}

/// The plan for `display_list` (see `raster_plan`), or none when its pixel
/// arithmetic would leave `i32`.
pub fn raster_plan_checked(display_list: &DisplayList, width: u32, height: u32, scroll_y: u32, scale: u32) -> (r: Option<RasterPlan>)
    ensures
        match r {
            Some(plan) => plan_fits(display_list@.commands, width, height, scroll_y, scale)
                && plan.clip_top == placement(width, height, scroll_y, scale).clip_top
                && plan.clip_bottom == placement(width, height, scroll_y, scale).clip_bottom
                && ops_view(plan.ops@) == plan_ops(placement(width, height, scroll_y, scale), display_list@.commands),
            None => !plan_fits(display_list@.commands, width, height, scroll_y, scale),
        },
{
    let chrome = crate::viewport::scaled(CHROME_HEIGHT, scale) as u64;
    let margin = crate::viewport::scaled(TOP_MARGIN, scale) as u64;
    if chrome + 2 * margin > 4294967295u64 {
        return None;
    }
    let ghost p = placement(width, height, scroll_y, scale);
    let content_pixel_width = display_list.width.checked_mul(scale).unwrap_or(u32::MAX);
    let origin_x = compute_content_origin_x(width, content_pixel_width) as i32;
    let origin_y = (chrome_height(scale) + top_margin(scale)) as i32;
    let scroll = scroll_y as i32;
    let k = scale as i32;
    let ghost cmds = display_list@.commands;
    let mut i: usize = 0;
    while i < display_list.commands.len()
        invariant
            p == placement(width, height, scroll_y, scale),
            cmds == display_list@.commands,
            origin_x == p.origin_x,
            origin_y == p.origin_y,
            scroll == p.scroll,
            k == p.scale,
            i <= cmds.len(),
            forall|j: int| 0 <= j < i ==> cmd_fits(p, #[trigger] cmds[j]),
        decreases cmds.len() - i,
    {
        proof {
            assert(cmds[i as int] == display_list.commands@[i as int]@);
        }
        if !cmd_fits_check(origin_x, origin_y, scroll, k, &display_list.commands[i]) {
            return None;
        }
        i = i + 1;
    }
    Some(raster_plan(display_list, width, height, scroll_y, scale))
}

} // verus!

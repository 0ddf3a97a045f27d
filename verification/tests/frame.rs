use browser::frame::{
    blend_pixel, clear_frame, draw_glyph_bitmap, draw_rect, draw_rect_clipped, draw_rounded_border, draw_rounded_rect,
    draw_text_bitmap, point_in_rounded_rect, set_pixel,
};
use browser::paint::Color;
use browser::raster::{raster_plan, raster_plan_checked, RasterOp, RasterPlan};
use browser::viewport::{chrome_height, top_margin};
use browser::paint::{DisplayCommand, DisplayList};
use browser::style::FontWeight;

fn pixel(frame: &[u8], width: u32, x: u32, y: u32) -> [u8; 4] {
    let i = ((y * width + x) * 4) as usize;
    [frame[i], frame[i + 1], frame[i + 2], frame[i + 3]]
}

#[test]
fn sets_pixels_inside_the_frame_only() {
    let mut frame = vec![0u8; 4 * 4 * 3];
    let red = Color::rgb(255, 0, 0);
    set_pixel(&mut frame, 4, 3, 1, 2, red);
    assert_eq!(pixel(&frame, 4, 1, 2), [255, 0, 0, 255]);
    set_pixel(&mut frame, 4, 3, -1, 0, red);
    set_pixel(&mut frame, 4, 3, 4, 0, red);
    set_pixel(&mut frame, 4, 3, 0, 3, red);
    assert_eq!(frame.iter().filter(|b| **b != 0).count(), 2);
}

#[test]
fn clears_whole_pixels() {
    let mut frame = vec![7u8; 10];
    clear_frame(&mut frame, Color { r: 1, g: 2, b: 3, a: 4 });
    assert_eq!(frame, vec![1, 2, 3, 4, 1, 2, 3, 4, 7, 7]);
}

#[test]
fn draws_rectangles_cut_to_the_frame() {
    let mut frame = vec![0u8; 5 * 4 * 4];
    draw_rect(&mut frame, 5, 4, -1, 2, 3, 9, Color::rgb(9, 9, 9));
    for y in 0..4 {
        for x in 0..5 {
            let inside = x < 2 && y >= 2;
            assert_eq!(pixel(&frame, 5, x, y)[0] == 9, inside, "pixel {x},{y}");
        }
    }
}

#[test]
fn clipped_rectangles_keep_to_the_clip_rows() {
    let mut frame = vec![0u8; 3 * 6 * 4];
    draw_rect_clipped(&mut frame, 3, 6, 0, 0, 3, 6, Color::rgb(5, 5, 5), 2, 4);
    for y in 0..6 {
        assert_eq!(pixel(&frame, 3, 1, y)[0] == 5, y == 2 || y == 3);
    }
    let before = frame.clone();
    draw_rect_clipped(&mut frame, 3, 6, 0, 0, 3, 2, Color::rgb(6, 6, 6), 2, 4);
    assert_eq!(frame, before);
}

#[test]
fn blends_by_coverage() {
    let mut frame = vec![100u8, 0, 200, 0];
    blend_pixel(&mut frame, 1, 1, 0, 0, Color::rgb(0, 255, 200), 128);
    assert_eq!(frame, vec![50, 128, 200, 255]);
    blend_pixel(&mut frame, 1, 1, 0, 0, Color::rgb(0, 0, 0), 0);
    assert_eq!(frame, vec![50, 128, 200, 255]);
}

#[test]
fn glyph_bitmaps_blend_within_the_clip() {
    let mut frame = vec![0u8; 4 * 4 * 4];
    let bitmap = [255u8, 0, 255, 255];
    draw_glyph_bitmap(&mut frame, 4, 4, 1, 1, 2, 2, &bitmap, Color::rgb(255, 255, 255), None, Some(2));
    assert_eq!(pixel(&frame, 4, 1, 1), [255, 255, 255, 255]);
    assert_eq!(pixel(&frame, 4, 2, 1), [0, 0, 0, 0]);
    assert_eq!(pixel(&frame, 4, 1, 2), [0, 0, 0, 0]);
}

#[test]
fn plans_placed_scrolled_and_clipped_steps() {
    let list = DisplayList {
        width: 100,
        height: 400,
        commands: vec![
            DisplayCommand::FillRect { x: 0, y: 10, width: 50, height: 20, color: Color::rgb(1, 2, 3) },
            DisplayCommand::DrawText {
                x: 4,
                y: 40,
                text: "link".to_string(),
                width: 30,
                line_height: 18,
                color: Color::rgb(0, 0, 255),
                font_weight: FontWeight::Normal,
                underline: true,
                font_size: 16,
            },
            DisplayCommand::FillRect { x: 0, y: 1000, width: 50, height: 20, color: Color::rgb(1, 2, 3) },
        ],
        link_regions: Vec::new(),
        background: Color::rgb(250, 248, 242),
    };
    let plan = raster_plan(&list, 300, 200, 20, 1);
    assert_eq!(plan.clip_top, 84);
    assert_eq!(plan.clip_bottom, 188);
    assert_eq!(
        plan.ops,
        vec![
            RasterOp::Fill { x: 32, y: 74, width: 50, height: 20, color: Color::rgb(1, 2, 3) },
            RasterOp::Text {
                x: 36,
                y: 104,
                text: "link".to_string(),
                color: Color::rgb(0, 0, 255),
                font_weight: FontWeight::Normal,
                font_size: 16,
            },
            RasterOp::Fill { x: 36, y: 120, width: 30, height: 1, color: Color::rgb(51, 102, 204) },
        ]
    );
    let scaled = raster_plan(&list, 300, 400, 0, 2);
    assert_eq!(scaled.clip_top, 168);
    assert_eq!(scaled.clip_bottom, 376);
    assert_eq!(scaled.ops[0], RasterOp::Fill { x: 32, y: 188, width: 100, height: 40, color: Color::rgb(1, 2, 3) });
    assert_eq!(scaled.ops.len(), 3);
}

fn lit_pixels(frame: &[u8]) -> usize {
    frame.chunks(4).filter(|p| p[0] != 0).count()
}

#[test]
fn draws_text_with_the_bitmap_font() {
    let white = Color::rgb(255, 255, 255);
    let mut frame = vec![0u8; 16 * 8 * 4];
    draw_text_bitmap(&mut frame, 16, 8, 0, 0, "!é", white, FontWeight::Normal, 1, None, None);
    assert_eq!(lit_pixels(&frame), 16);
    assert_eq!(pixel(&frame, 16, 3, 0), [255, 255, 255, 255]);
    assert_eq!(pixel(&frame, 16, 2, 0), [0, 0, 0, 0]);
    assert_eq!(pixel(&frame, 16, 2, 1), [255, 255, 255, 255]);

    let mut bold = vec![0u8; 16 * 8 * 4];
    draw_text_bitmap(&mut bold, 16, 8, 0, 0, "!", white, FontWeight::Bold, 1, None, None);
    assert_eq!(lit_pixels(&bold), 22);

    let mut clipped = vec![0u8; 16 * 8 * 4];
    draw_text_bitmap(&mut clipped, 16, 8, 0, 0, "!", white, FontWeight::Normal, 1, Some(2), None);
    assert_eq!(lit_pixels(&clipped), 10);

    let mut big = vec![0u8; 32 * 16 * 4];
    draw_text_bitmap(&mut big, 32, 16, 0, 0, "é!", white, FontWeight::Normal, 2, None, Some(4));
    assert_eq!(lit_pixels(&big), 2 * 4 + 4 * 4);
    assert_eq!(pixel(&big, 32, 16 + 6, 0), [255, 255, 255, 255]);
}

fn paint_fills(plan: &RasterPlan, frame: &mut [u8], width: u32, height: u32) {
    for op in &plan.ops {
        if let RasterOp::Fill { x, y, width: w, height: h, color } = op {
            draw_rect_clipped(frame, width, height, *x, *y, *w, *h, *color, plan.clip_top, plan.clip_bottom);
        }
    }
}

fn one_fill(x: u32, y: u32, width: u32, height: u32) -> DisplayList {
    DisplayList {
        width: 120,
        height: 300,
        commands: vec![DisplayCommand::FillRect { x, y, width, height, color: Color::rgb(255, 0, 0) }],
        link_regions: Vec::new(),
        background: Color::rgb(255, 255, 255),
    }
}

#[test]
fn rasterizes_with_scroll_offset() {
    let scale = 2;
    let display_list = one_fill(10, 40, 20, 10);
    let mut frame = vec![255_u8; (240 * 280 * 4) as usize];
    let plan = raster_plan_checked(&display_list, 240, 280, 35, scale).expect("plan fits");
    paint_fills(&plan, &mut frame, 240, 280);

    let pixel_y = chrome_height(scale) + top_margin(scale) + ((40 - 35) as u32 * scale) + 4;
    let pixel_index = ((pixel_y * 240 + 72) * 4) as usize;
    assert_eq!(frame[pixel_index], 255);
    assert_eq!(frame[pixel_index + 1], 0);
    assert_eq!(frame[pixel_index + 2], 0);
}

#[test]
fn clips_scrolled_content_below_chrome() {
    let scale = 1;
    let display_list = one_fill(10, 0, 40, 40);
    let mut frame = vec![255_u8; (220 * 220 * 4) as usize];
    let plan = raster_plan_checked(&display_list, 220, 220, 25, scale).expect("plan fits");
    paint_fills(&plan, &mut frame, 220, 220);

    let chrome_pixel_index = (((chrome_height(scale) - 4) * 220 + 48) * 4) as usize;
    assert_eq!(frame[chrome_pixel_index], 255);
    assert_eq!(frame[chrome_pixel_index + 1], 255);
    assert_eq!(frame[chrome_pixel_index + 2], 255);

    let content_pixel_y = chrome_height(scale) + top_margin(scale) + 2;
    let content_pixel_index = ((content_pixel_y * 220 + 48) * 4) as usize;
    assert_eq!(frame[content_pixel_index], 255);
    assert_eq!(frame[content_pixel_index + 1], 0);
    assert_eq!(frame[content_pixel_index + 2], 0);
}

#[test]
fn refuses_plans_whose_arithmetic_overflows() {
    let display_list = one_fill(10, u32::MAX / 2, 40, 40);
    assert!(raster_plan_checked(&display_list, 220, 220, 0, 4).is_none());
    assert!(raster_plan_checked(&one_fill(10, 0, 40, 40), 220, 220, 0, u32::MAX).is_none());
}

#[test]
fn rounded_rect_cuts_its_corners() {
    // Radius 4 on a 10 by 10 square: the corner pixel lies outside the
    // quarter circle, the one diagonally next to it inside.
    assert!(!point_in_rounded_rect(0, 0, 0, 0, 10, 10, 4));
    assert!(point_in_rounded_rect(1, 1, 0, 0, 10, 10, 4));
    assert!(!point_in_rounded_rect(9, 9, 0, 0, 10, 10, 4));
    assert!(point_in_rounded_rect(8, 8, 0, 0, 10, 10, 4));
    assert!(point_in_rounded_rect(5, 0, 0, 0, 10, 10, 4));
    assert!(point_in_rounded_rect(0, 5, 0, 0, 10, 10, 4));
    assert!(!point_in_rounded_rect(10, 5, 0, 0, 10, 10, 4));
    assert!(!point_in_rounded_rect(5, -1, 0, 0, 10, 10, 4));
    // A radius of 0, or an empty rectangle.
    assert!(point_in_rounded_rect(0, 0, 0, 0, 10, 10, 0));
    assert!(!point_in_rounded_rect(0, 0, 0, 0, 0, 10, 4));
    // The radius is held to half the shorter side.
    assert!(!point_in_rounded_rect(0, 0, 0, 0, 20, 8, 100));
    assert!(point_in_rounded_rect(1, 1, 0, 0, 20, 8, 100));
    assert!(point_in_rounded_rect(0, 0, 0, 0, 20, 4, 100));
}

#[test]
fn draws_rounded_rect_within_the_frame() {
    let mut frame = vec![0u8; 12 * 12 * 4];
    let blue = Color::rgb(0, 0, 255);
    draw_rounded_rect(&mut frame, 12, 12, 1, 1, 10, 10, 4, blue);
    assert_eq!(pixel(&frame, 12, 1, 1), [0, 0, 0, 0]);
    assert_eq!(pixel(&frame, 12, 2, 2), [0, 0, 255, 255]);
    assert_eq!(pixel(&frame, 12, 6, 6), [0, 0, 255, 255]);
    assert_eq!(pixel(&frame, 12, 6, 1), [0, 0, 255, 255]);
    assert_eq!(pixel(&frame, 12, 10, 10), [0, 0, 0, 0]);
    assert_eq!(pixel(&frame, 12, 11, 6), [0, 0, 0, 0]);
    assert_eq!(pixel(&frame, 12, 0, 6), [0, 0, 0, 0]);

    // Partly off the frame: only the pixels inside are painted.
    let mut frame = vec![0u8; 4 * 4 * 4];
    draw_rounded_rect(&mut frame, 4, 4, -2, -2, 5, 5, 0, blue);
    assert_eq!(pixel(&frame, 4, 0, 0), [0, 0, 255, 255]);
    assert_eq!(pixel(&frame, 4, 2, 2), [0, 0, 255, 255]);
    assert_eq!(pixel(&frame, 4, 3, 3), [0, 0, 0, 0]);
}

#[test]
fn draws_rounded_border_as_an_outline() {
    let mut frame = vec![0u8; 10 * 10 * 4];
    let grey = Color::rgb(9, 9, 9);
    draw_rounded_border(&mut frame, 10, 10, 0, 0, 10, 10, 0, 2, grey);
    assert_eq!(pixel(&frame, 10, 0, 0), [9, 9, 9, 255]);
    assert_eq!(pixel(&frame, 10, 1, 5), [9, 9, 9, 255]);
    assert_eq!(pixel(&frame, 10, 8, 8), [9, 9, 9, 255]);
    assert_eq!(pixel(&frame, 10, 2, 2), [0, 0, 0, 0]);
    assert_eq!(pixel(&frame, 10, 5, 5), [0, 0, 0, 0]);

    // A border of zero paints nothing.
    let mut frame = vec![0u8; 10 * 10 * 4];
    draw_rounded_border(&mut frame, 10, 10, 0, 0, 10, 10, 3, 0, grey);
    assert!(frame.iter().all(|b| *b == 0));

    // A border thicker than half the rectangle fills it.
    let mut frame = vec![0u8; 10 * 10 * 4];
    draw_rounded_border(&mut frame, 10, 10, 0, 0, 6, 6, 0, 3, grey);
    assert_eq!(pixel(&frame, 10, 3, 3), [9, 9, 9, 255]);
    assert_eq!(pixel(&frame, 10, 6, 6), [0, 0, 0, 0]);
}

#[test]
fn square_cornered_rounded_rect_matches_draw_rect() {
    let green = Color::rgb(0, 200, 0);
    let mut a = vec![7u8; 9 * 7 * 4];
    let mut b = a.clone();
    draw_rounded_rect(&mut a, 9, 7, -1, 2, 6, 9, 0, green);
    draw_rect(&mut b, 9, 7, -1, 2, 6, 9, green);
    assert_eq!(a, b);
}

#[test]
fn frame_size_limit() {
    assert!(browser::frame::frame_fits_at(960, 720));
    assert!(browser::frame::frame_fits_at(0, u32::MAX));
    assert!(browser::frame::frame_fits_at(32768, 32767));
    assert!(!browser::frame::frame_fits_at(32768, 32768));
    assert!(browser::viewport::chrome_fits_at(3));
    assert!(!browser::viewport::chrome_fits_at(u32::MAX));
}

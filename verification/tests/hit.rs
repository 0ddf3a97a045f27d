use browser::hit::{address_bar_hit_test, link_hit_test, Coord};
use browser::paint::{Color, DisplayList, LinkRegion};

fn at(v: f64) -> Coord {
    Coord { lo: v.floor() as i64, hi: v.ceil() as i64 }
}

#[test]
fn gui_detects_address_bar_hits() {
    assert!(address_bar_hit_test(at(30.0), at(20.0), 900, 1));
    assert!(!address_bar_hit_test(at(30.0), at(90.0), 900, 1));
    assert!(address_bar_hit_test(at(60.0), at(40.0), 1800, 2));
}

#[test]
fn address_bar_edges_are_inclusive_and_exact() {
    assert!(address_bar_hit_test(at(12.0), at(12.0), 900, 1));
    assert!(address_bar_hit_test(at(888.0), at(44.0), 900, 1));
    assert!(!address_bar_hit_test(at(11.5), at(20.0), 900, 1));
    assert!(!address_bar_hit_test(at(888.25), at(20.0), 900, 1));
    assert!(address_bar_hit_test(at(12.5), at(43.9), 900, 1));
    assert!(!address_bar_hit_test(at(30.0), at(44.1), 900, 1));
}

fn one_link() -> DisplayList {
    DisplayList {
        width: 240,
        height: 120,
        commands: Vec::new(),
        link_regions: vec![LinkRegion {
            x: 32,
            y: 24,
            width: 80,
            height: 24,
            target: "https://example.com".to_string(),
        }],
        background: Color::rgb(255, 255, 255),
    }
}

#[test]
fn detects_link_hits() {
    let display_list = one_link();
    let hit = link_hit_test(&display_list, at(80.0), at(110.0), 320, 1, 0);
    assert_eq!(hit.as_deref(), Some("https://example.com"));
    assert!(link_hit_test(&display_list, at(10.0), at(10.0), 320, 1, 0).is_none());
}

#[test]
fn link_boxes_follow_scroll_and_scale() {
    let display_list = one_link();
    // Scrolled by 20: the box spans rows 84 + 4 to 84 + 28.
    assert!(link_hit_test(&display_list, at(64.0), at(88.0), 320, 1, 20).is_some());
    assert!(link_hit_test(&display_list, at(64.0), at(87.5), 320, 1, 20).is_none());
    // At scale 2 the page starts at row 168 and the box at column 32 + 64.
    assert!(link_hit_test(&display_list, at(96.0), at(216.0), 320, 2, 0).is_some());
    assert!(link_hit_test(&display_list, at(95.0), at(216.0), 320, 2, 0).is_none());
    // The first of two overlapping links wins.
    let mut two = one_link();
    two.link_regions.push(LinkRegion { x: 0, y: 0, width: 500, height: 500, target: "b".to_string() });
    assert_eq!(link_hit_test(&two, at(80.0), at(110.0), 320, 1, 0).as_deref(), Some("https://example.com"));
    assert_eq!(link_hit_test(&two, at(40.0), at(90.0), 320, 1, 0).as_deref(), Some("b"));
}

#[test]
fn scale_limits_of_hit_tests() {
    assert!(browser::hit::address_bar_fits_at(1));
    assert!(!browser::hit::address_bar_fits_at(u32::MAX));
    assert!(browser::hit::page_origin_fits_at(2));
    assert!(!browser::hit::page_origin_fits_at(60_000_000));
}

use pdfextend::{extend_page_rect, Color, ExtendParams, Rect};

fn params(left: i64, right: i64, top: i64, bottom: i64, mirror: bool) -> ExtendParams {
    ExtendParams {
        extend_left: left,
        extend_right: right,
        extend_top: top,
        extend_bottom: bottom,
        spacing: 1_800_000,
        line_width: 36_000,
        grid: None,
        color: Color { r: 0xF0, g: 0xF0, b: 0xF0 },
        extra_page: false,
        mirror,
    }
}

fn page() -> Rect {
    // 200 x 300 points.
    Rect { left: 0, right: 25_400_000, top: 38_100_000, bottom: 0 }
}

#[test]
fn every_extended_side_moves_outward() {
    let p = params(100, 200, 300, 400, false);
    let r = extend_page_rect(&page(), &p, 0);
    assert_eq!(r.left, -100);
    assert_eq!(r.right, 25_400_200);
    assert_eq!(r.top, 38_100_300);
    assert_eq!(r.bottom, -400);
}

#[test]
fn zero_extension_leaves_the_rectangle_unchanged() {
    let p = params(0, 0, 0, 0, false);
    assert_eq!(extend_page_rect(&page(), &p, 0), page());
    assert_eq!(extend_page_rect(&page(), &p, 7), page());
}

#[test]
fn mirroring_swaps_left_and_right_on_odd_pages() {
    let p = params(100, 200, 5, 7, true);
    let even = extend_page_rect(&page(), &p, 0);
    assert_eq!(even.left, -100);
    assert_eq!(even.right, 25_400_200);
    let odd = extend_page_rect(&page(), &p, 1);
    assert_eq!(odd.left, -200);
    assert_eq!(odd.right, 25_400_100);
    // Top and bottom are never mirrored.
    assert_eq!(odd.top, even.top);
    assert_eq!(odd.bottom, even.bottom);
    // The swap alternates with every page.
    assert_eq!(extend_page_rect(&page(), &p, 2), even);
    assert_eq!(extend_page_rect(&page(), &p, 3), odd);
}

#[test]
fn without_mirroring_every_page_gets_the_same_margins() {
    let p = params(100, 200, 5, 7, false);
    let a = extend_page_rect(&page(), &p, 0);
    let b = extend_page_rect(&page(), &p, 1);
    assert_eq!(a, b);
}

#[test]
fn running_the_extender_twice_extends_further() {
    // Not idempotent by design: a second run grows the page again.
    let p = params(100, 0, 0, 50, false);
    let once = extend_page_rect(&page(), &p, 0);
    let twice = extend_page_rect(&once, &p, 0);
    assert_eq!(once.left, -100);
    assert_eq!(twice.left, -200);
    assert_eq!(once.bottom, -50);
    assert_eq!(twice.bottom, -100);
    assert_ne!(once, twice);
}

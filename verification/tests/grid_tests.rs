use pdfextend::{
    extend_page, extend_page_rect, make_grid, Color, ExtendParams, LineType, PathElem, Rect,
};

fn params(grid: LineType, spacing: i64, width: i64) -> ExtendParams {
    ExtendParams {
        extend_left: 0,
        extend_right: 0,
        extend_top: 0,
        extend_bottom: 0,
        spacing,
        line_width: width,
        grid: Some(grid),
        color: Color { r: 0xF0, g: 0xF0, b: 0xF0 },
        extra_page: false,
        mirror: false,
    }
}

#[test]
fn horizontal_rule_count_follows_the_formula() {
    // Height 10, spacing 3: rules at y = 7, 4, 1 - floor((10-1)/3) = 3.
    let outer = Rect { left: 0, right: 10, top: 10, bottom: 0 };
    let elems = make_grid(None, &outer, &params(LineType::Lines, 3, 1));
    assert_eq!(elems.len(), 3);
    assert_eq!(elems[0], PathElem::Line { x1: 0, y1: 7, x2: 10, y2: 7 });
    assert_eq!(elems[1], PathElem::Line { x1: 0, y1: 4, x2: 10, y2: 4 });
    assert_eq!(elems[2], PathElem::Line { x1: 0, y1: 1, x2: 10, y2: 1 });
}

#[test]
fn an_exact_fit_rule_on_the_bottom_edge_is_not_drawn() {
    // Height 9, spacing 3: y = 6, 3; y = 0 is not above the bottom.
    let outer = Rect { left: 0, right: 10, top: 9, bottom: 0 };
    let elems = make_grid(None, &outer, &params(LineType::Lines, 3, 1));
    assert_eq!(elems.len(), 2);
}

#[test]
fn spacing_larger_than_the_height_yields_no_rules() {
    let outer = Rect { left: 0, right: 10, top: 4, bottom: 0 };
    let elems = make_grid(None, &outer, &params(LineType::Lines, 5, 1));
    assert_eq!(elems.len(), 0);
}

#[test]
fn squares_add_vertical_rules() {
    let outer = Rect { left: 0, right: 10, top: 10, bottom: 0 };
    let elems = make_grid(None, &outer, &params(LineType::Squares, 3, 1));
    // 3 horizontal rules, then vertical rules at x = 3, 6, 9.
    assert_eq!(elems.len(), 6);
    assert_eq!(elems[3], PathElem::Line { x1: 3, y1: 10, x2: 3, y2: 0 });
    assert_eq!(elems[4], PathElem::Line { x1: 6, y1: 10, x2: 6, y2: 0 });
    assert_eq!(elems[5], PathElem::Line { x1: 9, y1: 10, x2: 9, y2: 0 });
}

#[test]
fn dots_fill_the_open_page() {
    // Rows while y >= bottom + width, columns while x <= right - width.
    let outer = Rect { left: 0, right: 10, top: 10, bottom: 0 };
    let elems = make_grid(None, &outer, &params(LineType::Dots, 3, 1));
    // y = 7, 4, 1; x = 3, 6, 9.
    assert_eq!(elems.len(), 9);
    assert_eq!(elems[0], PathElem::Dot { x: 3, y: 7 });
    assert_eq!(elems[8], PathElem::Dot { x: 9, y: 1 });
}

#[test]
fn dots_keep_a_padded_distance_from_the_content() {
    // Inner 0..10 x 0..10 inside outer -10..10 x -10..10, spacing 4, width 2.
    // The exclusion zone spans x in [-2, 14] and y in [-4, 14].
    let inner = Rect { left: 0, right: 10, top: 10, bottom: 0 };
    let outer = Rect { left: -10, right: 10, top: 10, bottom: -10 };
    let elems = make_grid(Some(&inner), &outer, &params(LineType::Dots, 4, 2));
    assert_eq!(
        elems,
        vec![
            PathElem::Dot { x: -6, y: 6 },
            PathElem::Dot { x: -6, y: 2 },
            PathElem::Dot { x: -6, y: -2 },
            PathElem::Dot { x: -6, y: -6 },
            PathElem::Dot { x: -2, y: -6 },
            PathElem::Dot { x: 2, y: -6 },
            PathElem::Dot { x: 6, y: -6 },
        ]
    );
}

#[test]
fn rules_crossing_the_content_keep_only_margin_stubs() {
    let inner = Rect { left: 0, right: 10, top: 10, bottom: 0 };
    let outer = Rect { left: -10, right: 14, top: 10, bottom: 0 };
    let elems = make_grid(Some(&inner), &outer, &params(LineType::Lines, 4, 1));
    // y = 6 and y = 2, both inside the inner vertical span: a left stub
    // from outer.left to inner.left and a right stub from inner.right to
    // outer.right each.
    assert_eq!(
        elems,
        vec![
            PathElem::Line { x1: -10, y1: 6, x2: 0, y2: 6 },
            PathElem::Line { x1: 10, y1: 6, x2: 14, y2: 6 },
            PathElem::Line { x1: -10, y1: 2, x2: 0, y2: 2 },
            PathElem::Line { x1: 10, y1: 2, x2: 14, y2: 2 },
        ]
    );
}

#[test]
fn rules_outside_the_content_span_run_full_width() {
    let inner = Rect { left: 0, right: 10, top: 5, bottom: 0 };
    let outer = Rect { left: 0, right: 10, top: 10, bottom: 0 };
    let elems = make_grid(Some(&inner), &outer, &params(LineType::Lines, 3, 1));
    // y = 7 lies above the inner top: a full rule. y = 4 and y = 1 lie
    // inside the span with no left or right margin: nothing.
    assert_eq!(elems, vec![PathElem::Line { x1: 0, y1: 7, x2: 10, y2: 7 }]);
}

// A single page with a 0..200 x 0..300 pt crop box, extended by 50 mm on
// the left with a squared 5 mm grid: rules appear only in the new left
// margin band, never inside the original content area.
#[test]
fn left_margin_scenario_confines_the_grid() {
    let inner = Rect { left: 0, right: 25_400_000, top: 38_100_000, bottom: 0 };
    let mut p = params(LineType::Squares, 1_800_000, 36_000);
    p.extend_left = 18_000_000; // 50 mm
    let (outer, overlay) = extend_page(&inner, &p, 0);
    assert_eq!(outer, Rect { left: -18_000_000, right: 25_400_000, top: 38_100_000, bottom: 0 });
    assert_eq!(outer, extend_page_rect(&inner, &p, 0));
    let elems = overlay.unwrap();
    // 21 horizontal stubs (floor((38100000-1)/1800000)) and 9 vertical
    // rules at x = -16.2 mm-grid steps up to -1.8, all left of x = 0.
    assert_eq!(elems.len(), 30);
    let mut horizontal = 0;
    let mut vertical = 0;
    for e in elems.iter() {
        match *e {
            PathElem::Line { x1, y1, x2, y2 } => {
                assert!(x1 <= 0 && x2 <= 0, "segment reaches into the content area");
                if y1 == y2 {
                    horizontal += 1;
                    assert_eq!(x1, -18_000_000);
                    assert_eq!(x2, 0);
                    assert!(y1 > 0 && y1 < 38_100_000);
                    assert_eq!((38_100_000 - y1) % 1_800_000, 0);
                } else {
                    vertical += 1;
                    assert_eq!(y1, 38_100_000);
                    assert_eq!(y2, 0);
                    assert!(x1 < 0);
                    assert_eq!((x1 - -18_000_000) % 1_800_000, 0);
                }
            },
            PathElem::Dot { .. } => panic!("no dots in a squared grid"),
        }
    }
    assert_eq!(horizontal, 21);
    assert_eq!(vertical, 9);
}

#[test]
fn no_grid_configured_yields_no_overlay() {
    let inner = Rect { left: 0, right: 1000, top: 1000, bottom: 0 };
    let mut p = params(LineType::Lines, 100, 10);
    p.grid = None;
    p.extend_top = 500;
    let (outer, overlay) = extend_page(&inner, &p, 0);
    assert_eq!(outer.top, 1500);
    assert!(overlay.is_none());
}

use pdfextend::units::to_subpoints;
use pdfextend::{Args, Color, ExtendParams, LineType, Unit, ValidationError};

fn base_args() -> Args {
    Args {
        input: String::from("in.pdf"),
        output: String::from("out.pdf"),
        left: 0,
        right: 0,
        top: 0,
        bottom: 0,
        spacing: None,
        line_width: None,
        unit: Unit::Mm,
        grid: None,
        extra_page: false,
        mirror: false,
        color: Color { r: 0xF0, g: 0xF0, b: 0xF0 },
    }
}

#[test]
fn unit_conversions_are_exact() {
    // One of each unit, given in thousandths.
    assert_eq!(to_subpoints(1000, Unit::Pt), 127_000);
    assert_eq!(to_subpoints(1000, Unit::In), 9_144_000);
    assert_eq!(to_subpoints(1000, Unit::Mm), 360_000);
    assert_eq!(to_subpoints(1000, Unit::Cm), 3_600_000);
    // 1 inch is 72 points, 25.4 mm is 1 inch.
    assert_eq!(to_subpoints(1000, Unit::In), 72 * 127_000);
    assert_eq!(to_subpoints(25_400, Unit::Mm), to_subpoints(1000, Unit::In));
}

#[test]
fn spacing_defaults_to_five_millimeters() {
    let p = ExtendParams::new(&base_args()).unwrap();
    assert_eq!(p.spacing, 1_800_000);
}

#[test]
fn line_width_defaults_depend_on_grid_kind() {
    let p = ExtendParams::new(&base_args()).unwrap();
    assert_eq!(p.line_width, 36_000); // 0.1 mm
    let mut a = base_args();
    a.grid = Some(LineType::Squares);
    assert_eq!(ExtendParams::new(&a).unwrap().line_width, 36_000);
    a.grid = Some(LineType::Dots);
    assert_eq!(ExtendParams::new(&a).unwrap().line_width, 252_000); // 0.7 mm
}

#[test]
fn explicit_values_override_defaults() {
    let mut a = base_args();
    a.unit = Unit::Pt;
    a.left = 50_000; // 50 pt
    a.spacing = Some(10_000); // 10 pt
    a.line_width = Some(2_000); // 2 pt
    let p = ExtendParams::new(&a).unwrap();
    assert_eq!(p.extend_left, 50 * 127_000);
    assert_eq!(p.spacing, 10 * 127_000);
    assert_eq!(p.line_width, 2 * 127_000);
    assert_eq!(p.extend_right, 0);
}

#[test]
fn zero_spacing_is_rejected() {
    let mut a = base_args();
    a.spacing = Some(0);
    let e = ExtendParams::new(&a).unwrap_err();
    assert_eq!(e, ValidationError::ZeroSpacing);
    assert_eq!(e.message(), "Spacing must be positive");
}

#[test]
fn zero_line_width_is_rejected() {
    let mut a = base_args();
    a.line_width = Some(0);
    let e = ExtendParams::new(&a).unwrap_err();
    assert_eq!(e, ValidationError::ZeroLineWidth);
    assert_eq!(e.message(), "Line width must be positive");
}

#[test]
fn flags_are_carried_over() {
    let mut a = base_args();
    a.grid = Some(LineType::Lines);
    a.extra_page = true;
    a.mirror = true;
    a.color = Color { r: 1, g: 2, b: 3 };
    let p = ExtendParams::new(&a).unwrap();
    assert_eq!(p.grid, Some(LineType::Lines));
    assert!(p.extra_page);
    assert!(p.mirror);
    assert_eq!(p.color, Color { r: 1, g: 2, b: 3 });
}

use waystream::geometry::{
    format_geometry_comma, format_geometry_spaces, parse_geometry, parse_geometry_bytes,
    CaptureRegion,
};

fn region(x: i32, y: i32, w: i32, h: i32) -> CaptureRegion {
    CaptureRegion { x_coordinate: x, y_coordinate: y, width: w, height: h }
}

#[test]
fn parses_comma_form() {
    assert_eq!(parse_geometry("10,20 300x200"), Some(region(10, 20, 300, 200)));
}

#[test]
fn parses_space_form() {
    assert_eq!(parse_geometry("10 20 300 200"), Some(region(10, 20, 300, 200)));
}

#[test]
fn parses_negative_coordinates() {
    assert_eq!(parse_geometry("-1920,0 1920x1080"), Some(region(-1920, 0, 1920, 1080)));
    assert_eq!(parse_geometry("-5 -6 7 8"), Some(region(-5, -6, 7, 8)));
}

#[test]
fn parses_explicit_plus_sign() {
    assert_eq!(parse_geometry("+5,+6 7x8"), Some(region(5, 6, 7, 8)));
}

#[test]
fn parses_surrounding_whitespace() {
    assert_eq!(parse_geometry("  10,20 30x40\n"), Some(region(10, 20, 30, 40)));
    assert_eq!(parse_geometry("\t1 2 3 4 "), Some(region(1, 2, 3, 4)));
}

#[test]
fn rejects_missing_delimiters() {
    assert_eq!(parse_geometry(""), None);
    assert_eq!(parse_geometry("10,20"), None);
    assert_eq!(parse_geometry("10,20 30"), None);
    assert_eq!(parse_geometry("10 20 30"), None);
    assert_eq!(parse_geometry("10,20,30,40"), None);
}

#[test]
fn rejects_malformed_fields() {
    assert_eq!(parse_geometry("a,20 30x40"), None);
    assert_eq!(parse_geometry("10,20 30xforty"), None);
    assert_eq!(parse_geometry("10,20 30x"), None);
    assert_eq!(parse_geometry("1,2 3x4 junk"), None);
    assert_eq!(parse_geometry("-,2 3x4"), None);
}

#[test]
fn respects_i32_range() {
    assert_eq!(parse_geometry("2147483647,0 1x1"), Some(region(i32::MAX, 0, 1, 1)));
    assert_eq!(parse_geometry("2147483648,0 1x1"), None);
    assert_eq!(parse_geometry("-2147483648,0 1x1"), Some(region(i32::MIN, 0, 1, 1)));
    assert_eq!(parse_geometry("-2147483649,0 1x1"), None);
}

#[test]
fn formats_the_comma_form_exactly() {
    let out = format_geometry_comma(&region(1, -2, 3, 4));
    assert_eq!(out, b"1,-2 3x4".to_vec());
}

#[test]
fn formats_the_space_form_exactly() {
    let out = format_geometry_spaces(&region(-10, 20, 30, 40));
    assert_eq!(out, b"-10 20 30 40".to_vec());
}

#[test]
fn round_trips_the_comma_form() {
    let cases = [
        region(0, 0, 1, 1),
        region(1000, 100, 1600, 400),
        region(-1920, -1080, 3840, 2160),
        region(i32::MIN, i32::MAX, 7, 9),
    ];
    for r in cases {
        let text = format_geometry_comma(&r);
        assert_eq!(parse_geometry_bytes(&text), Some(r));
    }
}

#[test]
fn round_trips_the_space_form() {
    let cases = [
        region(0, 0, 1, 1),
        region(1000, 100, 1600, 400),
        region(-7, 5, 123456, 654321),
    ];
    for r in cases {
        let text = format_geometry_spaces(&r);
        assert_eq!(parse_geometry_bytes(&text), Some(r));
    }
}

use svg_diff::number::{parse_fixed, print_fixed, SCALE};
use svg_diff::svg_data::attributes::parse_color_value;
use svg_diff::svg_data::attributes::view_box::ViewBoxValue;
use svg_diff::svg_data::attributes::path::PathValue;
use svg_diff::svg_data::tag::Tag;
use svg_diff::errors::SvgError;
use svg_diff::diff::matching_ids::MatchingIdGenerator;

fn chars(s: &str) -> Vec<char> {
    s.chars().collect()
}

fn string(v: Vec<char>) -> String {
    v.into_iter().collect()
}

#[test]
fn parse_plain_number() {
    assert_eq!(parse_fixed(&chars("50")), Some(50 * SCALE as i64));
    assert_eq!(parse_fixed(&chars("-1.5")), Some(-150_000_000));
    assert_eq!(parse_fixed(&chars("0.25")), Some(25_000_000));
    assert_eq!(parse_fixed(&chars("")), None);
    assert_eq!(parse_fixed(&chars("a")), None);
    assert_eq!(parse_fixed(&chars("1.2.3")), None);
}

#[test]
fn print_trims_zeroes() {
    assert_eq!(string(print_fixed(50 * SCALE as i64)), "50");
    assert_eq!(string(print_fixed(-150_000_000)), "-1.5");
    assert_eq!(string(print_fixed(25_000_000)), "0.25");
}

#[test]
fn number_round_trip() {
    for s in ["50", "-1.5", "0.25", "123.456", "0"] {
        let v = parse_fixed(&chars(s)).unwrap();
        let printed = string(print_fixed(v));
        assert_eq!(parse_fixed(&chars(&printed)), Some(v));
        // printing the reparsed value is byte-stable
        assert_eq!(string(print_fixed(parse_fixed(&chars(&printed)).unwrap())), printed);
    }
}

#[test]
fn colour_canonical() {
    assert_eq!(parse_color_value("red").unwrap(), "#ff0000");
    assert_eq!(parse_color_value("#FF0000").unwrap(), "#ff0000");
    assert_eq!(parse_color_value("rgb(255,0,0)").unwrap(), "#ff0000");
    assert_eq!(parse_color_value("#f00").unwrap(), "#ff0000");
    assert_eq!(parse_color_value("#00ff0080").unwrap(), "#00ff0080");
    assert!(parse_color_value("no-such-colour").is_none());
}

#[test]
fn colour_idempotent() {
    // parsing a serialised canonical colour twice is byte-stable
    for s in ["red", "#ABCDEF", "rgb(1,2,3)", "#12345678"] {
        let once = parse_color_value(s).unwrap();
        let twice = parse_color_value(&once).unwrap();
        assert_eq!(once, twice);
    }
}

#[test]
fn view_box_parses() {
    let v = ViewBoxValue::from_string(&chars("0 0 100 50")).unwrap();
    assert_eq!(v.to_string(), "0 0 100 50");
    assert!(ViewBoxValue::from_string(&chars("0 0 -1 50")).is_err());
    assert!(ViewBoxValue::from_string(&chars("0 0 100")).is_err());
}

#[test]
fn path_normalises() {
    // absolute segments after the move become relative
    let p = PathValue::from_string(&chars("M 10 10 L 20 20")).unwrap();
    assert_eq!(p.to_string(), "M 10 10l 10 10");
    // a path must begin with a move
    assert!(PathValue::from_string(&chars("L 10 10")).is_err());
    // parsing a serialised canonical path twice is byte-stable
    let once = p.to_string();
    let p2 = PathValue::from_string(&chars(&once)).unwrap();
    assert_eq!(p2.to_string(), once);
}

#[test]
fn bad_attribute_value() {
    let r = Tag::new(
        "g".to_string(),
        "".to_string(),
        vec![("transform".to_string(), "rotate(".to_string())],
    );
    assert_eq!(r.err(), Some(SvgError::AttributeParse));
}

#[test]
fn generator_ids_increase() {
    let mut g = MatchingIdGenerator::new();
    let a = g.next(None);
    let b = g.next(None);
    assert_ne!(a, b);
    assert!(a.ends_with("-0"));
    assert!(b.ends_with("-1"));
    let c = g.next(Some("kept".to_string()));
    assert_eq!(c, "kept");
}

#[test]
fn path_vertical_line_relative_to_pen_y() {
    // an absolute vertical line subtracts the pen's y coordinate
    let p = PathValue::from_string(&chars("M 10 20 V 25")).unwrap();
    assert_eq!(p.to_string(), "M 10 20v 5");
}

#[test]
fn path_arc_radii_kept() {
    // the radii of an arc are lengths and survive normalisation unchanged
    let p = PathValue::from_string(&chars("M 0 0 A 5 6 0 0 1 10 10")).unwrap();
    assert_eq!(p.to_string(), "M 0 0a 5 6 0 0 1 10 10");
}

#[test]
fn color_canonical_form_is_fixed_point() {
    // parsing the canonical serialisation a second time is byte-equal
    let once = parse_color_value("rgb(12, 34, 56)").unwrap();
    let twice = parse_color_value(&once).unwrap();
    assert_eq!(once, twice);
    assert_eq!(once, "#0c2238");
}

//! Scale arithmetic and roman-numeral chord notation.

use undertone::note::{Scale, major_pattern, minor_pattern, parse_roman_numeral_notation};

#[test]
fn major_scale_degrees() {
    let pattern = major_pattern();
    let scale = Scale::new(&pattern, 60);
    assert_eq!(scale.degree(60), Some((0, 0)));
    assert_eq!(scale.degree(64), Some((0, 2)));
    assert_eq!(scale.degree(67), Some((0, 4)));
    assert_eq!(scale.degree(72), Some((1, 0)));
    assert_eq!(scale.degree(61), None);
    assert_eq!(scale.degree(52), Some((-1, 2)));
}

#[test]
fn minor_scale_degrees() {
    let pattern = minor_pattern();
    let scale = Scale::new(&pattern, 57);
    assert_eq!(scale.degree(57), Some((0, 0)));
    assert_eq!(scale.degree(60), Some((0, 2)));
    assert_eq!(scale.degree(58), None);
}

#[test]
fn pitch_walks_the_pattern() {
    let pattern = major_pattern();
    let scale = Scale::new(&pattern, 60);
    assert_eq!(scale.pitch(0), 60);
    assert_eq!(scale.pitch(2), 64);
    assert_eq!(scale.pitch(4), 67);
    assert_eq!(scale.pitch(7), 72);
    assert_eq!(scale.pitch(-5), 52);
    assert_eq!(scale.pitch(-7), 48);
}

#[test]
fn roman_numerals_name_triads() {
    let (degree, semis) = parse_roman_numeral_notation("IV");
    assert_eq!(degree, 3);
    assert_eq!(semis, vec![0, 4, 7]);

    let (degree, semis) = parse_roman_numeral_notation("iii");
    assert_eq!(degree, 2);
    assert_eq!(semis, vec![0, 3, 7]);

    let (degree, semis) = parse_roman_numeral_notation("V\u{1424}");
    assert_eq!(degree, 4);
    assert_eq!(semis, vec![0, 3, 6]);

    let (degree, semis) = parse_roman_numeral_notation("  ii");
    assert_eq!(degree, 1);
    assert_eq!(semis, vec![0, 3, 7]);

    let (degree, semis) = parse_roman_numeral_notation("VII");
    assert_eq!(degree, 6);
    assert_eq!(semis, vec![0, 4, 7]);
}

use nm_codegen::model::common::Version;
use nm_codegen::parse::common::{
    extract_since_and_deprecated, extract_version_after, parse_u32, parse_version,
    trim_trailing_blank_lines,
};

fn chars(s: &str) -> Vec<char> {
    s.chars().collect()
}

fn lines(ls: &[&str]) -> Vec<String> {
    ls.iter().map(|s| s.to_string()).collect()
}

#[test]
fn parse_version_reads_major_and_minor() {
    assert_eq!(parse_version(&chars("1.2")), Some(Version { major: 1, minor: 2 }));
    assert_eq!(parse_version(&chars("1.40.6")), Some(Version { major: 1, minor: 40 }));
    assert_eq!(parse_version(&chars("0.0")), Some(Version { major: 0, minor: 0 }));
    assert_eq!(parse_version(&chars("007.010")), Some(Version { major: 7, minor: 10 }));
}

#[test]
fn parse_version_needs_two_numbers() {
    assert_eq!(parse_version(&chars("")), None);
    assert_eq!(parse_version(&chars("1")), None);
    assert_eq!(parse_version(&chars("1.")), None);
    assert_eq!(parse_version(&chars(".5")), None);
    assert_eq!(parse_version(&chars("..")), None);
}

#[test]
fn parse_version_refuses_numbers_past_u32() {
    assert_eq!(parse_version(&chars("4294967295.1")), Some(Version { major: 4294967295, minor: 1 }));
    assert_eq!(parse_version(&chars("4294967296.1")), None);
    assert_eq!(parse_version(&chars("1.99999999999")), None);
}

#[test]
fn parse_u32_reads_a_digit_range() {
    let v = chars("x123y");
    assert_eq!(parse_u32(&v, 1, 4), Some(123));
    assert_eq!(parse_u32(&v, 1, 1), None);
    assert_eq!(parse_u32(&v, 0, 4), None);
    let signed = chars("+5");
    assert_eq!(parse_u32(&signed, 0, 2), Some(5));
    assert_eq!(parse_u32(&signed, 0, 1), None);
}

#[test]
fn version_after_marker_skips_whitespace_first() {
    let text = chars("Foo.\nSince:   1.22 and more");
    assert_eq!(extract_version_after(&text, &chars("Since:")), Some(Version { major: 1, minor: 22 }));
    assert_eq!(extract_version_after(&text, &chars("Deprecated:")), None);
}

#[test]
fn version_after_marker_takes_the_first_marker() {
    let text = chars("Since: 1.2. Since: 1.4");
    assert_eq!(extract_version_after(&text, &chars("Since:")), Some(Version { major: 1, minor: 2 }));
}

#[test]
fn version_after_marker_without_number_is_none() {
    let text = chars("Since: the beginning");
    assert_eq!(extract_version_after(&text, &chars("Since:")), None);
}

#[test]
fn since_and_deprecated_from_lines() {
    let ls = lines(&["The device's state.", "", "Since: 1.2", "", "Deprecated: 1.22: use other"]);
    assert_eq!(
        extract_since_and_deprecated(&ls),
        (Some(Version { major: 1, minor: 2 }), Some(Version { major: 1, minor: 22 }))
    );
}

#[test]
fn since_and_deprecated_when_absent() {
    let ls = lines(&["Nothing here."]);
    assert_eq!(extract_since_and_deprecated(&ls), (None, None));
    assert_eq!(extract_since_and_deprecated(&[]), (None, None));
}

#[test]
fn since_marker_can_span_joined_lines() {
    let ls = lines(&["Since:", "1.6"]);
    assert_eq!(extract_since_and_deprecated(&ls), (Some(Version { major: 1, minor: 6 }), None));
}

#[test]
fn trailing_blank_lines_are_dropped() {
    let mut ls = lines(&["a", "", "b", "", ""]);
    trim_trailing_blank_lines(&mut ls);
    assert_eq!(ls, lines(&["a", "", "b"]));

    let mut blank = lines(&["", ""]);
    trim_trailing_blank_lines(&mut blank);
    assert!(blank.is_empty());

    let mut none = lines(&["x", " "]);
    trim_trailing_blank_lines(&mut none);
    assert_eq!(none, lines(&["x", " "]));
}

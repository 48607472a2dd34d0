use nm_codegen::model::interface::{ArgDirection, PropertyAccess};
use nm_codegen::parse::interface::{
    is_direction_token, normalize_member_title, parse_direction_token,
    parse_property_access_token, parse_variablelist_term,
};

fn s(x: &str) -> Option<String> {
    Some(x.to_string())
}

#[test]
fn direction_tokens() {
    assert!(is_direction_token("IN"));
    assert!(is_direction_token("OUT"));
    assert!(!is_direction_token("in"));
    assert!(!is_direction_token("INOUT"));
    assert!(!is_direction_token(""));
    assert_eq!(parse_direction_token("IN"), Some(ArgDirection::In));
    assert_eq!(parse_direction_token("OUT"), Some(ArgDirection::Out));
    assert_eq!(parse_direction_token("Out"), None);
}

#[test]
fn property_access_tokens() {
    assert_eq!(parse_property_access_token("readable"), Some(PropertyAccess::Read));
    assert_eq!(parse_property_access_token("writable"), Some(PropertyAccess::Write));
    assert_eq!(parse_property_access_token("readwrite"), Some(PropertyAccess::ReadWrite));
    assert_eq!(parse_property_access_token("read"), None);
    assert_eq!(parse_property_access_token(""), None);
}

#[test]
fn member_title_of_method_drops_parentheses() {
    assert_eq!(normalize_member_title("The Reload() method", "method"), "Reload");
    assert_eq!(normalize_member_title("  The GetDevices()   method ", "method"), "GetDevices");
}

#[test]
fn member_title_strips_quotes() {
    assert_eq!(normalize_member_title("The \"State\" property", "property"), "State");
    assert_eq!(normalize_member_title("The \"StateChanged\" signal", "signal"), "StateChanged");
    assert_eq!(normalize_member_title("The \"Reload()\" method", "method"), "Reload()");
}

#[test]
fn member_title_falls_back_to_trimmed_text() {
    assert_eq!(normalize_member_title("  Something else ", "method"), "Something else");
    assert_eq!(normalize_member_title("The Reload() method", "signal"), "The Reload() method");
    assert_eq!(normalize_member_title("", "method"), "");
}

#[test]
fn term_with_direction() {
    assert_eq!(parse_variablelist_term("IN s identifier:"), (Some(ArgDirection::In), s("s"), s("identifier")));
    assert_eq!(parse_variablelist_term("OUT ao devices:"), (Some(ArgDirection::Out), s("ao"), s("devices")));
    assert_eq!(parse_variablelist_term("  IN  a{sv}  options  extra:: "), (Some(ArgDirection::In), s("a{sv}"), s("options")));
}

#[test]
fn term_without_direction() {
    assert_eq!(parse_variablelist_term("s identifier"), (None, s("s"), s("identifier")));
    assert_eq!(parse_variablelist_term("IN s:"), (None, s("IN"), s("s")));
    assert_eq!(parse_variablelist_term("name:"), (None, None, s("name")));
}

#[test]
fn empty_term() {
    assert_eq!(parse_variablelist_term(""), (None, None, None));
    assert_eq!(parse_variablelist_term(" ::: "), (None, None, None));
}

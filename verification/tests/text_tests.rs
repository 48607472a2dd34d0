use nm_codegen::parse::common::normalize_text;

#[test]
fn normalize_collapses_runs_of_whitespace() {
    assert_eq!(normalize_text("  The   state \n of\tthe  device  "), "The state of the device");
}

#[test]
fn normalize_turns_no_break_spaces_into_separators() {
    assert_eq!(normalize_text("Since:\u{a0}1.2"), "Since: 1.2");
    assert_eq!(normalize_text("\u{a0}\u{a0}a\u{a0}\u{a0}b\u{a0}"), "a b");
}

#[test]
fn normalize_of_blank_text_is_empty() {
    assert_eq!(normalize_text(""), "");
    assert_eq!(normalize_text(" \t\r\n "), "");
}

#[test]
fn normalize_keeps_a_single_word() {
    assert_eq!(normalize_text("word"), "word");
    assert_eq!(normalize_text("  \u{2003}word\u{3000} "), "word");
}

#[test]
fn normalize_is_idempotent_on_examples() {
    for s in ["  a  b ", "", "x", "\n\n one\u{a0}two\tthree  ", "a b"] {
        let once = normalize_text(s);
        assert_eq!(normalize_text(&once), once);
    }
}

#[test]
fn normalize_result_has_no_edge_or_double_spaces() {
    for s in ["  a  b ", " \u{a0}x\u{a0} ", "p\n\nq\r\nr"] {
        let out = normalize_text(s);
        assert!(!out.starts_with(' '));
        assert!(!out.ends_with(' '));
        assert!(!out.contains("  "));
        assert!(!out.chars().any(|c| c.is_whitespace() && c != ' '));
    }
}

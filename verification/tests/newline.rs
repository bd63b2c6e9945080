use mergiraf::newline::{normalize_to_lf, NewlineStyle};

#[test]
fn infer_newline_style() {
    let infer = mergiraf::newline::infer_newline_style;

    assert_eq!(infer("a\nb\nc\nd"), NewlineStyle::Lf);
    assert_eq!(infer("a\r\nb\r\nc\nd"), NewlineStyle::CrLf);
    assert_eq!(infer("a\rb\rc\nd"), NewlineStyle::Cr);
}

#[test]
fn imitate_newline_style() {
    let imitate = mergiraf::newline::imitate_newline_style;

    let result = imitate("A\nB\r\nC\rD", NewlineStyle::Lf);
    assert_eq!(result, "A\nB\nC\nD");

    let result = imitate("A\nB\r\nC\rD", NewlineStyle::CrLf);
    assert_eq!(result, "A\r\nB\r\nC\r\nD");

    let result = imitate("A\rB\r\nC\nD", NewlineStyle::Cr);
    assert_eq!(result, "A\rB\rC\rD");
}

#[test]
fn normalize_to_lf_removes_carriage_returns() {
    assert_eq!(normalize_to_lf("a\r\nb\rc\nd"), "a\nb\nc\nd");
    assert_eq!(normalize_to_lf("no newline"), "no newline");
    assert!(!normalize_to_lf("\r\r\n\r").contains('\r'));
}

#[test]
fn imitating_twice_changes_nothing() {
    for style in [NewlineStyle::Lf, NewlineStyle::CrLf, NewlineStyle::Cr] {
        let once = mergiraf::newline::imitate_newline_style("x\r\ny\rz\n", style);
        assert_eq!(mergiraf::newline::imitate_newline_style(&once, style), once);
    }
}

#[test]
fn empty_text_infers_crlf() {
    // one part for each separator: 1 > 1 / 2
    assert_eq!(mergiraf::newline::infer_newline_style(""), NewlineStyle::CrLf);
}

#[test]
fn newline_style_round_trip() {
    for original in ["a\r\nb\r\nc", "a\nb\nc\n", "no line break", "\r\n\r\n"] {
        let style = mergiraf::newline::infer_newline_style(original);
        let normalized = normalize_to_lf(original);
        assert_eq!(mergiraf::newline::imitate_newline_style(&normalized, style), original);
    }
}

#[test]
fn carriage_returns_alone_are_read_as_crlf() {
    let original = "a\rb";
    assert_eq!(mergiraf::newline::infer_newline_style(original), NewlineStyle::CrLf);
    assert_eq!(mergiraf::newline::imitate_newline_style(&normalize_to_lf(original), NewlineStyle::CrLf), "a\r\nb");
}

#[test]
fn imitating_one_style_then_another_is_imitating_the_second() {
    let imitate_newline_style = mergiraf::newline::imitate_newline_style;
    let text = "a\r\nb\rc\nd";
    for first in [NewlineStyle::Lf, NewlineStyle::CrLf, NewlineStyle::Cr] {
        for second in [NewlineStyle::Lf, NewlineStyle::CrLf, NewlineStyle::Cr] {
            let twice = imitate_newline_style(&imitate_newline_style(text, first), second);
            assert_eq!(twice, imitate_newline_style(text, second));
        }
    }
    assert_eq!(imitate_newline_style(text, NewlineStyle::CrLf), "a\r\nb\r\nc\r\nd");
    assert_eq!(imitate_newline_style(text, NewlineStyle::Cr), "a\rb\rc\rd");
}

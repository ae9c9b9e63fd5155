use vmml::Node;
use vmml::ParseError;
use vmml::escape;
use vmml::parse;

fn text(s: &str) -> Node {
    Node::Text(String::from(s))
}

fn element(inner: Vec<Node>, attr: &str) -> Node {
    Node::Element { inner, attr: String::from(attr) }
}

#[test]
fn escapes_resolve_in_text() {
    assert_eq!(
        parse(r#"a \[b\] \(c\) \\ d"#),
        Ok(vec![text(r#"a [b] (c) \ d"#)])
    );
}

#[test]
fn escapes_resolve_in_target_and_attr() {
    assert_eq!(
        parse(r#"[\[x\]](\(y\) \\ \))"#),
        Ok(vec![element(vec![text(r#"[x]"#)], r#"(y) \ )"#)])
    );
}

#[test]
fn attr_allows_literal_bracket_close_and_paren_open() {
    assert_eq!(
        parse(r#"[a](b]c(d)"#),
        Ok(vec![element(vec![text(r#"a"#)], r#"b]c(d"#)])
    );
}

#[test]
fn empty_element_is_accepted() {
    assert_eq!(parse(r#"[]()"#), Ok(vec![element(vec![], r#""#)]));
}

#[test]
fn plain_round_trip() {
    let original = "just plain text, no markup at all";
    assert_eq!(parse(&escape(original)), Ok(vec![text(original)]));
}

#[test]
fn escape_then_parse_round_trips() {
    let original = r#"The [quick](bold) fox \ goes (far)"#;
    assert_eq!(
        parse(&escape(original)),
        Ok(vec![text(original)])
    );
}

#[test]
fn dangling_escape_at_end() {
    assert_eq!(parse("Hello \\"), Err(ParseError::DanglingEscape));
}

#[test]
fn dangling_escape_before_ordinary_character() {
    assert_eq!(parse(r#"Hello \x"#), Err(ParseError::DanglingEscape));
}

#[test]
fn dangling_escape_inside_attr() {
    assert_eq!(parse(r#"[a](b\x)"#), Err(ParseError::DanglingEscape));
}

#[test]
fn stray_closing_bracket() {
    assert_eq!(parse(r#"a]b"#), Err(ParseError::StrayDelimiter));
}

#[test]
fn stray_opening_paren() {
    assert_eq!(parse(r#"a(b)c"#), Err(ParseError::StrayDelimiter));
}

#[test]
fn stray_closing_paren() {
    assert_eq!(parse(r#"a)b"#), Err(ParseError::StrayDelimiter));
}

#[test]
fn missing_attr_at_end_of_input() {
    assert_eq!(parse(r#"x[a]"#), Err(ParseError::MalformedAdjacency));
}

#[test]
fn unterminated_outer_target_after_inner_element() {
    assert_eq!(parse(r#"[a[b](c)"#), Err(ParseError::UnterminatedTarget));
}

#[test]
fn non_ascii_text_parses() {
    assert_eq!(
        parse("Grüße, [schöne](fett) Welt"),
        Ok(vec![
            text("Grüße, "),
            element(vec![text("schöne")], "fett"),
            text(" Welt"),
        ])
    );
}

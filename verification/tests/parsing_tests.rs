use vmml::Node;
use vmml::ParseError;
use vmml::parse;

fn text(s: &str) -> Node {
    Node::Text(String::from(s))
}

fn element(inner: Vec<Node>, attr: &str) -> Node {
    Node::Element { inner, attr: String::from(attr) }
}

#[test]
fn parse_normal_text() {
    assert_eq!(
        parse(r#"Hello, beautiful World"#),
        Ok(vec![text(r#"Hello, beautiful World"#)])
    );
}

#[test]
fn parse_one_field() {
    assert_eq!(
        parse(r#"Hello, [beautiful](bold) World"#),
        Ok(vec![
            text(r#"Hello, "#),
            element(vec![text(r#"beautiful"#)], r#"bold"#),
            text(r#" World"#),
        ])
    );
}

#[test]
fn parse_nested() {
    assert_eq!(
        parse(r#"Hello, [[beauti](italic)ful](bold) World"#),
        Ok(vec![
            text(r#"Hello, "#),
            element(
                vec![element(vec![text(r#"beauti"#)], r#"italic"#), text(r#"ful"#)],
                r#"bold"#,
            ),
            text(r#" World"#),
        ])
    );
}

#[test]
fn parse_multi_nested() {
    assert_eq!(
        parse(r#"a[b[c[d](z)](y)](x)"#),
        Ok(vec![
            text(r#"a"#),
            element(
                vec![
                    text(r#"b"#),
                    element(
                        vec![text(r#"c"#), element(vec![text(r#"d"#)], r#"z"#)],
                        r#"y"#,
                    ),
                ],
                r#"x"#,
            ),
        ])
    );
}

#[test]
fn parse_multiple() {
    assert_eq!(
        parse(r#"[Hello](bold), beautiful [World](italic)"#),
        Ok(vec![
            element(vec![text(r#"Hello"#)], r#"bold"#),
            text(r#", beautiful "#),
            element(vec![text(r#"World"#)], r#"italic"#),
        ])
    );
}

#[test]
fn parse_empty() {
    assert_eq!(parse(r#""#), Ok(vec![]));
}

#[test]
fn attr_contains_field() {
    assert_eq!(
        parse(r#"Hello, [beautiful](a[b](c)) World"#),
        Err(ParseError::NestedAttr)
    );
}

#[test]
fn unclosed_target() {
    assert_eq!(
        parse(r#"Hello, [beautiful(bold) World"#),
        Err(ParseError::UnterminatedTarget)
    );
}

#[test]
fn unclosed_attr() {
    assert_eq!(
        parse(r#"Hello, [beautiful](bold World"#),
        Err(ParseError::UnterminatedAttr)
    );
}

#[test]
fn unclosed_target_due_to_escape() {
    assert_eq!(
        parse(r#"Hello, [beautiful\](bold) World"#),
        Err(ParseError::UnterminatedTarget)
    );
}

#[test]
fn unclosed_attr_due_to_escape() {
    assert_eq!(
        parse(r#"Hello, [beautiful](bold\) World"#),
        Err(ParseError::UnterminatedAttr)
    );
}

#[test]
fn unclosed_inner_target() {
    assert_eq!(
        parse(r#"Hello, [[beautiful](bold) World"#),
        Err(ParseError::UnterminatedTarget)
    );
}

#[test]
fn space_between() {
    assert_eq!(
        parse(r#"Hello, [beautiful] (bold) World"#),
        Err(ParseError::MalformedAdjacency)
    );
}

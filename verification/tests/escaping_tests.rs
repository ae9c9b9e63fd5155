use vmml::escape;

#[test]
fn normal_text() {
    assert_eq!(escape(r#"Hello There"#), String::from(r#"Hello There"#));
}

#[test]
fn just_one_backslash() {
    assert_eq!(escape(r#"Hello \ There"#), String::from(r#"Hello \\ There"#));
}

#[test]
fn two_backslashes() {
    assert_eq!(escape(r#"Hello \\ There"#), String::from(r#"Hello \\\\ There"#));
}

#[test]
fn three_backslashes() {
    assert_eq!(escape(r#"Hello \\\ There"#), String::from(r#"Hello \\\\\\ There"#));
}

#[test]
fn escaped_tokens() {
    assert_eq!(escape(r#"[ ] ( ) \"#), String::from(r#"\[ \] \( \) \\"#));
}

#[test]
fn empty_text() {
    assert_eq!(escape(""), String::new());
}

use ofa::engine::tokenizer::{Template, TemplateError, TemplatePart};

#[test]
fn test_variable_parsing() {
    let tmpl = Template::parse("java -jar @jar_path --opt=@_opt1").unwrap();
    assert_eq!(tmpl.parts.len(), 4);
    match &tmpl.parts[1] {
        TemplatePart::Expr(name) => assert_eq!(name, "jar_path"),
        _ => panic!("Expected Expr::Var(jar_path)"),
    }
    match &tmpl.parts[3] {
        TemplatePart::Expr(name) => assert_eq!(name, "_opt1"),
        _ => panic!("Expected Expr::Var(_opt1)"),
    }
}

#[test]
fn test_escaped_at_sign() {
    let tmpl = Template::parse("user\\@example.com @var").unwrap();
    assert_eq!(tmpl.parts.len(), 2);
    match &tmpl.parts[0] {
        TemplatePart::Text(t) => assert_eq!(t, "user@example.com "),
        _ => panic!("Expected Text"),
    }
    match &tmpl.parts[1] {
        TemplatePart::Expr(name) => assert_eq!(name, "var"),
        _ => panic!("Expected Expr::Var"),
    }
}

#[test]
fn test_non_expr_at_sign() {
    let tmpl = Template::parse("contact user@ domain").unwrap();
    assert_eq!(tmpl.parts.len(), 1);
    match &tmpl.parts[0] {
        TemplatePart::Text(t) => assert_eq!(t, "contact user@ domain"),
        _ => panic!("Expected Text"),
    }
}

#[test]
fn braces_expression_is_trimmed() {
    let tmpl = Template::parse("docker compose up -d {{ service }}").unwrap();
    assert_eq!(
        tmpl.parts,
        vec![
            TemplatePart::Text("docker compose up -d ".to_string()),
            TemplatePart::Expr("service".to_string()),
        ]
    );
}

#[test]
fn braces_expression_between_texts() {
    let tmpl = Template::parse("a{{x}}b{{\ty\n}}").unwrap();
    assert_eq!(
        tmpl.parts,
        vec![
            TemplatePart::Text("a".to_string()),
            TemplatePart::Expr("x".to_string()),
            TemplatePart::Text("b".to_string()),
            TemplatePart::Expr("y".to_string()),
        ]
    );
}

#[test]
fn escaped_braces_are_text() {
    let tmpl = Template::parse("echo \\{{ not }}").unwrap();
    assert_eq!(tmpl.parts, vec![TemplatePart::Text("echo {{ not }}".to_string())]);
}

#[test]
fn unclosed_expression_is_refused() {
    assert_eq!(Template::parse("run {{ name").err(), Some(TemplateError::UnclosedExpression));
    assert_eq!(
        TemplateError::UnclosedExpression.message(),
        "Unclosed template expression"
    );
}

#[test]
fn empty_expression_is_refused() {
    assert_eq!(Template::parse("run {{   }} now").err(), Some(TemplateError::EmptyExpression));
    assert_eq!(TemplateError::EmptyExpression.message(), "Empty template expression");
}

#[test]
fn empty_input_has_no_parts() {
    assert!(Template::parse("").unwrap().parts.is_empty());
}

#[test]
fn plain_text_is_one_part() {
    let tmpl = Template::parse("cargo build --release").unwrap();
    assert_eq!(tmpl.parts, vec![TemplatePart::Text("cargo build --release".to_string())]);
}

#[test]
fn adjacent_references_are_separate_parts() {
    let tmpl = Template::parse("@a@b{{c}}").unwrap();
    assert_eq!(
        tmpl.parts,
        vec![
            TemplatePart::Expr("a".to_string()),
            TemplatePart::Expr("b".to_string()),
            TemplatePart::Expr("c".to_string()),
        ]
    );
}

#[test]
fn non_ascii_text_is_kept() {
    let tmpl = Template::parse("héllo ✓ @wörld").unwrap();
    assert_eq!(
        tmpl.parts,
        vec![
            TemplatePart::Text("héllo ✓ ".to_string()),
            TemplatePart::Expr("w".to_string()),
            TemplatePart::Text("örld".to_string()),
        ]
    );
}

#[test]
fn names_are_trimmed_and_end_at_first_close() {
    let tmpl = Template::parse("{{  a b }} {{x}}}}").unwrap();
    assert_eq!(
        tmpl.parts,
        vec![
            TemplatePart::Expr("a b".to_string()),
            TemplatePart::Text(" ".to_string()),
            TemplatePart::Expr("x".to_string()),
            TemplatePart::Text("}}".to_string()),
        ]
    );
}

#[test]
fn text_without_markup_is_one_part() {
    let s = "mail me @ home { braces } \\ back slash @-dash 50% {x}";
    let tmpl = Template::parse(s).unwrap();
    assert_eq!(tmpl.parts, vec![TemplatePart::Text(s.to_string())]);
}

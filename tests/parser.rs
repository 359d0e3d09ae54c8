use envja::{EnvjaParser, Rule};

#[test]
fn expr() {
    const TEMPLATE: &str = r#"{{_}}"#;
    let _ = EnvjaParser::parse(Rule::doc, TEMPLATE).unwrap_or_else(|e| panic!("{:?}", e));
}

#[test]
fn expr_underscore_between() {
    const TEMPLATE: &str = r#" {{ FOO_BAR }} "#;
    let _ = EnvjaParser::parse(Rule::doc, TEMPLATE).unwrap_or_else(|e| panic!("{:?}", e));
}

#[test]
fn text_cpp() {
    const TEMPLATE: &str = r#"
int main() {
    return 0;
}
"#;

    let _ = EnvjaParser::parse(Rule::doc, TEMPLATE).unwrap_or_else(|e| panic!("{:?}", e));
}

#[test]
fn text_cpp_template() {
    const TEMPLATE: &str = r#"
{% if FOO %}#include <{{FOO}}>{% endif %}
int main() {
    return {{ BAR }}
}
"#;

    let _ = EnvjaParser::parse(Rule::doc, TEMPLATE).unwrap_or_else(|e| panic!("{:?}", e));
}

#[test]
fn document_shape() {
    let pairs = EnvjaParser::parse(Rule::doc, "a{{ B }}c").unwrap();
    assert_eq!(pairs.len(), 2);
    assert_eq!(pairs[0].rule, Rule::compound);
    assert_eq!(pairs[0].text, "a{{ B }}c");
    let kids: Vec<Rule> = pairs[0].inner.iter().map(|p| p.rule).collect();
    assert_eq!(kids, vec![Rule::text, Rule::expr, Rule::text]);
    assert_eq!(pairs[0].inner[1].inner[0].rule, Rule::ident);
    assert_eq!(pairs[0].inner[1].inner[0].text, "B");
    assert_eq!(pairs[1].rule, Rule::EOI);
}

#[test]
fn empty_document_is_only_end_marker() {
    let pairs = EnvjaParser::parse(Rule::doc, "").unwrap();
    assert_eq!(pairs.len(), 1);
    assert_eq!(pairs[0].rule, Rule::EOI);
}

#[test]
fn single_rules_match_a_prefix() {
    let p = EnvjaParser::parse(Rule::ident, "abc_1 rest").unwrap();
    assert_eq!(p[0].text, "abc_1");
    let p = EnvjaParser::parse(Rule::if_stmt_end, "{%endif%}x").unwrap();
    assert_eq!(p[0].text, "{%endif%}");
    let e = EnvjaParser::parse(Rule::expr, "x").unwrap_err();
    assert_eq!(e.rule, Rule::expr);
    assert_eq!(e.pos, 0);
}

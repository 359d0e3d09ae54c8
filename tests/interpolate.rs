use envja::{interpolate, EnvjaError, Mappings, RenderError, Rule};

#[test]
fn interpolate_nothing() {
    assert_eq!(interpolate("", &Mappings::new()).unwrap(), "");
}

#[test]
fn interpolate_simple_if_stmt() {
    const TEMPLATE: &str = r#"xxx{% if HAS_VAL %}yyy{% endif %}zzz"#;
    const EXPECTED_NO_MAPPING: &str = r#"xxxzzz"#;
    const EXPECTED: &str = r#"xxxyyyzzz"#;

    assert_eq!(
        interpolate(TEMPLATE, &Mappings::new()).unwrap(),
        EXPECTED_NO_MAPPING
    );

    let mappings = {
        let mut m = Mappings::new();
        m.insert("HAS_VAL".to_owned(), "true".to_owned());
        m
    };

    assert_eq!(interpolate(TEMPLATE, &mappings).unwrap(), EXPECTED);
}

#[test]
fn interpolate_if_stmt_with_expr_within() {
    const TEMPLATE: &str = r#"{% if VAL %}VAL={{VAL}}{% endif %}"#;
    const EXPECTED_NO_MAPPING: &str = r#""#;
    const EXPECTED: &str = r#"VAL=hello"#;

    assert_eq!(
        interpolate(TEMPLATE, &Mappings::new()).unwrap(),
        EXPECTED_NO_MAPPING
    );

    let mappings = {
        let mut m = Mappings::new();
        m.insert("VAL".to_owned(), "hello".to_owned());
        m
    };

    assert_eq!(interpolate(TEMPLATE, &mappings).unwrap(), EXPECTED);
}

#[test]
fn interpolate_if_stmt_with_expr_within_multiline() {
    const TEMPLATE: &str = r#"{% if VAL %}
VAL={{VAL}}
{% endif %}"#;

    const EXPECTED_NO_MAPPING: &str = r#""#;

    const EXPECTED: &str = r#"
VAL=This is a long string
"#;

    assert_eq!(
        interpolate(TEMPLATE, &Mappings::new()).unwrap(),
        EXPECTED_NO_MAPPING
    );

    let mappings = {
        let mut m = Mappings::new();
        m.insert("VAL".to_owned(), "This is a long string".to_owned());
        m
    };

    assert_eq!(interpolate(TEMPLATE, &mappings).unwrap(), EXPECTED);
}

#[test]
fn interpolate_cpp_linux() {
    const TEMPLATE: &str = r#"
{% if LINUX_HEADER %}#include <{{LINUX_HEADER}}>{% endif %}
int main() {
    return {{ RET }};
}
"#;

    const EXPECTED: &str = r#"
#include <unistd.h>
int main() {
    return 123;
}
"#;

    assert!(interpolate(TEMPLATE, &Mappings::new()).is_err());

    let mappings = {
        let mut m = Mappings::new();
        m.insert("LINUX_HEADER".to_owned(), "unistd.h".to_owned());
        m.insert("RET".to_owned(), "123".to_owned());
        m
    };

    assert_eq!(interpolate(TEMPLATE, &mappings).unwrap(), EXPECTED);
}

#[test]
fn interpolate_empty_comment_line() {
    const TEMPLATE: &str = r#"{##}"#;
    const EXPECTED: &str = r#""#;
    assert_eq!(interpolate(TEMPLATE, &Mappings::new()).unwrap(), EXPECTED);
}

#[test]
fn interpolate_empty_comment_block() {
    const TEMPLATE: &str = r#"{#
#}"#;
    const EXPECTED: &str = r#""#;
    assert_eq!(interpolate(TEMPLATE, &Mappings::new()).unwrap(), EXPECTED);
}

#[test]
fn interpolate_simple_comment_line() {
    const TEMPLATE: &str = r#"{# This is a comment line #}"#;
    const EXPECTED: &str = r#""#;
    assert_eq!(interpolate(TEMPLATE, &Mappings::new()).unwrap(), EXPECTED);
}

#[test]
fn interpolate_simple_comment_block() {
    const TEMPLATE: &str = r#"{# This
is a comment
block
#}"#;
    const EXPECTED: &str = r#""#;
    assert_eq!(interpolate(TEMPLATE, &Mappings::new()).unwrap(), EXPECTED);
}

#[test]
fn interpolate_comment_with_mixed() {
    const TEMPLATE: &str =
        r#"{% if SHOW %}{# Comment1 #}How{#Comment2#}are{{SHOW}}{%endif%}"#;
    const EXPECTED_NO_MAPPING: &str = r#""#;
    const EXPECTED: &str = r#"Howareyou"#;

    assert_eq!(
        interpolate(TEMPLATE, &Mappings::new()).unwrap(),
        EXPECTED_NO_MAPPING
    );

    let mappings = {
        let mut m = Mappings::new();
        m.insert("SHOW".to_owned(), "you".to_owned());
        m
    };

    assert_eq!(interpolate(TEMPLATE, &mappings).unwrap(), EXPECTED);
}

fn one(name: &str, value: &str) -> Mappings {
    let mut m = Mappings::new();
    m.insert(name.to_owned(), value.to_owned());
    m
}

#[test]
fn plain_text_is_copied_verbatim() {
    let t = "int main() {\n    return 0; } {not a tag} %} #}\n";
    assert_eq!(interpolate(t, &one("X", "y")).unwrap(), t);
}

#[test]
fn expression_with_and_without_value() {
    assert_eq!(interpolate("{{ NAME }}", &one("NAME", "v a l")).unwrap(), "v a l");
    match interpolate("{{ NAME }}", &Mappings::new()) {
        Err(EnvjaError::Render(RenderError::UnresolvedVariable(e))) => {
            assert_eq!(e.rule, Rule::ident);
            assert_eq!(e.msg, "No key 'NAME' found for interpolation");
        }
        other => panic!("unexpected {:?}", other),
    }
}

#[test]
fn bare_underscore_is_a_name() {
    assert_eq!(interpolate("<{{_}}>", &one("_", "u")).unwrap(), "<u>");
}

#[test]
fn guard_mapped_to_empty_is_false() {
    let t = "a{% if G %}b{% endif %}c";
    assert_eq!(interpolate(t, &one("G", "")).unwrap(), "ac");
    assert_eq!(interpolate(t, &one("G", "0")).unwrap(), "abc");
}

#[test]
fn false_guard_skips_unresolved_body() {
    let t = "{% if G %}{{ MISSING }}{% endif %}";
    assert_eq!(interpolate(t, &Mappings::new()).unwrap(), "");
    assert!(interpolate(t, &one("G", "yes")).is_err());
}

#[test]
fn nested_conditionals() {
    let t = "{% if A %}{% if B %}X{% endif %}{% endif %}";
    let mut both = one("A", "1");
    both.insert("B".to_owned(), "1".to_owned());
    assert_eq!(interpolate(t, &both).unwrap(), "X");
    assert_eq!(interpolate(t, &one("A", "1")).unwrap(), "");
    assert_eq!(interpolate(t, &one("B", "1")).unwrap(), "");
}

#[test]
fn comment_between_text() {
    assert_eq!(interpolate("ab{# c\nd #}ef", &Mappings::new()).unwrap(), "abef");
}

#[test]
fn later_insert_replaces_value() {
    let mut m = one("K", "first");
    m.insert("K".to_owned(), "second".to_owned());
    assert_eq!(interpolate("{{K}}", &m).unwrap(), "second");
}

#[test]
fn unterminated_if_is_syntax_error() {
    match interpolate("{% if A %}abc", &one("A", "1")) {
        Err(EnvjaError::Syntax(e)) => {
            assert_eq!(e.rule, Rule::EOI);
            assert_eq!(e.pos, 0);
        }
        other => panic!("unexpected {:?}", other),
    }
}

#[test]
fn stray_endif_and_bad_names_are_syntax_errors() {
    match interpolate("ab{% endif %}", &Mappings::new()) {
        Err(EnvjaError::Syntax(e)) => assert_eq!(e.pos, 2),
        other => panic!("unexpected {:?}", other),
    }
    assert!(matches!(
        interpolate("{{ 9x }}", &Mappings::new()),
        Err(EnvjaError::Syntax(_))
    ));
    assert!(matches!(
        interpolate("{% for x %}", &Mappings::new()),
        Err(EnvjaError::Syntax(_))
    ));
    assert!(matches!(
        interpolate("{# open", &Mappings::new()),
        Err(EnvjaError::Syntax(_))
    ));
}

#[test]
fn non_ascii_text_passes_through() {
    assert_eq!(
        interpolate("héllo {{ W }} ✓", &one("W", "wörld")).unwrap(),
        "héllo wörld ✓"
    );
}

#[test]
fn comment_at_either_end_of_text() {
    assert_eq!(interpolate("{# c #}tail", &Mappings::new()).unwrap(), "tail");
    assert_eq!(interpolate("head{#c#}", &Mappings::new()).unwrap(), "head");
}

#[test]
fn if_body_with_mixed_content() {
    let t = "{% if G %}a{# c #}{{ V }}{% if H %}h{% endif %}b{% endif %}";
    let mut m = one("G", "1");
    m.insert("V".to_owned(), "v".to_owned());
    assert_eq!(interpolate(t, &m).unwrap(), "avb");
    m.insert("H".to_owned(), "x".to_owned());
    assert_eq!(interpolate(t, &m).unwrap(), "avhb");
    assert_eq!(interpolate(t, &one("V", "v")).unwrap(), "");
}

use lines::substitution::{substitute_bindings_in_string, VariableBindings};

fn bindings_of(pairs: &[(&str, &str)]) -> VariableBindings {
    let mut bindings = VariableBindings::new();
    for (name, value) in pairs {
        bindings.insert(name.to_string(), value.to_string());
    }
    bindings
}

#[test]
fn substitute_bindings_in_string_test() {
    let template = "A ${variable.name} string with ${other-name} ${but-not-all-there} substitutions";
    let mut bindings = VariableBindings::new();
    bindings.insert("variable.name".to_string(), "template".to_string());
    bindings.insert("other-name".to_string(), "multiple".to_string());
    let substituted = substitute_bindings_in_string(template, &bindings);
    assert_eq!(substituted, "A template string with multiple ${but-not-all-there} substitutions");
}

#[test]
fn unmatched_token_kept_verbatim() {
    let bindings = bindings_of(&[("a", "X")]);
    let substituted = substitute_bindings_in_string("${a} and ${b} end", &bindings);
    assert_eq!(substituted, "X and ${b} end");
}

#[test]
fn no_tokens_means_no_change() {
    let bindings = bindings_of(&[("a", "X"), ("b", "Y")]);
    let template = "plain text, a $ sign, a { brace, a } brace, but no token";
    let substituted = substitute_bindings_in_string(template, &bindings);
    assert_eq!(substituted, template);
}

#[test]
fn empty_template_stays_empty() {
    let bindings = bindings_of(&[("a", "X")]);
    assert_eq!(substitute_bindings_in_string("", &bindings), "");
}

#[test]
fn unclosed_token_is_ordinary_text() {
    let bindings = bindings_of(&[("a", "X")]);
    assert_eq!(substitute_bindings_in_string("${a never closed", &bindings), "${a never closed");
}

#[test]
fn shortest_name_wins() {
    // The name runs to the first closing brace, so this token's name is
    // "a${b", which is unbound, and the token passes through whole.
    let bindings = bindings_of(&[("a", "X"), ("b", "Y")]);
    assert_eq!(substitute_bindings_in_string("${a${b}c}", &bindings), "${a${b}c}");
}

#[test]
fn substitution_is_idempotent_when_output_has_no_tokens() {
    let bindings = bindings_of(&[("a", "X"), ("name", "value")]);
    let template = "start ${a} middle ${name} ${unbound} end";
    let once = substitute_bindings_in_string(template, &bindings);
    let twice = substitute_bindings_in_string(&once, &bindings);
    assert_eq!(once, "start X middle value ${unbound} end");
    assert_eq!(twice, once);
}

#[test]
fn adjacent_tokens_both_replaced() {
    let bindings = bindings_of(&[("a", "1"), ("b", "2")]);
    assert_eq!(substitute_bindings_in_string("${a}${b}", &bindings), "12");
}

#[test]
fn empty_name_looks_up_empty_binding() {
    let with_empty = bindings_of(&[("", "E")]);
    assert_eq!(substitute_bindings_in_string("x${}y", &with_empty), "xEy");
    let without = bindings_of(&[("a", "X")]);
    assert_eq!(substitute_bindings_in_string("x${}y", &without), "x${}y");
}

#[test]
fn later_insert_replaces_earlier_binding() {
    let mut bindings = VariableBindings::new();
    bindings.insert("a".to_string(), "first".to_string());
    bindings.insert("a".to_string(), "second".to_string());
    assert_eq!(substitute_bindings_in_string("${a}", &bindings), "second");
    assert_eq!(bindings.get("a"), Some("second".to_string()));
    assert_eq!(bindings.get("missing"), None);
}

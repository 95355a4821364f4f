use astgrep_core::language::Lang;
use astgrep_core::language::Lang::Tsx;
use astgrep_core::match_tree::NodeMatch;
use astgrep_core::pattern::{Pattern, PatternError};
use astgrep_core::tree::SyntaxTree;
use std::collections::HashMap;

fn pattern_node(s: &str) -> SyntaxTree {
    SyntaxTree::parse(s, Tsx).expect("tsx parses")
}

fn test_match(s1: &str, s2: &str) {
    let pattern = Pattern::str(s1, Tsx);
    let cand = pattern_node(s2);
    assert!(
        pattern.find_node(&cand).is_some(),
        "goal: {}, candidate: {}",
        pattern.debug_string(),
        s2,
    );
}

fn test_non_match(s1: &str, s2: &str) {
    let pattern = Pattern::str(s1, Tsx);
    let cand = pattern_node(s2);
    assert!(
        pattern.find_node(&cand).is_none(),
        "goal: {}, candidate: {}",
        pattern.debug_string(),
        s2,
    );
}

fn env_map(tree: &SyntaxTree, nm: &NodeMatch) -> HashMap<String, String> {
    let mut map = HashMap::new();
    for (name, node) in &nm.get_env().single {
        map.insert(name.clone(), tree.text(*node).to_string());
    }
    map
}

fn match_env(goal_str: &str, cand: &str) -> HashMap<String, String> {
    let pattern = Pattern::str(goal_str, Tsx);
    let cand = pattern_node(cand);
    let nm = pattern.find_node(&cand).unwrap();
    env_map(&cand, &nm)
}

fn get_kind(kind_str: &str) -> usize {
    Tsx.named_kind(kind_str).expect("tsx grammar") as usize
}

#[test]
fn test_meta_variable() {
    test_match("const a = $VALUE", "const a = 123");
    test_match("const $VARIABLE = $VALUE", "const a = 123");
    test_match("const $VARIABLE = $VALUE", "const a = 123");
}

#[test]
fn test_meta_variable_env() {
    let env = match_env("const a = $VALUE", "const a = 123");
    assert_eq!(env["VALUE"], "123");
}

#[test]
fn test_match_non_atomic() {
    let env = match_env("const a = $VALUE", "const a = 5 + 3");
    assert_eq!(env["VALUE"], "5 + 3");
}

#[test]
fn test_class_assignment() {
    test_match("class $C { $MEMBER = $VAL}", "class A {a = 123}");
    test_non_match("class $C { $MEMBER = $VAL; b = 123; }", "class A {a = 123}");
    test_non_match("a = 123", "class B {b = 123}");
}

#[test]
fn test_return() {
    test_match("$A($B)", "return test(123)");
}

#[test]
fn test_contextual_pattern() {
    let pattern =
        Pattern::contextual("class A { $F = $I }", "public_field_definition", Tsx).expect("test");
    let cand = pattern_node("class B { b = 123 }");
    assert!(pattern.find_node(&cand).is_some());
    let cand = pattern_node("let b = 123");
    assert!(pattern.find_node(&cand).is_none());
}

#[test]
fn test_contextual_match_with_env() {
    let pattern =
        Pattern::contextual("class A { $F = $I }", "public_field_definition", Tsx).expect("test");
    let cand = pattern_node("class B { b = 123 }");
    let nm = pattern.find_node(&cand).expect("test");
    let env = env_map(&cand, &nm);
    assert_eq!(env["F"], "b");
    assert_eq!(env["I"], "123");
}

#[test]
fn test_contextual_unmatch_with_env() {
    let pattern =
        Pattern::contextual("class A { $F = $I }", "public_field_definition", Tsx).expect("test");
    let cand = pattern_node("let b = 123");
    let nm = pattern.find_node(&cand);
    assert!(nm.is_none());
}

#[test]
fn test_pattern_potential_kinds() {
    let pattern = Pattern::str("const a = 1", Tsx);
    let kind = get_kind("lexical_declaration");
    let kinds = pattern.potential_kinds().expect("should have kinds");
    assert_eq!(kinds.len(), 1);
    assert!(kinds.contains(kind));
}

#[test]
fn test_pattern_with_non_root_meta_var() {
    let pattern = Pattern::str("const $A = $B", Tsx);
    let kind = get_kind("lexical_declaration");
    let kinds = pattern.potential_kinds().expect("should have kinds");
    assert_eq!(kinds.len(), 1);
    assert!(kinds.contains(kind));
}

#[test]
fn test_bare_wildcard() {
    let pattern = Pattern::str("$A", Tsx);
    // a wildcard matches any kind
    assert!(pattern.potential_kinds().is_none());
}

#[test]
fn test_contextual_potential_kinds() {
    let pattern =
        Pattern::contextual("class A { $F = $I }", "public_field_definition", Tsx).expect("test");
    let kind = get_kind("public_field_definition");
    let kinds = pattern.potential_kinds().expect("should have kinds");
    assert_eq!(kinds.len(), 1);
    assert!(kinds.contains(kind));
}

#[test]
fn test_contextual_wildcard() {
    let pattern = Pattern::contextual("class A { $F }", "property_identifier", Tsx).expect("test");
    let kind = get_kind("property_identifier");
    let kinds = pattern.potential_kinds().expect("should have kinds");
    assert_eq!(kinds.len(), 1);
    assert!(kinds.contains(kind));
}

#[test]
fn test_doc_pattern() {
    let doc = SyntaxTree::parse("let a = 123", Tsx).expect("parses");
    let pattern = Pattern::doc(&doc, Tsx);
    let kinds = pattern.potential_kinds().expect("should have kinds");
    assert_eq!(kinds.len(), 1);
}

#[test]
fn test_error_kind() {
    let ret = Pattern::contextual("a", "property_identifier", Tsx);
    assert!(ret.is_err());
    let ret = Pattern::str("123+", Tsx);
    assert!(ret.has_error());
}

#[test]
fn test_bare_wildcard_in_context() {
    let pattern = Pattern::contextual("class A { $F }", "property_identifier", Tsx).expect("test");
    let cand = pattern_node("let b = 123");
    // the placeholder is limited to property identifiers, and there is none
    assert!(pattern.find_node(&cand).is_none());
}

#[test]
fn test_pattern_fixed_string() {
    let pattern = Pattern::new("class A { $F }", Tsx);
    assert_eq!(pattern.fixed_string(), "class");
    let pattern = Pattern::contextual("class A { $F }", "property_identifier", Tsx).expect("test");
    assert!(pattern.fixed_string().is_empty());
}

#[test]
fn test_pattern_error() {
    let pattern = Pattern::try_new("", Tsx);
    assert!(matches!(pattern, Err(PatternError::NoContent(_))));
    let pattern = Pattern::try_new("12  3344", Tsx);
    assert!(matches!(pattern, Err(PatternError::MultipleNode(_))));
}

#[test]
fn test_debug_pattern() {
    let pattern = Pattern::str("var $A = 1", Tsx);
    assert_eq!(
        pattern.debug_string(),
        "[var, [Capture(\"A\", true), =, 1]]"
    );
}

#[test]
fn test_from_str() {
    let lang = Lang::from_str("html");
    assert_eq!(lang.unwrap(), Lang::Html);
    let lang = Lang::from_str("Html");
    assert_eq!(lang.unwrap(), Lang::Html);
    let lang = Lang::from_str("htML");
    assert_eq!(lang.unwrap(), Lang::Html);
    let lang = Lang::from_str("ocaml");
    assert!(lang.is_err());
}

use astgrep_core::language::Lang;
use astgrep_core::match_tree::NodeMatch;
use astgrep_core::meta_var::{extract_meta_var, MetaVarEnv, MetaVariable};
use astgrep_core::pattern::{Pattern, PatternError};
use astgrep_core::transform::{substring_chars, Substring};
use astgrep_core::tree::SyntaxTree;

fn tree(src: &str) -> SyntaxTree {
    SyntaxTree::parse(src, Lang::Tsx).expect("tsx parses")
}

fn single_text(t: &SyntaxTree, nm: &NodeMatch, name: &str) -> Option<String> {
    nm.get_env().get_match(name).map(|n| t.text(n).to_string())
}

fn multi_texts(t: &SyntaxTree, nm: &NodeMatch, name: &str) -> Option<Vec<String>> {
    nm.get_env()
        .get_multiple_matches(name)
        .map(|ns| ns.iter().map(|n| t.text(*n).to_string()).collect())
}

#[test]
fn single_capture_of_call_argument() {
    let t = tree("console.log(123)");
    let p = Pattern::str("console.log($A)", Lang::Tsx);
    let all = p.find_all(&t);
    assert_eq!(all.len(), 1);
    assert_eq!(single_text(&t, &all[0], "A").as_deref(), Some("123"));
}

#[test]
fn multi_capture_of_call_arguments() {
    let t = tree("console.log(1, 2, 3)");
    let p = Pattern::str("console.log($$$A)", Lang::Tsx);
    let all = p.find_all(&t);
    assert_eq!(all.len(), 1);
    let texts = multi_texts(&t, &all[0], "A").expect("bound");
    assert_eq!(texts, vec!["1", ",", "2", ",", "3"]);
}

#[test]
fn contextual_field_pattern() {
    let p = Pattern::contextual("class A { $F = $I }", "public_field_definition", Lang::Tsx).expect("compiles");
    let t = tree("class B { b = 123 }");
    let nm = p.find_node(&t).expect("matches");
    assert_eq!(single_text(&t, &nm, "F").as_deref(), Some("b"));
    assert_eq!(single_text(&t, &nm, "I").as_deref(), Some("123"));
    assert!(p.find_node(&tree("let b = 123")).is_none());
}

#[test]
fn repeated_identifier_matches_in_order() {
    let t = tree("Some(1), Some(2), Some(3)");
    let p = Pattern::str("Some", Lang::Tsx);
    let all = p.find_all(&t);
    assert_eq!(all.len(), 3);
    let mut last_end = 0;
    for m in &all {
        assert_eq!(t.text(m.get_node()), "Some");
        let node = &t.nodes[m.get_node()];
        assert!(node.start >= last_end);
        last_end = node.end;
    }
}

#[test]
fn ellipsis_with_anchor() {
    let p = Pattern::str("f($$$ARGS, x)", Lang::Tsx);
    let t = tree("f(a, b, x)");
    let nm = p.find_node(&t).expect("matches");
    let args = multi_texts(&t, &nm, "ARGS").expect("bound");
    assert_eq!(args, vec!["a", ",", "b"]);
    let named: Vec<String> = args.into_iter().filter(|s| s != ",").collect();
    assert_eq!(named, vec!["a", "b"]);

    let t = tree("f(x)");
    let nm = p.find_node(&t).expect("matches");
    assert_eq!(multi_texts(&t, &nm, "ARGS"), Some(vec![]));

    assert!(p.find_node(&tree("f(a)")).is_none());
}

#[test]
fn linearity_of_repeated_capture() {
    let p = Pattern::str("$X + $X", Lang::Tsx);
    let t = tree("a + a");
    let nm = p.find_node(&t).expect("same text matches");
    assert_eq!(single_text(&t, &nm, "X").as_deref(), Some("a"));
    assert!(p.find_node(&tree("a + b")).is_none());
}

#[test]
fn match_binds_every_capture() {
    let p = Pattern::str("const $A = $B", Lang::Tsx);
    let t = tree("const a = 1");
    let nm = p.find_node(&t).expect("matches");
    assert_eq!(single_text(&t, &nm, "A").as_deref(), Some("a"));
    assert_eq!(single_text(&t, &nm, "B").as_deref(), Some("1"));
    // a failed attempt at a node gives no bindings at all
    let root_attempt = p.match_node(&t, 0);
    assert!(root_attempt.is_none());
}

#[test]
fn match_nodes_are_among_potential_kinds() {
    let p = Pattern::str("console.log($A)", Lang::Tsx);
    let kinds = p.potential_kinds().expect("has a kind");
    let t = tree("console.log(1); console.log(2)");
    let all = p.find_all(&t);
    assert_eq!(all.len(), 2);
    for m in &all {
        assert!(kinds.contains(t.nodes[m.get_node()].kind_id as usize));
    }
}

#[test]
fn wrapper_chain_is_collapsed() {
    let wrapped = Pattern::str("a", Lang::Tsx);
    let ident = Lang::Tsx.named_kind("identifier").expect("grammar");
    assert!(!wrapped.has_error());
    let kinds = wrapped.potential_kinds().expect("has a kind");
    assert!(kinds.contains(ident as usize));
    let t = tree("let a = b");
    let all = wrapped.find_all(&t);
    assert_eq!(all.len(), 1);
    assert_eq!(t.text(all[0].get_node()), "a");
}

#[test]
fn substring_transform_of_capture() {
    let t = tree("console.log(123)");
    let p = Pattern::str("console.log($A)", Lang::Tsx);
    let mut nm = p.find_node(&t).expect("matches");
    let tr = Substring { source: "$A".to_string(), start_char: Some(1), end_char: Some(-1) };
    assert!(nm.env.insert_substring(&t, "B", &tr));
    assert_eq!(single_text(&t, &nm, "A").as_deref(), Some("123"));
    assert_eq!(nm.get_env().get_transformed("B").as_deref(), Some("2"));
}

#[test]
fn substring_index_rules() {
    assert_eq!(substring_chars("abcdef", None, None), "abcdef");
    assert_eq!(substring_chars("abcdef", Some(2), None), "cdef");
    assert_eq!(substring_chars("abcdef", Some(-2), None), "ef");
    assert_eq!(substring_chars("abcdef", Some(-10), Some(100)), "abcdef");
    assert_eq!(substring_chars("abcdef", Some(4), Some(2)), "");
}

#[test]
fn substring_of_unbound_name_is_not_stored() {
    let t = tree("x");
    let mut env = MetaVarEnv::new();
    let tr = Substring { source: "$A".to_string(), start_char: None, end_char: None };
    assert!(!env.insert_substring(&t, "B", &tr));
    assert!(env.get_transformed("B").is_none());
}

#[test]
fn meta_variable_forms() {
    assert_eq!(extract_meta_var("$A", '$'), Some(MetaVariable::Capture("A".into(), true)));
    assert_eq!(extract_meta_var("$_A", '$'), Some(MetaVariable::Capture("_A".into(), false)));
    assert_eq!(extract_meta_var("$$A", '$'), Some(MetaVariable::Capture("A".into(), false)));
    assert_eq!(extract_meta_var("$_", '$'), Some(MetaVariable::Dropped(true)));
    assert_eq!(extract_meta_var("$$", '$'), Some(MetaVariable::Dropped(false)));
    assert_eq!(extract_meta_var("$$$", '$'), Some(MetaVariable::Ellipsis));
    assert_eq!(extract_meta_var("$$$ARGS", '$'), Some(MetaVariable::MultiCapture("ARGS".into())));
    assert_eq!(extract_meta_var("$a", '$'), None);
    assert_eq!(extract_meta_var("A", '$'), None);
    assert_eq!(extract_meta_var("$$$$A", '$'), None);
}

#[test]
fn wildcard_matches_anonymous_only_when_relaxed() {
    let t = tree("f(a)");
    let strict = Pattern::str("f($A)", Lang::Tsx);
    assert!(strict.find_node(&t).is_some());
    let call = Pattern::str("f($$$)", Lang::Tsx);
    assert!(call.find_node(&tree("f()")).is_some());
}

#[test]
fn unsupported_grammar_gives_parse_error() {
    assert_eq!(Pattern::try_new("a", Lang::Rust).err(), Some(PatternError::TSParse));
    assert!(Pattern::str("a", Lang::Rust).has_error());
    assert!(SyntaxTree::parse("a", Lang::Rust).is_none());
}

#[test]
fn invalid_selector_kind() {
    let r = Pattern::contextual("class A {}", "no_such_kind", Lang::Tsx);
    assert_eq!(r.err(), Some(PatternError::InvalidKind("no_such_kind".to_string())));
}

#[test]
fn selector_missing_from_context() {
    let r = Pattern::contextual("a", "property_identifier", Lang::Tsx);
    assert_eq!(
        r.err(),
        Some(PatternError::NoSelectorInContext {
            context: "a".to_string(),
            selector: "property_identifier".to_string()
        })
    );
}

#[test]
fn typescript_grammar_parses() {
    let t = SyntaxTree::parse("let a: number = 1", Lang::TypeScript).expect("parses");
    let p = Pattern::str("let $A: number = $B", Lang::TypeScript);
    let nm = p.find_node(&t).expect("matches");
    assert_eq!(single_text(&t, &nm, "B").as_deref(), Some("1"));
}

#[test]
fn language_names() {
    assert_eq!(Lang::from_str("TS").unwrap(), Lang::TypeScript);
    assert_eq!(Lang::from_str("yml").unwrap(), Lang::Yaml);
    assert_eq!(Lang::from_str("c++").unwrap(), Lang::Cpp);
    assert!(Lang::from_str("").is_err());
    assert_eq!(Lang::all_langs().len(), 24);
}

#[test]
fn test_lang_globs() {
    let globs = Lang::lang_globs(vec![
        ("html".to_string(), vec!["*.vue".to_string()]),
        ("not-a-language".to_string(), vec!["*.x".to_string()]),
    ]);
    assert_eq!(globs.len(), 1);
    assert_eq!(globs[0].0, Lang::Html);
    assert_eq!(globs[0].1, vec!["*.vue"]);
    assert!(!globs.iter().any(|(l, _)| *l == Lang::Tsx));
}

#[test]
fn trailing_named_candidates_do_not_match() {
    let p = Pattern::str("let a = 1", Lang::Tsx);
    assert!(p.find_node(&tree("let a = 1, b = 2")).is_none());
    assert!(p.find_node(&tree("let a = 1;")).is_some());
}

#[test]
fn fixed_string_compares_bytes() {
    let leaf = |s: &str| Pattern::Terminal { text: s.to_string(), is_named: true, kind_id: 1 };
    let p = Pattern::Internal { kind_id: 2, children: vec![leaf("éé"), leaf("abc")] };
    assert_eq!(p.fixed_string(), "éé");
    let p = Pattern::Internal { kind_id: 2, children: vec![leaf("ab"), leaf("cd")] };
    assert_eq!(p.fixed_string(), "ab");
}

#[test]
fn repeated_capture_after_ellipsis_is_not_its_renamed_twin() {
    // The ellipsis stops at the first candidate where the next pattern
    // matches: with `$X` repeated that is the second `a`, with a fresh `$Y`
    // it is `b`, after which the closing parenthesis cannot be aligned.
    let t = tree("f(a, b, a)");
    let repeated = Pattern::str("f($X, $$$B, $X)", Lang::Tsx);
    let renamed = Pattern::str("f($X, $$$B, $Y)", Lang::Tsx);
    let nm = repeated.find_node(&t).expect("matches");
    assert_eq!(single_text(&t, &nm, "X").as_deref(), Some("a"));
    assert!(renamed.find_node(&t).is_none());
}

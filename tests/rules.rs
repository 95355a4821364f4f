use astgrep_core::collection::{CollectionError, RuleCollection};
use astgrep_core::language::Lang;
use astgrep_core::pattern::Pattern;
use astgrep_core::record::{first_with_config, label_records, meta_variables, rule_match_record};
use astgrep_core::rule::{parse_global_utils, GlobalRules, LabelConfig, LabelStyle, Matcher, RuleConfig, RuleError, Severity};
use astgrep_core::transform::{convert_case, Case, Convert, Replace, Substring, Transformation};
use astgrep_core::tree::SyntaxTree;

fn tree(src: &str, lang: Lang) -> SyntaxTree {
    SyntaxTree::parse(src, lang).expect("parses")
}

fn rule(matcher: Matcher) -> RuleConfig {
    RuleConfig {
        id: "test".to_string(),
        language: Lang::TypeScript,
        severity: Severity::Info,
        message: "test rule".to_string(),
        note: Some("a long random note".to_string()),
        matcher,
        constraints: vec![],
        transform: vec![],
        labels: vec![],
        fix: vec![],
        utils: GlobalRules::empty(),
        metadata: None,
        files: None,
        ignores: None,
    }
}

fn pattern(src: &str) -> Matcher {
    Matcher::Pattern(Pattern::str(src, Lang::TypeScript))
}

#[test]
fn rule_transform_substring() {
    let mut r = rule(pattern("console.log($A)"));
    r.transform = vec![(
        "B".to_string(),
        Transformation::Substring(Substring { source: "$A".to_string(), start_char: Some(1), end_char: Some(-1) }),
    )];
    let t = tree("console.log(123)", Lang::TypeScript);
    let matches = r.find_all(&t);
    assert_eq!(matches.len(), 1);
    let env = matches[0].get_env();
    assert_eq!(t.text(env.get_match("A").unwrap()), "123");
    assert_eq!(env.get_transformed("B").as_deref(), Some("2"));
}

#[test]
fn rule_label_of_capture() {
    let mut r = rule(pattern("console.log($A)"));
    r.labels = vec![(
        "A".to_string(),
        LabelConfig { style: LabelStyle::Primary, message: Some("var label".to_string()) },
    )];
    let t = tree("console.log(123)", Lang::TypeScript);
    let m = r.find_all(&t).pop().expect("one match");
    let labels = r.get_labels(&t, &m);
    assert_eq!(labels.len(), 1);
    assert_eq!(labels[0].message.as_deref(), Some("var label"));
    assert_eq!(labels[0].style, LabelStyle::Primary);
    assert_eq!(&t.source[labels[0].range.clone()], "123");
}

#[test]
fn rule_default_label_covers_match() {
    let r = rule(pattern("console.log($A)"));
    let t = tree("console.log(123)", Lang::TypeScript);
    let m = r.find_all(&t).pop().expect("one match");
    let labels = r.get_labels(&t, &m);
    assert_eq!(labels.len(), 1);
    assert_eq!(labels[0].style, LabelStyle::Primary);
    assert_eq!(&t.source[labels[0].range.clone()], "console.log(123)");
}

#[test]
fn rule_message_substitution() {
    let mut r = rule(pattern("console.log($A)"));
    r.message = "do not log $A here".to_string();
    let t = tree("console.log(123)", Lang::TypeScript);
    let m = r.find_all(&t).pop().expect("one match");
    assert_eq!(r.get_message(&t, &m), "do not log 123 here");
    assert_eq!(r.note.as_deref(), Some("a long random note"));
}

#[test]
fn rule_constraints_filter_matches() {
    let mut r = rule(pattern("console.log($A)"));
    let number = Lang::TypeScript.named_kind("number").unwrap();
    r.constraints = vec![("A".to_string(), Matcher::Kind(number))];
    let t = tree("console.log(123); console.log(x)", Lang::TypeScript);
    let matches = r.find_all(&t);
    assert_eq!(matches.len(), 1);
    assert_eq!(t.text(matches[0].get_env().get_match("A").unwrap()), "123");
}

#[test]
fn rule_composite_matchers() {
    let t = tree("let a = 1; let b = 2", Lang::TypeScript);
    let decl = Lang::TypeScript.named_kind("lexical_declaration").unwrap();
    let all = rule(Matcher::All(vec![Matcher::Kind(decl), pattern("let $X = $Y")]));
    assert_eq!(all.find_all(&t).len(), 2);
    let any = rule(Matcher::Any(vec![pattern("let a = $Y"), pattern("let b = $Y")]));
    assert_eq!(any.find_all(&t).len(), 2);
    let not = rule(Matcher::All(vec![
        Matcher::Kind(decl),
        Matcher::Not(Box::new(pattern("let a = $Y"))),
    ]));
    let found = not.find_all(&t);
    assert_eq!(found.len(), 1);
    assert_eq!(t.text(found[0].get_node()), "let b = 2");
    assert!(found[0].get_env().single.is_empty());
}

#[test]
fn rule_all_carries_bindings() {
    let t = tree("f(a, a); f(a, b)", Lang::TypeScript);
    let r = rule(Matcher::All(vec![pattern("f($X, $Y)"), pattern("f($X, $X)")]));
    let found = r.find_all(&t);
    assert_eq!(found.len(), 1);
    assert_eq!(t.text(found[0].get_node()), "f(a, a)");
}

#[test]
fn rule_relational_matchers() {
    let t = tree("function f() { return g(1) }", Lang::TypeScript);
    let call = pattern("g($A)");
    let ret = Lang::TypeScript.named_kind("return_statement").unwrap();
    let args = Lang::TypeScript.named_kind("arguments").unwrap();
    let inside = rule(Matcher::All(vec![call, Matcher::Inside(Box::new(Matcher::Kind(ret)))]));
    let found = inside.find_all(&t);
    assert_eq!(found.len(), 1);
    assert_eq!(t.text(found[0].get_env().get_match("A").unwrap()), "1");

    let has = rule(Matcher::All(vec![
        Matcher::Kind(Lang::TypeScript.named_kind("call_expression").unwrap()),
        Matcher::Has(Box::new(Matcher::Kind(args))),
    ]));
    assert_eq!(has.find_all(&t).len(), 1);

    let t = tree("let a = 1; let b = 2; let c = 3", Lang::TypeScript);
    let follows = rule(Matcher::All(vec![
        pattern("let $X = $Y"),
        Matcher::Follows(Box::new(pattern("let a = 1"))),
    ]));
    let found = follows.find_all(&t);
    assert_eq!(found.len(), 1);
    assert_eq!(t.text(found[0].get_env().get_match("X").unwrap()), "b");

    let precedes = rule(Matcher::All(vec![
        pattern("let $X = $Y"),
        Matcher::Precedes(Box::new(pattern("let c = 3"))),
    ]));
    let found = precedes.find_all(&t);
    assert_eq!(found.len(), 1);
    assert_eq!(t.text(found[0].get_env().get_match("X").unwrap()), "b");
}

#[test]
fn matcher_potential_kinds() {
    let decl = Lang::TypeScript.named_kind("lexical_declaration").unwrap() as usize;
    let num = Lang::TypeScript.named_kind("number").unwrap() as usize;
    let k = Matcher::Kind(decl as u16);
    assert!(k.potential_kinds().unwrap().contains(decl));
    let any = Matcher::Any(vec![Matcher::Kind(decl as u16), Matcher::Kind(num as u16)]);
    let s = any.potential_kinds().unwrap();
    assert_eq!(s.len(), 2);
    let all = Matcher::All(vec![Matcher::Kind(decl as u16), Matcher::Kind(num as u16)]);
    assert_eq!(all.potential_kinds().unwrap().len(), 0);
    let wild = Matcher::Any(vec![Matcher::Kind(decl as u16), pattern("$A")]);
    assert!(wild.potential_kinds().is_none());
    assert!(Matcher::Not(Box::new(Matcher::Kind(num as u16))).potential_kinds().is_none());
    let narrowed = Matcher::All(vec![pattern("$A"), Matcher::Kind(num as u16)]);
    assert!(narrowed.potential_kinds().unwrap().contains(num));
}

#[test]
fn rule_regex_on_node_text() {
    let t = tree("let foo = bar1; let baz = 2", Lang::TypeScript);
    let ident = Lang::TypeScript.named_kind("identifier").unwrap();
    let r = rule(Matcher::All(vec![Matcher::Kind(ident), Matcher::Regex("^ba".to_string())]));
    let found: Vec<String> = r.find_all(&t).iter().map(|m| t.text(m.get_node()).to_string()).collect();
    assert_eq!(found, vec!["bar1", "baz"]);
    let broken = rule(Matcher::Regex("(".to_string()));
    assert!(broken.find_all(&t).is_empty());
}

#[test]
fn collection_keeps_rules_in_effect() {
    let mut off = rule(pattern("a"));
    off.severity = Severity::Off;
    let mut tsx = rule(pattern("b"));
    tsx.language = Lang::Tsx;
    let mut only_src = rule(pattern("c"));
    only_src.files = Some(vec!["src/**/*.ts".to_string()]);
    only_src.ignores = Some(vec!["src/gen/**".to_string()]);
    let plain = rule(pattern("d"));
    let (collection, trace) =
        match RuleCollection::try_new(vec![off, tsx, only_src, plain]) {
            Ok(x) => x,
            Err(_) => panic!("globs compile"),
        };
    assert_eq!(collection.total_rule_count(), 3);
    assert_eq!(trace.effective_rule_count, 3);
    assert_eq!(trace.skipped_rule_count, 1);
    assert_eq!(collection.for_path(Lang::TypeScript, "src/a/b.ts"), vec![1, 2]);
    assert_eq!(collection.for_path(Lang::TypeScript, "src/gen/b.ts"), vec![2]);
    assert_eq!(collection.for_path(Lang::TypeScript, "lib/b.ts"), vec![2]);
    assert_eq!(collection.for_path(Lang::Tsx, "lib/b.tsx"), vec![0]);
}

#[test]
fn collection_rejects_bad_glob() {
    let mut bad = rule(pattern("a"));
    bad.files = Some(vec!["a[".to_string()]);
    match RuleCollection::try_new(vec![bad]) {
        Err(CollectionError::GlobPattern(g)) => assert_eq!(g, "a["),
        _ => panic!("the glob does not compile"),
    }
    let mut bad_but_off = rule(pattern("a"));
    bad_but_off.files = Some(vec!["a[".to_string()]);
    bad_but_off.severity = Severity::Off;
    assert!(RuleCollection::try_new(vec![bad_but_off]).is_ok());
}

#[test]
fn test_label() {
    let mut r = rule(pattern("console.log($A)"));
    r.labels = vec![(
        "A".to_string(),
        LabelConfig { style: LabelStyle::Primary, message: Some("var label".to_string()) },
    )];
    let t = tree("console.log(123)", Lang::TypeScript);
    let m = r.find_all(&t).pop().expect("one match");
    let labels = label_records(&r, &t, &m);
    assert_eq!(labels.len(), 1);
    assert_eq!(labels[0].message.as_deref(), Some("var label"));
    assert_eq!(labels[0].style, LabelStyle::Primary);
    assert_eq!(labels[0].text, "123");
    assert_eq!(labels[0].range.start.column, 12);
    assert_eq!(labels[0].range.end.column, 15);
}

#[test]
fn labels_of_unbound_names_are_left_out() {
    let mut r = rule(pattern("console.log($A)"));
    r.labels = vec![
        ("Z".to_string(), LabelConfig { style: LabelStyle::Secondary, message: None }),
        ("A".to_string(), LabelConfig { style: LabelStyle::Secondary, message: None }),
    ];
    let t = tree("console.log(123)", Lang::TypeScript);
    let m = r.find_all(&t).pop().expect("one match");
    let labels = r.get_labels(&t, &m);
    assert_eq!(labels.len(), 1);
    assert_eq!(labels[0].style, LabelStyle::Secondary);
    assert_eq!(&t.source[labels[0].range.clone()], "123");
}

#[test]
fn test_metadata() {
    for included in [true, false] {
        let mut r = rule(pattern("console.log($A)"));
        r.metadata = Some(vec![("A".to_string(), "test-meta".to_string())]);
        let t = tree("console.log(123)", Lang::TypeScript);
        let m = r.find_all(&t).pop().expect("one match");
        let rec = rule_match_record(&r, &t, &m, included);
        assert_eq!(rec.metadata.is_some(), included);
        assert_eq!(rec.rule_id, "test");
        assert_eq!(rec.note.as_deref(), Some("a long random note"));
        assert_eq!(rec.message, "test rule");
        assert_eq!(rec.labels.len(), 1);
        assert_eq!(rec.labels[0].text, "console.log(123)");
    }
}

#[test]
fn match_bindings_as_records() {
    let t = tree("let x = 1;\nconsole.log(1, 2)", Lang::TypeScript);
    let r = rule(pattern("console.log($$$A)"));
    let m = r.find_all(&t).pop().expect("one match");
    let vars = meta_variables(&t, &m).expect("bound");
    assert!(vars.single.is_empty());
    let (name, nodes) = &vars.multi[0];
    assert_eq!(name, "A");
    let texts: Vec<&str> = nodes.iter().map(|n| n.text.as_str()).collect();
    assert_eq!(texts, vec!["1", ",", "2"]);
    assert_eq!(nodes[0].range.start.line, 1);
    assert_eq!(nodes[0].range.start.column, 12);
    let plain = rule(pattern("let x = 1"));
    let m = plain.find_all(&t).pop().expect("one match");
    assert!(meta_variables(&t, &m).is_none());
}

#[test]
fn config_search_takes_nearest() {
    assert_eq!(first_with_config(&vec![false, true, true]), Some(1));
    assert_eq!(first_with_config(&vec![false, false]), None);
    assert_eq!(first_with_config(&vec![]), None);
}

#[test]
fn collection_rejects_bad_regex() {
    let bad = rule(Matcher::All(vec![pattern("a"), Matcher::Regex("(".to_string())]));
    match RuleCollection::try_new(vec![bad]) {
        Err(CollectionError::InvalidRegex(x)) => assert_eq!(x, "("),
        _ => panic!("the regex does not compile"),
    }
}

#[test]
fn rule_transform_replace() {
    let mut r = rule(pattern("let $N = $V"));
    r.transform = vec![
        (
            "M".to_string(),
            Transformation::Replace(Replace {
                source: "$N".to_string(),
                replace: "(?P<x>[a-z]+)_(?P<y>[a-z]+)".to_string(),
                by: "${y}_${x}".to_string(),
            }),
        ),
        (
            "C".to_string(),
            Transformation::Substring(Substring { source: "$M".to_string(), start_char: None, end_char: Some(3) }),
        ),
    ];
    let t = tree("let foo_bar = 1", Lang::TypeScript);
    let m = r.find_all(&t).pop().expect("one match");
    assert_eq!(m.get_env().get_transformed("M").as_deref(), Some("bar_foo"));
    assert_eq!(m.get_env().get_transformed("C").as_deref(), Some("bar"));
}

#[test]
fn collection_rejects_bad_replace_regex() {
    let mut bad = rule(pattern("a"));
    bad.transform = vec![(
        "B".to_string(),
        Transformation::Replace(Replace { source: "$A".to_string(), replace: "(".to_string(), by: "".to_string() }),
    )];
    match RuleCollection::try_new(vec![bad]) {
        Err(CollectionError::InvalidRegex(x)) => assert_eq!(x, "("),
        _ => panic!("the regex does not compile"),
    }
}

fn reference(id: &str) -> Matcher {
    Matcher::Reference(id.to_string())
}

#[test]
fn rule_with_utility_references() {
    let number = Lang::TypeScript.named_kind("number").unwrap();
    let utils = vec![
        ("is-call".to_string(), Matcher::All(vec![pattern("$F($A)"), reference("num-arg")])),
        ("num-arg".to_string(), Matcher::Has(Box::new(Matcher::Has(Box::new(Matcher::Kind(number)))))),
    ];
    let g = match parse_global_utils(utils) {
        Ok(g) => g,
        Err(_) => panic!("acyclic utilities"),
    };
    assert_eq!(g.rank, vec![1, 0]);
    let mut r = rule(reference("is-call"));
    r.utils = g;
    let t = tree("f(1); g(x)", Lang::TypeScript);
    let found = r.find_all(&t);
    assert_eq!(found.len(), 1);
    assert_eq!(t.text(found[0].get_node()), "f(1)");
    let unresolved = rule(reference("is-call"));
    assert!(unresolved.find_all(&t).is_empty());
}

#[test]
fn utility_errors() {
    let dup = vec![("a".to_string(), pattern("x")), ("a".to_string(), pattern("y"))];
    assert!(matches!(parse_global_utils(dup), Err(RuleError::DuplicateRuleId(id)) if id == "a"));
    let unknown = vec![("a".to_string(), reference("b"))];
    assert!(matches!(parse_global_utils(unknown), Err(RuleError::UnknownRuleReference(id)) if id == "b"));
    let cyclic = vec![
        ("a".to_string(), reference("b")),
        ("b".to_string(), Matcher::Not(Box::new(reference("a")))),
        ("c".to_string(), pattern("x")),
    ];
    assert!(matches!(parse_global_utils(cyclic), Err(RuleError::CyclicRuleReference(id)) if id == "a"));
    let selfref = vec![("s".to_string(), Matcher::Any(vec![pattern("x"), reference("s")]))];
    assert!(matches!(parse_global_utils(selfref), Err(RuleError::CyclicRuleReference(id)) if id == "s"));
}

#[test]
fn case_conversion() {
    assert_eq!(convert_case("fooBar_baz-qux", Case::SnakeCase), "foo_bar_baz_qux");
    assert_eq!(convert_case("fooBar_baz-qux", Case::KebabCase), "foo-bar-baz-qux");
    assert_eq!(convert_case("foo_bar baz", Case::CamelCase), "fooBarBaz");
    assert_eq!(convert_case("foo_bar baz", Case::PascalCase), "FooBarBaz");
    assert_eq!(convert_case("fooBar", Case::UpperCase), "FOOBAR");
    assert_eq!(convert_case("FooBar", Case::LowerCase), "foobar");
    assert_eq!(convert_case("fooBar", Case::Capitalize), "FooBar");
    assert_eq!(convert_case("", Case::CamelCase), "");
}

#[test]
fn rule_transform_convert() {
    let mut r = rule(pattern("let $N = $V"));
    r.transform = vec![(
        "S".to_string(),
        Transformation::Convert(Convert { source: "$N".to_string(), to_case: Case::SnakeCase }),
    )];
    let t = tree("let fooBar = 1", Lang::TypeScript);
    let m = r.find_all(&t).pop().expect("one match");
    assert_eq!(m.get_env().get_transformed("S").as_deref(), Some("foo_bar"));
}

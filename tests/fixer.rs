use astgrep_core::fixer::{apply_edit, Fixer, TemplatePart};
use astgrep_core::language::Lang;
use astgrep_core::pattern::Pattern;
use astgrep_core::print::Diff;
use astgrep_core::tree::SyntaxTree;

fn tree(src: &str) -> SyntaxTree {
    SyntaxTree::parse(src, Lang::Tsx).expect("tsx parses")
}

const MATCHES_CASES: &[(&str, &str, &str)] = &[
    ("let a = 123", "a", "b"),
    ("Some(1), Some(2), Some(3)", "Some", "Any"),
    ("Some(1), Some(2)\nSome(3), Some(4)", "Some", "Any"),
    ("import a from 'b';import a from 'b';", "import a from 'b';", "import c from 'b';"),
];

#[test]
fn template_pieces() {
    let f = Fixer::from_str("a$A$$$B $");
    assert_eq!(f.parts.len(), 5);
    assert!(matches!(&f.parts[0], TemplatePart::Text('a')));
    assert!(matches!(&f.parts[1], TemplatePart::Var(n) if n == "A"));
    assert!(matches!(&f.parts[2], TemplatePart::MultiVar(n) if n == "B"));
    assert!(matches!(&f.parts[3], TemplatePart::Text(' ')));
    assert!(matches!(&f.parts[4], TemplatePart::Text('$')));
}

#[test]
fn replacement_of_each_match() {
    for &(source, pattern, replace) in MATCHES_CASES {
        let t = tree(source);
        let p = Pattern::str(pattern, Lang::Tsx);
        let fixer = Fixer::from_str(replace);
        let matches = p.find_all(&t);
        assert!(!matches.is_empty(), "{source}");
        for m in matches {
            let node = m.get_node();
            let d = Diff::generate(&t, m, &fixer);
            assert_eq!(d.replacement, replace);
            assert_eq!(d.range.start, t.nodes[node].start);
            assert_eq!(d.range.end, t.nodes[node].end);
        }
    }
}

#[test]
fn fix_with_captures() {
    let t = tree("console.log(1, 2, 3)");
    let p = Pattern::str("console.log($$$A)", Lang::Tsx);
    let m = p.find_node(&t).expect("matches");
    let d = Diff::generate(&t, m, &Fixer::from_str("logger.info($$$A)"));
    assert_eq!(d.replacement, "logger.info(1, 2, 3)");

    let t = tree("foo(bar)");
    let p = Pattern::str("$F($X)", Lang::Tsx);
    let m = p.find_node(&t).expect("matches");
    let d = Diff::generate(&t, m, &Fixer::from_str("$X($F) $UNBOUND"));
    assert_eq!(d.replacement, "bar(foo) ");
}

#[test]
fn fix_equal_to_pattern_source_keeps_the_file() {
    let src = "console.log(123)";
    let t = tree(src);
    let p = Pattern::str("console.log($A)", Lang::Tsx);
    let m = p.find_node(&t).expect("matches");
    let edit = m.make_edit(&t, &Fixer::from_str("console.log($A)"));
    let out = apply_edit(&src.as_bytes().to_vec(), &edit);
    assert_eq!(out, src.as_bytes());
}

#[test]
fn fix_equal_to_pattern_source_normalises_spacing() {
    let src = "console.log( 123 )";
    let t = tree(src);
    let p = Pattern::str("console.log($A)", Lang::Tsx);
    let m = p.find_node(&t).expect("matches");
    let edit = m.make_edit(&t, &Fixer::from_str("console.log($A)"));
    let out = apply_edit(&src.as_bytes().to_vec(), &edit);
    assert_eq!(out, b"console.log(123)");
}

#[test]
fn several_fixes_for_one_match() {
    let t = tree("let a = 123");
    let p = Pattern::str("a", Lang::Tsx);
    let fixers = vec![
        Fixer::with_title("b", "rename to b"),
        Fixer::from_str("c"),
        Fixer::with_title("d", "rename to d"),
    ];
    let m = p.find_node(&t).expect("matches");
    let d = Diff::multiple(&t, m, &fixers).expect("has fixers");
    assert_eq!(d.replacement, "b");
    assert_eq!(d.title.as_deref(), Some("rename to b"));
    let extra = d.additional_fixes.as_ref().expect("more than one");
    assert_eq!(extra.len(), 2);
    assert_eq!(extra[0].replacement, "c");
    assert_eq!(extra[1].title.as_deref(), Some("rename to d"));
    assert_eq!(d.get_root_text(&t), "let a = 123");
    let list = d.into_list();
    assert_eq!(list.len(), 3);
    assert_eq!(list[2].replacement, "d");
    assert!(list.iter().all(|d| d.additional_fixes.is_none()));
    assert!(list.iter().all(|d| t.text(d.node_match.node) == "a"));

    let m = p.find_node(&t).expect("matches");
    assert!(Diff::multiple(&t, m, &vec![]).is_none());
    let m = p.find_node(&t).expect("matches");
    let one = Diff::multiple(&t, m, &vec![Fixer::from_str("z")]).expect("one fixer");
    assert!(one.additional_fixes.is_none());
}

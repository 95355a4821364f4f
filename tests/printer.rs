use astgrep_core::print::{ColorArg, JSONPrinter, JsonStyle};

fn run(style: JsonStyle, buffers: &[Vec<Vec<u8>>]) -> String {
    let mut printer = JSONPrinter::new(Vec::<u8>::new(), style);
    let mut out = printer.before_print();
    for docs in buffers {
        let buffer = printer.get_processor().print_docs(docs);
        out.extend(printer.process(&buffer));
    }
    out.extend(printer.after_print());
    String::from_utf8(out).unwrap()
}

fn docs(items: &[&str]) -> Vec<Vec<u8>> {
    items.iter().map(|s| s.as_bytes().to_vec()).collect()
}

#[test]
fn test_empty_printer() {
    for style in [JsonStyle::Pretty, JsonStyle::Compact] {
        assert_eq!(run(style, &[vec![]]), "[]\n");
    }
}

#[test]
fn empty_stream_prints_nothing() {
    assert_eq!(run(JsonStyle::Stream, &[vec![]]), "");
}

#[test]
fn pretty_framing() {
    let text = run(JsonStyle::Pretty, &[docs(&["{a}", "{b}"]), docs(&["{c}"])]);
    assert_eq!(text, "[\n{a},\n{b},\n{c}\n]\n");
}

#[test]
fn compact_framing() {
    let text = run(JsonStyle::Compact, &[docs(&["{a}", "{b}"]), docs(&["{c}"])]);
    assert_eq!(text, "[{a},{b},{c}]\n");
}

#[test]
fn stream_framing() {
    let text = run(JsonStyle::Stream, &[docs(&["{a}", "{b}"]), docs(&["{c}"])]);
    assert_eq!(text, "{a}\n{b}\n{c}\n");
}

#[test]
fn printer_settings() {
    let p = JSONPrinter::new(Vec::<u8>::new(), JsonStyle::Compact).context((2, 3)).include_metadata(true);
    let proc_ = p.get_processor();
    assert_eq!(proc_.context, (2, 3));
    assert!(proc_.include_metadata);
    assert_eq!(proc_.style, JsonStyle::Compact);
    let p = JSONPrinter::new(Vec::<u8>::new(), JsonStyle::Pretty);
    assert_eq!(p.get_processor().context, (0, 0));
    assert!(!p.get_processor().include_metadata);
}

#[test]
fn color_choice() {
    assert!(ColorArg::Always.should_use_color());
    assert!(ColorArg::Ansi.should_use_color());
    assert!(!ColorArg::Never.should_use_color());
    assert!(ColorArg::Auto.use_color(true));
    assert!(!ColorArg::Auto.use_color(false));
}

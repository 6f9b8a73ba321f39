use dsfmt::config::{file_action, format_text, Args, FileAction};
use dsfmt::parser::{detect_lang, parse, parse_and_format, Error, Lang};
use dsfmt::printer::{format_syntax_tree, format_value, Printer};
use dsfmt::syntax::{syntax_tree, NodeKind, SyntaxNode};
use dsfmt::tags::is_data_attr_name;
use dsfmt::text::{count_tabs_in, find_line_start, trim};
use dsfmt::value::{
    classify_inner_chars, non_empty_parts, quote_wrap_chars, split_top_level_parts,
    unwrap_value_chars, value_needs_split_chars,
};

fn chars(s: &str) -> Vec<char> {
    s.chars().collect()
}

fn text(v: &[char]) -> String {
    v.iter().collect()
}

fn texts(v: &[Vec<char>]) -> Vec<String> {
    v.iter().map(|p| text(p)).collect()
}

fn fmt(input: &str, width: usize) -> String {
    parse_and_format(input, width, false, 4)
}

#[test]
fn extensions_map_to_languages() {
    for ext in ["html", "htm", "heex", "blade", "templ"] {
        assert_eq!(Lang::from_extension(ext), Some(Lang::Html));
    }
    assert_eq!(Lang::from_extension("jsx"), Some(Lang::Tsx));
    assert_eq!(Lang::from_extension("tsx"), Some(Lang::Tsx));
    assert_eq!(Lang::from_extension("php"), None);
    assert_eq!(Lang::from_extension(""), None);
    assert_eq!(Lang::from_extension("HTML"), None);
}

#[test]
fn language_detection() {
    assert_eq!(detect_lang("<div></div>"), Lang::Html);
    assert_eq!(detect_lang("const f = () => 1"), Lang::Tsx);
    assert_eq!(detect_lang("function f() {}"), Lang::Tsx);
    assert_eq!(detect_lang("export default 1"), Lang::Tsx);
    assert_eq!(detect_lang("import x from 'y'"), Lang::Tsx);
    assert_eq!(detect_lang("<div data-effect={`a`}></div>"), Lang::Tsx);
    assert_eq!(detect_lang("functional"), Lang::Html);
}

#[test]
fn parse_gives_a_tree() {
    assert!(parse("<div></div>", Lang::Html).is_ok());
    assert!(parse("const x = <div />;", Lang::Tsx).is_ok());
}

#[test]
fn tree_ranges_counted_in_characters() {
    let source = "<p>é</p><b data-on:x=\"1\"></b>";
    let tree = parse(source, Lang::Html).ok().unwrap();
    let src = chars(source);
    let root = syntax_tree(&tree, &src);
    assert_eq!((root.start, root.end), (0, src.len()));
    assert_eq!(root.children.len(), 2);
    assert_eq!((root.children[0].start, root.children[0].end), (0, 8));
    assert_eq!((root.children[1].start, root.children[1].end), (8, src.len()));
    let tag = &root.children[1].children[0];
    assert!(matches!(tag.kind, NodeKind::StartTag));
    assert_eq!((tag.start, tag.end), (8, 25));
}

#[test]
fn error_message() {
    let e = Error::Parse("boom".to_string());
    assert_eq!(e.message(), "parse error: boom");
}

#[test]
fn split_at_top_level_only() {
    let parts = split_top_level_parts(&chars("a, (b, c), {d; e}; f"), &chars(";,"));
    assert_eq!(texts(&parts), vec!["a", " (b, c)", " {d; e}", " f"]);
    let parts = split_top_level_parts(&chars("a)), b"), &chars(","));
    assert_eq!(texts(&parts), vec!["a))", " b"]);
    let parts = split_top_level_parts(&chars(""), &chars(","));
    assert_eq!(texts(&parts), vec![""]);
    let parts = split_top_level_parts(&chars("a;"), &chars(";"));
    assert_eq!(texts(&parts), vec!["a", ""]);
}

#[test]
fn split_parts_join_back() {
    for content in ["a, (b, c), {d; e}; f", "a;", "", ";;x", "f(a; b)"] {
        let c = chars(content);
        let parts = split_top_level_parts(&c, &chars(";,"));
        let mut rebuilt: Vec<char> = Vec::new();
        for (k, part) in parts.iter().enumerate() {
            rebuilt.extend(part.iter());
            if k + 1 < parts.len() {
                let sep = c[rebuilt.len()];
                assert!(sep == ';' || sep == ',');
                rebuilt.push(sep);
            }
        }
        assert_eq!(rebuilt, c);
    }
}

#[test]
fn empty_parts_dropped() {
    let parts = vec![chars("a"), chars("  "), chars(""), chars(" b ")];
    assert_eq!(texts(&non_empty_parts(parts)), vec!["a", " b "]);
}

#[test]
fn quotes_unwrapped() {
    assert_eq!(text(&unwrap_value_chars(&chars("{\"x\"}"))), "x");
    assert_eq!(text(&unwrap_value_chars(&chars("{`x`}"))), "x");
    assert_eq!(text(&unwrap_value_chars(&chars("\"x\""))), "x");
    assert_eq!(text(&unwrap_value_chars(&chars("'x'"))), "x");
    assert_eq!(text(&unwrap_value_chars(&chars("`x`"))), "x");
    assert_eq!(text(&unwrap_value_chars(&chars("{x}"))), "{x}");
    assert_eq!(text(&unwrap_value_chars(&chars("\"x"))), "\"x");
    // quotes that overlap leave the value as it is
    assert_eq!(text(&unwrap_value_chars(&chars("\""))), "\"");
    assert_eq!(text(&unwrap_value_chars(&chars("{\"}"))), "{\"}");
    assert_eq!(text(&unwrap_value_chars(&chars("\"\""))), "");
}

#[test]
fn quote_pairs_chosen_by_prefix() {
    let q = |s: &str| {
        let (a, b) = quote_wrap_chars(&chars(s));
        (text(&a), text(&b))
    };
    assert_eq!(q("{`a`}"), ("{`".to_string(), "`}".to_string()));
    assert_eq!(q("`a`"), ("`".to_string(), "`".to_string()));
    assert_eq!(q("{\"a\"}"), ("{\"".to_string(), "\"}".to_string()));
    assert_eq!(q("\"a\""), ("\"".to_string(), "\"".to_string()));
    assert_eq!(q("'a'"), ("'".to_string(), "'".to_string()));
    assert_eq!(q("{a}"), (String::new(), String::new()));
}

#[test]
fn objects_and_arrays_recognised() {
    assert_eq!(classify_inner_chars(&chars("\"{a}\""), &chars("{a}")), (true, false));
    assert_eq!(classify_inner_chars(&chars("'[a]'"), &chars("[a]")), (false, true));
    assert_eq!(classify_inner_chars(&chars("{a}"), &chars("{a}")), (false, false));
    assert_eq!(classify_inner_chars(&chars("\"{a\""), &chars("{a")), (false, false));
}

#[test]
fn values_that_need_several_lines() {
    assert!(!value_needs_split_chars(&None, 90));
    assert!(!value_needs_split_chars(&Some(chars("\"$a\"")), 90));
    assert!(value_needs_split_chars(&Some(chars("\"$a; $b\"")), 90));
    assert!(value_needs_split_chars(&Some(chars("\"$a, $b\"")), 90));
    assert!(!value_needs_split_chars(&Some(chars("\"f($a, $b)\"")), 90));
    assert!(!value_needs_split_chars(&Some(chars("\"$a;\"")), 90));
    // the width is counted in bytes: four characters, five bytes
    assert!(value_needs_split_chars(&Some(chars("\"é$\"")), 4));
    assert!(!value_needs_split_chars(&Some(chars("\"é$\"")), 5));
    // a value whose quotes overlap is still measured against the width
    assert!(value_needs_split_chars(&Some(chars("\"")), 0));
    assert!(!value_needs_split_chars(&Some(chars("\"")), 90));
    assert!(!value_needs_split_chars(&Some(chars("{\"}")), 90));
}

#[test]
fn tag_after_text_on_its_line_gets_no_indent() {
    let input = "\tx = <div data-on:click=\"$a\" data-bind:value=\"$foo\">hello</div>";
    let once = fmt(input, 20);
    assert_eq!(
        once,
        "\tx = <div\n\t\tdata-on:click=\"$a\"\n\t\tdata-bind:value=\"$foo\">hello</div>"
    );
    assert_eq!(fmt(&once, 20), once);
}

#[test]
fn every_tag_replaced() {
    let input = "<div data-on:a=\"$a\" data-on:b=\"$b\"></div>\n\t<p data-on:c=\"$c\" data-on:d=\"$d\">x</p>";
    assert_eq!(
        fmt(input, 10),
        "<div\n\tdata-on:a=\"$a\"\n\tdata-on:b=\"$b\"></div>\n\t<p\n\t\tdata-on:c=\"$c\"\n\t\tdata-on:d=\"$d\">x</p>"
    );
}

#[test]
fn unquoted_values_kept_when_split() {
    let input = "<div data-show=$a data-on:click=$b>x</div>";
    assert_eq!(fmt(input, 10), "<div\n\tdata-show=$a\n\tdata-on:click=$b>x</div>");
}

#[test]
fn spread_attributes_kept_when_split() {
    let input = "const X = () => <div {...props} data-on:click={`$a`} data-show={`$b`}></div>;";
    assert_eq!(
        fmt(input, 30),
        "const X = () => <div {...props}\n\tdata-on:click={`$a`}\n\tdata-show={`$b`}></div>;"
    );
}

#[test]
fn member_and_namespaced_tag_names_kept() {
    let input = "const X = () => <Foo.Bar data-on:click={`$a`} data-show={`$b`}></Foo.Bar>;";
    assert_eq!(
        fmt(input, 30),
        "const X = () => <Foo.Bar\n\tdata-on:click={`$a`}\n\tdata-show={`$b`}></Foo.Bar>;"
    );
    let input = "const X = () => <svg:rect data-on:click={`$a`} data-show={`$b`} />;";
    assert_eq!(
        fmt(input, 30),
        "const X = () => <svg:rect\n\tdata-on:click={`$a`}\n\tdata-show={`$b`} />;"
    );
}

#[test]
fn data_attribute_names() {
    assert!(is_data_attr_name(&chars("data-on:click")));
    assert!(is_data_attr_name(&chars("data-signals")));
    assert!(is_data_attr_name(&chars("data-scroll-into-view")));
    assert!(!is_data_attr_name(&chars("data-foo")));
    assert!(!is_data_attr_name(&chars("class")));
    assert!(!is_data_attr_name(&chars("data")));
}

#[test]
fn trimming_unicode_whitespace() {
    assert_eq!(text(&trim(&chars("\u{a0} a b\u{3000}\t"))), "a b");
    assert_eq!(text(&trim(&chars("   "))), "");
}

#[test]
fn line_start_and_depth() {
    let src = chars("<a>\n\t\t<b>");
    assert_eq!(find_line_start(6, &src), 4);
    assert_eq!(find_line_start(2, &src), 0);
    assert_eq!(count_tabs_in(&src, 4, 6), 2);
}

#[test]
fn object_value_laid_out() {
    let indent = chars("\t");
    let mut p = Printer::new(&indent, 0);
    format_value(&mut p, &chars("\"{a: 1, b: 2}\""), 1, 90);
    assert_eq!(text(&p.finish()), "\"{\n\t\ta: 1,\n\t\tb: 2,\n\t}\"");
}

#[test]
fn array_value_laid_out() {
    let indent = chars("  ");
    let mut p = Printer::new(&indent, 1);
    format_value(&mut p, &chars("'[1, [2, 3], 4]'"), 1, 90);
    assert_eq!(text(&p.finish()), "  '[\n    1,\n    [2, 3],\n    4,\n  ]'");
}

#[test]
fn statements_laid_out_with_semicolons() {
    let indent = chars("\t");
    let mut p = Printer::new(&indent, 0);
    format_value(&mut p, &chars("{`$a = 1, $b = 2;`}"), 1, 90);
    assert_eq!(text(&p.finish()), "{`\n\t\t$a = 1;\n\t\t$b = 2;\n\t`}");
}

#[test]
fn short_value_kept() {
    let indent = chars("\t");
    let mut p = Printer::new(&indent, 0);
    format_value(&mut p, &chars("  \"$a\"  "), 1, 90);
    assert_eq!(text(&p.finish()), "\"$a\"");
}

fn layout(value: &str, width: usize) -> String {
    let indent = chars("\t");
    let mut p = Printer::new(&indent, 0);
    format_value(&mut p, &chars(value), 1, width);
    text(&p.finish())
}

#[test]
fn value_laid_out_twice_is_unchanged() {
    for (value, width) in [
        ("\"{a: 1, b: {c: 2, d: 3}}\"", 10),
        ("'[1, [2, 3], 4]'", 5),
        ("{`$a = 1, $b = 2;`}", 90),
        ("\"$abcdef\"", 5),
        ("\"  \"", 1),
        ("\"$a\"", 90),
        ("{$a; $b}", 3),
        ("$a = 1; $b = 2", 90),
    ] {
        let once = layout(value, width);
        assert_eq!(layout(&once, width), once);
    }
}

#[test]
fn long_single_statement_gets_its_own_line() {
    let indent = chars("\t");
    let mut p = Printer::new(&indent, 0);
    format_value(&mut p, &chars("\"$abcdef\""), 1, 5);
    assert_eq!(text(&p.finish()), "\"\n\t\t$abcdef;\n\t\"");
}

fn leaf(kind: NodeKind, start: usize, end: usize) -> SyntaxNode {
    SyntaxNode { kind, start, end, name_field: None, children: Vec::new() }
}

#[test]
fn tree_formatted_from_its_model() {
    // <p data-show="$a" data-text="$b">
    // 0123456789012345678901234567890123
    let src = chars("<p data-show=\"$a\" data-text=\"$b\">");
    let attr1 = SyntaxNode {
        kind: NodeKind::Attribute,
        start: 3,
        end: 17,
        name_field: None,
        children: vec![
            leaf(NodeKind::Other, 3, 12),
            leaf(NodeKind::Equals, 12, 13),
            leaf(NodeKind::QuotedAttributeValue, 13, 17),
        ],
    };
    let attr2 = SyntaxNode {
        kind: NodeKind::Attribute,
        start: 18,
        end: 32,
        name_field: None,
        children: vec![
            leaf(NodeKind::Other, 18, 27),
            leaf(NodeKind::Equals, 27, 28),
            leaf(NodeKind::QuotedAttributeValue, 28, 32),
        ],
    };
    let tag = SyntaxNode {
        kind: NodeKind::StartTag,
        start: 0,
        end: 33,
        name_field: None,
        children: vec![
            leaf(NodeKind::Other, 0, 1),
            leaf(NodeKind::TagName, 1, 2),
            attr1,
            attr2,
            leaf(NodeKind::Other, 32, 33),
        ],
    };
    let root = SyntaxNode {
        kind: NodeKind::Other,
        start: 0,
        end: 33,
        name_field: None,
        children: vec![tag],
    };
    let out = format_syntax_tree(&src, &root, 10, false, 4);
    assert_eq!(text(&out), "<p\n\tdata-show=\"$a\"\n\tdata-text=\"$b\">");
    let out = format_syntax_tree(&src, &root, 90, false, 4);
    assert_eq!(text(&out), text(&src));
}

#[test]
fn object_value_split_when_too_wide() {
    let input = "<div data-signals=\"{a: 1, b: 2}\"></div>";
    assert_eq!(fmt(input, 90), input);
    assert_eq!(
        fmt(input, 10),
        "<div\n\tdata-signals=\"{\n\t\ta: 1,\n\t\tb: 2,\n\t}\"></div>"
    );
}

#[test]
fn spaces_used_for_indent() {
    let input = "<div data-signals=\"{a: 1, b: 2}\"></div>";
    assert_eq!(
        parse_and_format(input, 10, true, 2),
        "<div\n  data-signals=\"{\n    a: 1,\n    b: 2,\n  }\"></div>"
    );
}

#[test]
fn template_statements_exact() {
    let input = "<div data-effect={`$a = 1, $b = 2`}></div>";
    assert_eq!(
        fmt(input, 90),
        "<div\n\tdata-effect={`\n\t\t$a = 1;\n\t\t$b = 2;\n\t`}></div>"
    );
}

#[test]
fn width_counted_in_bytes() {
    let input = "<div data-show=\"éé\" data-text=\"$x\"></div>";
    assert_eq!(
        fmt(input, 36),
        "<div\n\tdata-show=\"éé\"\n\tdata-text=\"$x\"></div>"
    );
    assert_eq!(fmt(input, 37), input);
}

#[test]
fn indented_tag_owns_its_indent() {
    let input = "<main>\n\t\t<div data-show=\"$a\" data-text=\"$b\">x</div>\n</main>";
    assert_eq!(
        fmt(input, 20),
        "<main>\n\t\t<div\n\t\t\tdata-show=\"$a\"\n\t\t\tdata-text=\"$b\">x</div>\n</main>"
    );
}

#[test]
fn other_attributes_stay_inline() {
    let input = "<div class=\"box\" data-show=\"$a\" data-text=\"$b\">x</div>";
    assert_eq!(
        fmt(input, 20),
        "<div class=\"box\"\n\tdata-show=\"$a\"\n\tdata-text=\"$b\">x</div>"
    );
}

#[test]
fn self_closing_tag_split() {
    let input = "<input data-bind:value=\"$foo\" data-attr:disabled=\"true\" />";
    assert_eq!(
        fmt(input, 20),
        "<input\n\tdata-bind:value=\"$foo\"\n\tdata-attr:disabled=\"true\" />"
    );
}

#[test]
fn unknown_data_attributes_ignored() {
    let input = "<div data-foo=\"a; b\" data-bar=\"c\">x</div>";
    assert_eq!(fmt(input, 5), input);
}

#[test]
fn nothing_to_format() {
    let input = "plain text without tags";
    assert_eq!(fmt(input, 10), input);
    assert_eq!(fmt("", 10), "");
}

#[test]
fn formatting_twice_changes_nothing() {
    let inputs = [
        "<div data-signals=\"{a: 1, b: 2}\"></div>",
        "<div data-effect={`$a = 1, $b = 2`}></div>",
        "<div data-bind:value=\"$foo\" data-show=\"$visible\">hi</div>",
        "<main>\n\t<div class=\"c\" data-on:click=\"$a++; $b--\" data-text=\"$t\">x</div>\n</main>",
    ];
    for input in inputs {
        let once = fmt(input, 30);
        let twice = fmt(&once, 30);
        assert_eq!(once, twice, "not idempotent on {input:?}");
    }
}

#[test]
fn args_format_text() {
    let args = Args {
        paths: Vec::new(),
        line_width: 40,
        use_spaces: false,
        tab_width: 4,
        check: false,
        write: false,
    };
    let input = r#"<div data-bind:value="$foo" data-show="$visible">hi</div>"#;
    assert_eq!(
        format_text(input, &args),
        "<div\n\tdata-bind:value=\"$foo\"\n\tdata-show=\"$visible\">hi</div>"
    );
}

#[test]
fn file_actions() {
    let mut args = Args {
        paths: Vec::new(),
        line_width: 90,
        use_spaces: false,
        tab_width: 4,
        check: true,
        write: false,
    };
    assert_eq!(file_action(&args, "a", "b"), FileAction::ReportChange);
    assert_eq!(file_action(&args, "a", "a"), FileAction::Nothing);
    args.check = false;
    args.write = true;
    assert_eq!(file_action(&args, "a", "b"), FileAction::WriteBack);
    assert_eq!(file_action(&args, "a", "a"), FileAction::Nothing);
    args.write = false;
    assert_eq!(file_action(&args, "a", "a"), FileAction::Print);
    assert_eq!(file_action(&args, "a", "b"), FileAction::Print);
}

use usage::{check_chain, ParsingContext, Span, SpecDataTypes, Spec_old, UsageErr};

fn fail(text: &str) -> UsageErr {
    let ctx = ParsingContext::new("tool.usage", text);
    Spec_old::parse(&ctx, text).unwrap_err()
}

#[test]
fn unknown_top_level_key_is_rejected_at_its_node() {
    match fail("name \"x\"\nbogus \"y\"\nbin \"z\"\n") {
        UsageErr::UnsupportedSpecKey { file, span, key } => {
            assert_eq!(file, "tool.usage");
            assert_eq!(key, "bogus");
            assert_eq!(span.offset, 9);
            assert_eq!(span.len, 9);
        }
        other => panic!("unexpected: {:?}", other),
    }
}

#[test]
fn an_earlier_error_comes_before_an_unknown_key() {
    match fail("bin 1\nbogus \"y\"\n") {
        UsageErr::TypeMismatch { expected, .. } => assert_eq!(expected, SpecDataTypes::String),
        other => panic!("unexpected: {:?}", other),
    }
}

#[test]
fn unknown_key_inside_a_command_is_rejected() {
    match fail("cmd \"a\" {\n  name \"x\"\n}\n") {
        UsageErr::UnsupportedSpecKey { key, .. } => assert_eq!(key, "name"),
        other => panic!("unexpected: {:?}", other),
    }
    match fail("cmd \"a\" {\n  config {\n  }\n}\n") {
        UsageErr::UnsupportedSpecKey { key, .. } => assert_eq!(key, "config"),
        other => panic!("unexpected: {:?}", other),
    }
}

#[test]
fn unknown_property_is_rejected_at_its_entry() {
    match fail("arg \"x\" colour=\"red\"\n") {
        UsageErr::UnsupportedSpecKey { key, span, .. } => {
            assert_eq!(key, "colour");
            assert_eq!(span.offset, 8);
        }
        other => panic!("unexpected: {:?}", other),
    }
    match fail("flag \"-x\" colour=\"red\"\n") {
        UsageErr::UnsupportedSpecKey { key, .. } => assert_eq!(key, "colour"),
        other => panic!("unexpected: {:?}", other),
    }
    match fail("cmd \"x\" colour=\"red\"\n") {
        UsageErr::UnsupportedSpecKey { key, .. } => assert_eq!(key, "colour"),
        other => panic!("unexpected: {:?}", other),
    }
    match fail("config {\n  prop \"k\" colour=\"red\"\n}\n") {
        UsageErr::UnsupportedSpecKey { key, .. } => assert_eq!(key, "colour"),
        other => panic!("unexpected: {:?}", other),
    }
    match fail("config {\n  option \"k\"\n}\n") {
        UsageErr::UnsupportedSpecKey { key, .. } => assert_eq!(key, "option"),
        other => panic!("unexpected: {:?}", other),
    }
}

#[test]
fn unknown_data_type_is_rejected() {
    match fail("arg \"x\" type=\"text\"\n") {
        UsageErr::UnsupportedSpecKey { key, .. } => assert_eq!(key, "text"),
        other => panic!("unexpected: {:?}", other),
    }
}

#[test]
fn missing_positional_argument_is_reported_at_the_node() {
    match fail("name \"x\"\nbin\n") {
        UsageErr::MissingPositionalArgument { file, span, index } => {
            assert_eq!(file, "tool.usage");
            assert_eq!(index, 0);
            assert_eq!(span.offset, 9);
        }
        other => panic!("unexpected: {:?}", other),
    }
    match fail("arg help=\"h\"\n") {
        UsageErr::MissingPositionalArgument { index, .. } => assert_eq!(index, 0),
        other => panic!("unexpected: {:?}", other),
    }
    match fail("cmd\n") {
        UsageErr::MissingPositionalArgument { index, .. } => assert_eq!(index, 0),
        other => panic!("unexpected: {:?}", other),
    }
}

#[test]
fn type_mismatch_names_the_expected_kind() {
    match fail("name 12\n") {
        UsageErr::TypeMismatch { expected, span, .. } => {
            assert_eq!(expected, SpecDataTypes::String);
            assert_eq!(span.offset, 5);
            assert_eq!(span.len, 2);
        }
        other => panic!("unexpected: {:?}", other),
    }
    match fail("flag \"-f\" global=\"yes\"\n") {
        UsageErr::TypeMismatch { expected, .. } => assert_eq!(expected, SpecDataTypes::Boolean),
        other => panic!("unexpected: {:?}", other),
    }
    for text in ["name true\n", "name null\n", "name 1.5\n", "name 0x10\n"] {
        match fail(text) {
            UsageErr::TypeMismatch { expected, .. } => assert_eq!(expected, SpecDataTypes::String),
            other => panic!("unexpected: {:?}", other),
        }
    }
}

#[test]
fn raw_string_is_a_string() {
    let spec = Spec_old::parse_spec("name r#\"a \"b\"\"#\n").unwrap();
    assert_eq!(spec.name, "a \"b\"");
}

#[test]
fn include_without_file_is_a_missing_property() {
    match fail("include\n") {
        UsageErr::MissingProperty { file, key, span } => {
            assert_eq!(file, "tool.usage");
            assert_eq!(key, "file");
            assert_eq!(span.offset, 0);
        }
        other => panic!("unexpected: {:?}", other),
    }
    match fail("include file=1\n") {
        UsageErr::TypeMismatch { expected, .. } => assert_eq!(expected, SpecDataTypes::String),
        other => panic!("unexpected: {:?}", other),
    }
}

#[test]
fn include_takes_the_last_file_property() {
    match fail("include file=\"a\" file=\"b\"\n") {
        UsageErr::UnresolvedInclude { path, .. } => assert_eq!(path, "b"),
        other => panic!("unexpected: {:?}", other),
    }
}

#[test]
fn text_that_is_no_document_is_a_syntax_error() {
    match fail("name \"x\n") {
        UsageErr::DocumentSyntax { file, .. } => assert_eq!(file, "tool.usage"),
        other => panic!("unexpected: {:?}", other),
    }
    match Spec_old::parse_spec("cmd {") {
        Err(UsageErr::DocumentSyntax { file, .. }) => assert_eq!(file, ""),
        other => panic!("unexpected: {:?}", other),
    }
}

#[test]
fn circular_chain_is_refused() {
    let active = vec!["a.usage".to_string(), "b.usage".to_string()];
    assert!(check_chain(&active, "c.usage").is_ok());
    match check_chain(&active, "a.usage") {
        Err(UsageErr::CircularInclude { file }) => assert_eq!(file, "a.usage"),
        other => panic!("unexpected: {:?}", other),
    }
    assert!(check_chain(&Vec::new(), "a.usage").is_ok());
}

#[test]
fn every_error_names_its_file_and_place() {
    let at = Span { offset: 3, len: 4 };
    let f = || "f".to_string();
    let errors = vec![
        UsageErr::DocumentSyntax { file: f(), span: at, message: "m".to_string() },
        UsageErr::MissingPositionalArgument { file: f(), span: at, index: 1 },
        UsageErr::TypeMismatch { file: f(), span: at, expected: SpecDataTypes::Integer },
        UsageErr::MissingProperty { file: f(), span: at, key: "k".to_string() },
        UsageErr::UnsupportedSpecKey { file: f(), span: at, key: "k".to_string() },
        UsageErr::UnresolvedInclude { file: f(), span: at, path: "p".to_string() },
    ];
    for e in &errors {
        assert_eq!(e.file(), "f");
        assert_eq!(e.span(), at);
    }
    let io = UsageErr::Io { file: f(), message: "gone".to_string() };
    assert_eq!(io.file(), "f");
    assert_eq!(io.span(), Span { offset: 0, len: 0 });
    let circular = UsageErr::CircularInclude { file: f() };
    assert_eq!(circular.file(), "f");
    assert_eq!(circular.span(), Span { offset: 0, len: 0 });
}

#[test]
fn error_messages() {
    assert_eq!(fail("bogus\n").to_string(), "unsupported spec key bogus");
    assert_eq!(fail("name\n").to_string(), "missing positional argument");
    assert_eq!(fail("name 1\n").to_string(), "expected string");
    assert_eq!(fail("flag \"-f\" global=1\n").to_string(), "expected boolean");
    assert_eq!(fail("include\n").to_string(), "missing file");
    assert_eq!(fail("include file=\"x\"\n").to_string(), "unresolved include x");
    assert_eq!(
        UsageErr::Io { file: "f".to_string(), message: "gone".to_string() }.to_string(),
        "gone"
    );
    assert_eq!(
        UsageErr::CircularInclude { file: "f".to_string() }.to_string(),
        "circular include f"
    );
    assert!(!fail("name \"x\n").to_string().is_empty());
}

fn stuck(text: &str, offset: usize, len: usize) {
    assert_eq!(usage::find_stuck(text), Some(Span { offset, len }));
    match fail(text) {
        UsageErr::DocumentSyntax { file, span, message } => {
            assert_eq!(file, "tool.usage");
            assert_eq!(span, Span { offset, len });
            assert_eq!(message, "a reserved word after '(' needs more text after it");
        }
        other => panic!("unexpected: {:?}", other),
    }
}

#[test]
fn reserved_word_in_a_type_annotation_close_to_the_end_is_a_syntax_error() {
    stuck("(true)", 0, 5);
    stuck("(null)", 0, 5);
    stuck("(false)", 0, 6);
    stuck("a (true)", 2, 5);
    stuck("a k=(null)x", 4, 5);
    stuck("name \"x\"\n(false)abc", 9, 6);
    stuck("(true)\u{e9}\u{20ac}x", 0, 5);
    stuck("a (u8)1 (null)", 8, 5);
}

#[test]
fn reserved_word_in_a_type_annotation_with_text_after_it_is_reported_by_the_parser() {
    for text in ["(true)abc", "(null)abc ", "(false)abcd", "a (true)   ", "a k=(null)xyz", "(null) \u{e9}"] {
        assert_eq!(usage::find_stuck(text), None);
        match fail(text) {
            UsageErr::DocumentSyntax { file, message, .. } => {
                assert_eq!(file, "tool.usage");
                assert_ne!(message, "a reserved word after '(' needs more text after it");
            }
            other => panic!("unexpected: {:?}", other),
        }
    }
}

#[test]
fn strings_and_comments_are_stepped_over() {
    for text in [
        "about \"(true\"",
        "name \"(true)\"",
        "name \"a\\\"(null\"",
        "name \"a\\\\\" // (true)",
        "name r#\"(false)\"#",
        "name r\"(null\"",
        "name r##\"\"#(true\"##",
        "name \"x\" // (true)",
        "name \"x\" // \" (true)\n",
        "name \"x\"\n/* (null) */",
        "name \"x\"\n/* /* */ (true) */",
        "name \"x\" /* // */ // (false)",
        "name \"x\"\n// a\u{2028}// (true)",
    ] {
        assert_eq!(usage::find_stuck(text), None, "{}", text);
        assert!(Spec_old::parse_spec(text).is_ok(), "{}", text);
    }
    assert_eq!(Spec_old::parse_spec("about \"(true\"").unwrap().about, Some("(true".to_string()));
    assert_eq!(Spec_old::parse_spec("name \"a\\\"(null\"").unwrap().name, "a\"(null");
    assert_eq!(Spec_old::parse_spec("name r#\"(false)\"#").unwrap().name, "(false)");
    assert_eq!(Spec_old::parse_spec("name r##\"\"#(true\"##").unwrap().name, "\"#(true");
}

#[test]
fn unknown_key_before_a_string_that_ends_in_a_reserved_word_is_rejected_at_its_node() {
    match fail("foo \"(true\"") {
        UsageErr::UnsupportedSpecKey { file, span, key } => {
            assert_eq!(file, "tool.usage");
            assert_eq!(key, "foo");
            assert_eq!(span.offset, 0);
        }
        other => panic!("unexpected: {:?}", other),
    }
}

#[test]
fn a_longer_word_after_a_parenthesis_is_a_type() {
    for text in ["(truey)n", "(nullable)n", "(null\u{e9}\u{20ac})n", "(false-)n", "(true#)n"] {
        assert_eq!(usage::find_stuck(text), None, "{}", text);
        match fail(text) {
            UsageErr::UnsupportedSpecKey { key, .. } => assert_eq!(key, "n"),
            other => panic!("unexpected: {:?}", other),
        }
    }
    assert_eq!(usage::find_stuck("(tru"), None);
    assert_eq!(usage::find_stuck("true)"), None);
    assert_eq!(usage::find_stuck(""), None);
}

#[test]
fn plain_text_after_a_string_or_a_comment_is_scanned_again() {
    stuck("name \"x\" (true)", 9, 5);
    stuck("name \"//\" (true)", 10, 5);
    stuck("name \"/*\" (null)", 10, 5);
    stuck("// \"\n(true)", 5, 5);
    stuck("/* \" */ (false)", 8, 6);
    stuck("/* /* */ */ (null)", 12, 5);
    stuck("name r#\"a\"#\n(true)", 12, 5);
    stuck("a (true)\u{a0}", 2, 5);
    stuck("a (null)x\u{3000}", 2, 5);
    stuck("(null\u{a0}", 0, 5);
    stuck("a (true\u{2028}", 2, 5);
    stuck("a (false\u{feff}", 2, 6);
    stuck("/-(true)", 2, 5);
}

#[test]
fn a_reserved_word_in_a_string_that_does_not_end_is_reported_by_the_parser() {
    for text in ["name \"abc (true)", "name r#\"abc (true)\"", "/* (true)", "name \"x\\\" (null)"] {
        assert_eq!(usage::find_stuck(text), None, "{}", text);
        match fail(text) {
            UsageErr::DocumentSyntax { message, .. } => {
                assert_ne!(message, "a reserved word after '(' needs more text after it");
            }
            other => panic!("unexpected: {:?}", other),
        }
    }
}

#[test]
fn type_annotations_are_read() {
    let spec = Spec_old::parse_spec("(tool)name (str)\"x\"\narg \"a\" help=(text)\"h\"\n").unwrap();
    assert_eq!(spec.name, "x");
    assert_eq!(spec.cmd.args[0].help, Some("h".to_string()));
}

#[test]
fn syntax_error_carries_the_place_and_the_message_of_the_parser() {
    match fail("name \"x\"\ncmd {") {
        UsageErr::DocumentSyntax { span, message, .. } => {
            assert!(span.offset >= 9);
            assert!(!message.is_empty());
        }
        other => panic!("unexpected: {:?}", other),
    }
}

fn read_every_text(tokens: &[&str], depth: usize) -> (usize, usize) {
    let ctx = ParsingContext::new("f", "");
    let mut read = 0;
    let mut refused = 0;
    let mut stack: Vec<(String, usize)> = vec![(String::new(), 0)];
    while let Some((text, used)) = stack.pop() {
        match usage::find_stuck(&text) {
            None => {
                let _ = usage::read_nodes(&ctx, &text);
                read += 1;
            }
            Some(place) => {
                assert!(text.as_bytes()[place.offset] == b'(');
                match usage::read_nodes(&ctx, &text) {
                    Err(UsageErr::DocumentSyntax { span, .. }) => assert_eq!(span, place),
                    other => panic!("unexpected: {:?}", other),
                }
                refused += 1;
            }
        }
        if used < depth {
            for token in tokens {
                stack.push((format!("{}{}", text, token), used + 1));
            }
        }
    }
    (read, refused)
}

#[test]
fn the_parser_returns_on_every_short_text_that_the_scan_lets_through() {
    let tokens = [
        "(true)", "(null", "(false", ")", "\"", "\\", "/", "*", "-", "r", "#", "=", " ", "\n", "{",
        "}", "a", "\u{e9}", ";",
    ];
    let (read, refused) = read_every_text(&tokens, 4);
    assert_eq!(read + refused, 137_561);
    assert!(read > 50_000);
    assert!(refused > 1_000);
}

#[test]
fn the_parser_returns_on_texts_around_one_annotation() {
    let tokens = ["(true", "(null)", "a", " ", "\"", "r#\"", "\"#", "//", "/*", "*/", "/-", "\u{20ac}", "k=", "\u{2028}"];
    let (read, refused) = read_every_text(&tokens, 4);
    assert_eq!(read + refused, 41_371);
    assert!(read > 10_000);
    assert!(refused > 500);
}

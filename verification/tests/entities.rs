use usage::{choose_path, referred_file, split_script, UsageErr, Arg, Entry, Flag, Node, ParsingContext, SpecConfig, SpecDataTypes, Spec_old, Value};

#[test]
fn data_type_names() {
    assert_eq!(SpecDataTypes::from_name("null"), Some(SpecDataTypes::Null));
    assert_eq!(SpecDataTypes::from_name("string"), Some(SpecDataTypes::String));
    assert_eq!(SpecDataTypes::from_name("integer"), Some(SpecDataTypes::Integer));
    assert_eq!(SpecDataTypes::from_name("float"), Some(SpecDataTypes::Float));
    assert_eq!(SpecDataTypes::from_name("boolean"), Some(SpecDataTypes::Boolean));
    assert_eq!(SpecDataTypes::from_name("String"), None);
    assert_eq!(SpecDataTypes::from_name(""), None);
    for t in [
        SpecDataTypes::Null,
        SpecDataTypes::String,
        SpecDataTypes::Integer,
        SpecDataTypes::Float,
        SpecDataTypes::Boolean,
    ] {
        assert_eq!(SpecDataTypes::from_name(t.as_str()), Some(t));
    }
    assert_eq!(SpecDataTypes::default(), SpecDataTypes::Null);
}

#[test]
fn argument_declaration_texts() {
    let a = Arg::from_usage("<file>");
    assert_eq!(a.name, "file");
    assert!(a.required);
    let a = Arg::from_usage("[file]");
    assert_eq!(a.name, "file");
    assert!(!a.required);
    let a = Arg::from_usage("file");
    assert_eq!(a.name, "file");
    assert!(a.required);
    let a = Arg::from_usage("<");
    assert_eq!(a.name, "<");
    let a = Arg::from_usage("<>");
    assert_eq!(a.name, "");
    let a = Arg::from_usage("<x]");
    assert_eq!(a.name, "<x]");
    assert!(a.required);
    let a = Arg::from_usage("");
    assert_eq!(a.name, "");
    let a = Arg::from_usage("[héllo]");
    assert_eq!(a.name, "héllo");
    assert_eq!(a.usage(), "[héllo]");
    assert_eq!(Arg::from_usage("x").usage(), "<x>");
}

#[test]
fn argument_properties() {
    let spec = Spec_old::parse_spec(
        "arg \"<in>\" required=false help=\"h\" default=\"d\" type=\"integer\"\n",
    )
    .unwrap();
    let a = &spec.cmd.args[0];
    assert_eq!(a.name, "in");
    assert!(!a.required);
    assert_eq!(a.help, Some("h".to_string()));
    assert_eq!(a.default, Some("d".to_string()));
    assert_eq!(a.data_type, SpecDataTypes::Integer);
    assert_eq!(spec.to_string(), "arg \"[in]\" help=\"h\" default=\"d\" type=\"integer\"\n");
}

#[test]
fn a_property_given_twice_takes_the_last_value() {
    let spec = Spec_old::parse_spec("arg \"x\" help=\"one\" help=\"two\"\n").unwrap();
    assert_eq!(spec.cmd.args[0].help, Some("two".to_string()));
}

#[test]
fn flag_aliases() {
    let f = Flag::from_usage("-f,--force");
    assert_eq!(f.name, "-f,--force");
    assert_eq!(f.short, vec!['f']);
    assert_eq!(f.long, vec!["force"]);
    let f = Flag::from_usage("-v --verbose, -x ,--dry-run");
    assert_eq!(f.short, vec!['v', 'x']);
    assert_eq!(f.long, vec!["verbose", "dry-run"]);
    let f = Flag::from_usage("--file <path>");
    assert!(f.short.is_empty());
    assert_eq!(f.long, vec!["file"]);
    let f = Flag::from_usage("-- - -ab --");
    assert!(f.short.is_empty());
    assert!(f.long.is_empty());
    let f = Flag::from_usage("");
    assert!(f.short.is_empty() && f.long.is_empty());
    let f = Flag::from_usage("-é");
    assert_eq!(f.short, vec!['é']);
}

#[test]
fn flag_properties() {
    let spec = Spec_old::parse_spec(
        "flag \"-j,--jobs\" help=\"h\" required=true global=true default=\"4\" type=\"integer\"\n",
    )
    .unwrap();
    let f = &spec.cmd.flags[0];
    assert_eq!(f.help, Some("h".to_string()));
    assert!(f.required);
    assert!(f.global);
    assert_eq!(f.default, Some("4".to_string()));
    assert_eq!(f.data_type, SpecDataTypes::Integer);
    assert_eq!(
        spec.to_string(),
        "flag \"-j,--jobs\" help=\"h\" required=true global=true default=\"4\" type=\"integer\"\n"
    );
}

#[test]
fn configuration_options() {
    let spec = Spec_old::parse_spec(
        "config {\n  prop \"color\" default=\"auto\" help=\"h\" type=\"string\"\n  prop \"jobs\"\n  prop \"color\" default=\"never\"\n}\n",
    )
    .unwrap();
    assert_eq!(spec.config.props.len(), 2);
    assert_eq!(spec.config.props[0].0, "color");
    assert_eq!(spec.config.props[0].1.default, Some("never".to_string()));
    assert_eq!(spec.config.props[0].1.help, None);
    assert_eq!(spec.config.props[1].0, "jobs");
    assert_eq!(
        spec.to_string(),
        "config {\n    prop \"color\" default=\"never\"\n    prop \"jobs\"\n}\n"
    );
    assert!(SpecConfig::new().is_empty());
}

#[test]
fn a_later_config_node_replaces_the_earlier() {
    let spec = Spec_old::parse_spec(
        "config {\n  prop \"a\"\n}\nconfig {\n  prop \"b\"\n}\n",
    )
    .unwrap();
    assert_eq!(spec.config.props.len(), 1);
    assert_eq!(spec.config.props[0].0, "b");
}

#[test]
fn node_accessors() {
    let ctx = ParsingContext::new("f", "");
    let at = usage::Span { offset: 1, len: 2 };
    let entry = |name: Option<&str>, value: Value| Entry {
        name: name.map(|s| s.to_string()),
        value,
        span: at,
    };
    let node = Node {
        name: "n".to_string(),
        entries: vec![
            entry(Some("k"), Value::String("first".to_string())),
            entry(None, Value::String("zero".to_string())),
            entry(Some("k"), Value::Boolean(true)),
            entry(None, Value::Integer(7)),
        ],
        children: None,
        span: at,
    };
    assert_eq!(node.name(), "n");
    assert_eq!(node.arg(&ctx, 0).unwrap().ensure_string(&ctx).unwrap(), "zero");
    assert!(node.arg(&ctx, 1).unwrap().ensure_string(&ctx).is_err());
    assert!(node.arg(&ctx, 2).is_err());
    assert_eq!(node.first_string(&ctx).unwrap(), "zero");
    assert_eq!(node.prop("k").unwrap().ensure_bool(&ctx).unwrap(), true);
    assert!(node.prop("missing").is_none());
    assert!(node.body().is_empty());
    assert_eq!(node.arg(&ctx, 1).unwrap().ensure_i64(&ctx).unwrap(), 7);
    assert!(node.arg(&ctx, 0).unwrap().ensure_i64(&ctx).is_err());
    assert!(node.arg(&ctx, 0).unwrap().ensure_bool(&ctx).is_err());
    let props = node.props();
    assert_eq!(props.len(), 1);
    assert_eq!(props[0].name.as_deref(), Some("k"));
    assert!(matches!(props[0].value, Value::Boolean(true)));
}

#[test]
fn properties_keep_the_order_of_their_first_keys() {
    let at = usage::Span { offset: 0, len: 0 };
    let node = Node {
        name: "n".to_string(),
        entries: vec![
            Entry::text_property("b", "1".to_string()),
            Entry::argument("x".to_string()),
            Entry::text_property("a", "2".to_string()),
            Entry::text_property("b", "3".to_string()),
            Entry::bool_property("c", false),
        ],
        children: None,
        span: at,
    };
    let ctx = ParsingContext::default();
    let props = node.props();
    let keys: Vec<&str> = props.iter().map(|e| e.name.as_deref().unwrap()).collect();
    assert_eq!(keys, vec!["b", "a", "c"]);
    assert_eq!(props[0].ensure_string(&ctx).unwrap(), "3");
    assert_eq!(props[1].ensure_string(&ctx).unwrap(), "2");
    assert_eq!(node.prop("b").unwrap().ensure_string(&ctx).unwrap(), "3");
}

#[test]
fn compile_from_nodes_built_by_hand() {
    let ctx = ParsingContext::default();
    let nodes = vec![Node {
        name: "name".to_string(),
        entries: vec![Entry::argument("tool".to_string())],
        children: None,
        span: usage::Span { offset: 0, len: 0 },
    }];
    let spec = Spec_old::parse_nodes(&ctx, &nodes, vec![]).unwrap();
    assert_eq!(spec.name, "tool");
}

#[test]
fn script_files_are_split() {
    let (doc, body) = split_script("#!/usr/bin/env usage\nname \"x\"\n\n#!/bin/sh\necho hi\n");
    assert_eq!(doc, "name \"x\"");
    assert_eq!(body, "#!/bin/sh\necho hi\n");
    let (doc, body) = split_script("  \n name \"x\" \t\n");
    assert_eq!(doc, "name \"x\"");
    assert_eq!(body, "#!");
    let (doc, body) = split_script("name \"x\"\n#!a\n#!b");
    assert_eq!(doc, "name \"x\"");
    assert_eq!(body, "#!a\n#!b");
    let (doc, body) = split_script("");
    assert_eq!(doc, "");
    assert_eq!(body, "#!");
    let (doc, body) = split_script("#!/usr/bin/env usage\n");
    assert_eq!(doc, "");
    assert_eq!(body, "#!");
    let (doc, body) = split_script(" \u{a0}\u{2003}é \n#!");
    assert_eq!(doc, "é");
    assert_eq!(body, "#!");
}

#[test]
fn file_name_defaulting() {
    let (spec, body) =
        Spec_old::parse_file_text("/opt/tools/mytool.usage", "mytool.usage", "arg \"x\"\n", vec![])
            .unwrap();
    assert_eq!(spec.bin, "mytool.usage");
    assert_eq!(spec.name, "mytool.usage");
    assert_eq!(body, "#!");
    let (spec, _) =
        Spec_old::parse_file_text("mytool.usage", "mytool.usage", "bin \"mt\"\n", vec![]).unwrap();
    assert_eq!(spec.bin, "mt");
    assert_eq!(spec.name, "mt");
    let (spec, _) =
        Spec_old::parse_file_text("mytool.usage", "mytool.usage", "name \"My Tool\"\n", vec![])
            .unwrap();
    assert_eq!(spec.bin, "mytool.usage");
    assert_eq!(spec.name, "My Tool");
}

#[test]
fn script_file_with_interpreter_line_and_body() {
    let full = "#!/usr/bin/env usage\nbin \"greet\"\nflag \"-l,--loud\"\n#!/usr/bin/env bash\necho hello\n";
    let (spec, body) = Spec_old::parse_file_text("greet", "greet", full, vec![]).unwrap();
    assert_eq!(spec.bin, "greet");
    assert_eq!(spec.name, "greet");
    assert_eq!(spec.cmd.flags[0].long, vec!["loud"]);
    assert_eq!(body, "#!/usr/bin/env bash\necho hello\n");
}

#[test]
fn nodes_are_read_from_text_with_their_places() {
    let ctx = ParsingContext::new("f", "");
    let nodes = usage::read_nodes(&ctx, "a 1 k=\"v\" {\n  b true null 2.5\n}\nc\n").unwrap();
    assert_eq!(nodes.len(), 2);
    assert_eq!(nodes[0].name, "a");
    assert_eq!(nodes[0].span.offset, 0);
    assert_eq!(nodes[0].entries.len(), 2);
    assert!(matches!(nodes[0].entries[0].value, Value::Integer(1)));
    assert_eq!(nodes[0].entries[0].name, None);
    assert_eq!(nodes[0].entries[0].span.offset, 2);
    assert_eq!(nodes[0].entries[0].span.len, 1);
    assert_eq!(nodes[0].entries[1].name.as_deref(), Some("k"));
    let inner = nodes[0].children.as_ref().unwrap();
    assert_eq!(inner.len(), 1);
    assert_eq!(inner[0].name, "b");
    assert!(matches!(inner[0].entries[0].value, Value::Boolean(true)));
    assert!(matches!(inner[0].entries[1].value, Value::Null));
    assert!(matches!(inner[0].entries[2].value, Value::Float));
    assert_eq!(nodes[1].name, "c");
    assert!(nodes[1].children.is_none());
    assert!(nodes[1].entries.is_empty());
    assert!(usage::read_nodes(&ctx, "a {").is_err());
}

#[test]
fn file_name_is_taken_from_the_path() {
    let (spec, body) =
        Spec_old::parse_file_content("/opt/tools/mytool.usage", "arg \"x\"\n", vec![]).unwrap();
    assert_eq!(spec.bin, "mytool.usage");
    assert_eq!(spec.name, "mytool.usage");
    assert_eq!(body, "#!");
    let (spec, _) = Spec_old::parse_file_content("mytool.usage", "", vec![]).unwrap();
    assert_eq!(spec.bin, "mytool.usage");
    assert_eq!(spec.name, "mytool.usage");
    let (spec, _) = Spec_old::parse_file_content("..", "bin \"b\"\n", vec![]).unwrap();
    assert_eq!(spec.bin, "b");
    assert_eq!(spec.name, "b");
    match Spec_old::parse_file_content("..", "name \"n\"\n", vec![]) {
        Err(UsageErr::Io { file, message }) => {
            assert_eq!(file, "..");
            assert_eq!(message, "no file name");
        }
        other => panic!("unexpected: {:?}", other),
    }
    assert!(Spec_old::parse_file_content("x.usage", "bogus\n", vec![]).is_err());
}

#[test]
fn referred_files_are_found_from_the_directory_of_the_referring_file() {
    assert_eq!(referred_file("dir/a.usage", "b.usage").unwrap(), "dir/b.usage");
    assert_eq!(referred_file("dir/a.usage", "sub/b.usage").unwrap(), "dir/sub/b.usage");
    assert_eq!(referred_file("a.usage", "b.usage").unwrap(), "b.usage");
    assert_eq!(referred_file("dir/a.usage", "/etc/b.usage").unwrap(), "/etc/b.usage");
    match referred_file("", "b.usage") {
        Err(UsageErr::Io { file, .. }) => assert_eq!(file, "b.usage"),
        other => panic!("unexpected: {:?}", other),
    }
    assert_eq!(referred_file("", "/etc/b.usage").unwrap(), "/etc/b.usage");
}

#[test]
fn path_is_chosen_from_what_the_platform_says() {
    assert_eq!(choose_path("p", false, Some("d/p".to_string())).unwrap(), "p");
    assert_eq!(choose_path("p", false, None).unwrap(), "p");
    assert_eq!(choose_path("p", true, Some("d/p".to_string())).unwrap(), "d/p");
    match choose_path("p", true, None) {
        Err(UsageErr::Io { file, message }) => {
            assert_eq!(file, "p");
            assert_eq!(message, "no directory to look in");
        }
        other => panic!("unexpected: {:?}", other),
    }
}

#[test]
fn white_space_is_what_the_standard_library_says() {
    let listed = |c: char| {
        let code = c as u32;
        (0x09..=0x0d).contains(&code)
            || code == 0x20
            || code == 0x85
            || code == 0xa0
            || code == 0x1680
            || (0x2000..=0x200a).contains(&code)
            || code == 0x2028
            || code == 0x2029
            || code == 0x202f
            || code == 0x205f
            || code == 0x3000
    };
    for code in 0..=0x10ffffu32 {
        if let Some(c) = char::from_u32(code) {
            assert_eq!(c.is_whitespace(), listed(c), "U+{:04X}", code);
            let text = format!("{}x{}", c, c);
            let (doc, _) = split_script(&text);
            if listed(c) {
                assert_eq!(doc, "x");
            } else {
                assert_eq!(doc, text);
            }
        }
    }
}

#[test]
fn two_writings_of_one_specification_are_the_same_text() {
    let spec = Spec_old::parse_spec("name \"n\"\ncmd \"c\" {\n  arg \"a\"\n}\n").unwrap();
    assert_eq!(spec.to_string(), spec.clone().to_string());
    assert_eq!(spec.to_string(), "name \"n\"\ncmd \"c\" {\n    arg \"<a>\"\n}\n");
}

use usage::{ParsingContext, Spec_old};

#[test]
fn test_display() {
    let spec = Spec_old::parse(
        &Default::default(),
        r#"
name "Usage CLI"
bin "usage"
arg "arg1"
flag "-f,--force" global=true
cmd "config" {
  cmd "set" {
    arg "key" help="Key to set"
    arg "value"
  }
}
        "#,
    )
    .unwrap();
    let expected = r#"name "Usage CLI"
bin "usage"
flag "-f,--force" global=true
arg "<arg1>"
cmd "config" {
    cmd "set" {
        arg "<key>" help="Key to set"
        arg "<value>"
    }
}
"#;
    assert_eq!(spec.to_string(), expected);
}

#[test]
fn minimal_spec() {
    let spec = Spec_old::parse(&ParsingContext::default(), "name \"x\"\nbin \"x\"\n").unwrap();
    assert_eq!(spec.name, "x");
    assert_eq!(spec.bin, "x");
    assert!(spec.cmd.args.is_empty());
    assert!(spec.cmd.flags.is_empty());
    assert!(spec.cmd.commands.is_empty());
    assert!(spec.cmd.full_cmd.is_empty());
}

#[test]
fn nested_commands() {
    let spec = Spec_old::parse_spec(
        "cmd \"config\" {\n  cmd \"set\" {\n    arg \"key\"; arg \"value\"\n  }\n}\n",
    )
    .unwrap();
    let config = spec.cmd.find("config").unwrap();
    let set = config.find("set").unwrap();
    assert_eq!(set.full_cmd, vec!["config".to_string(), "set".to_string()]);
    assert_eq!(set.args.len(), 2);
    assert_eq!(set.args[0].name, "key");
    assert_eq!(set.args[1].name, "value");
    assert_eq!(set.usage, "set <key> <value>");
    assert_eq!(config.full_cmd, vec!["config".to_string()]);
}

fn compile(text: &str) -> Spec_old {
    Spec_old::parse_spec(text).unwrap()
}

#[test]
fn round_trip_of_a_compiled_specification() {
    let text = r#"
name "Usage CLI"
bin "usage"
version "1.2.3"
about "short"
long_about "long text"
usage "usage [flags] <cmd>"
arg "input"
arg "[output]" help="where to write" default="-" type="string"
flag "-f,--force" global=true
flag "--jobs" help="parallel jobs" required=true default="1" type="integer"
cmd "config" hide=true {
  flag "-g,--global"
  cmd "set" {
    arg "key" help="Key to set"
    arg "value"
  }
  cmd "get" {
    arg "key"
  }
}
cmd "version"
config {
  prop "color" default="auto" help="when to use colors" type="string"
  prop "jobs" type="integer"
}
"#;
    let first = compile(text);
    let written = first.to_string();
    let second = compile(&written);
    assert_eq!(second.to_string(), written);
    assert_eq!(second.name, first.name);
    assert_eq!(second.bin, first.bin);
    assert_eq!(second.version, first.version);
    assert_eq!(second.about, first.about);
    assert_eq!(second.long_about, first.long_about);
    assert_eq!(second.usage, first.usage);
    assert_eq!(format!("{:?}", second.cmd), format!("{:?}", first.cmd));
    assert_eq!(format!("{:?}", second.config), format!("{:?}", first.config));
}

#[test]
fn round_trip_leaves_the_author_out() {
    let first = compile("name \"x\"\nauthor \"someone\"\n");
    assert_eq!(first.author, Some("someone".to_string()));
    assert_eq!(first.to_string(), "name \"x\"\n");
    let second = compile(&first.to_string());
    assert_eq!(second.author, None);
    assert_eq!(second.name, "x");
}

#[test]
fn written_text_keeps_the_fixed_order_and_omits_what_is_unset() {
    let spec = compile(
        "cmd \"b\"\nusage \"u\"\narg \"a\"\nlong_about \"l\"\nflag \"-x\"\nabout \"a\"\nversion \"v\"\nbin \"b\"\nname \"n\"\n",
    );
    let expected = "name \"n\"\nbin \"b\"\nversion \"v\"\nabout \"a\"\nlong_about \"l\"\nusage \"u\"\nflag \"-x\"\narg \"<a>\"\ncmd \"b\"\n";
    assert_eq!(spec.to_string(), expected);
    assert_eq!(Spec_old::default().to_string(), "");
}

#[test]
fn to_nodes_lists_texts_then_flags_arguments_commands_and_options() {
    let spec = compile(
        "config {\n  prop \"k\"\n}\ncmd \"c\"\narg \"a\"\nflag \"-f\"\nbin \"b\"\n",
    );
    let nodes = spec.to_nodes();
    let names: Vec<&str> = nodes.iter().map(|n| n.name.as_str()).collect();
    assert_eq!(names, vec!["bin", "flag", "arg", "cmd", "config"]);
    assert_eq!(nodes[4].children.as_ref().unwrap().len(), 1);
    assert_eq!(nodes[4].children.as_ref().unwrap()[0].name, "prop");
    assert!(nodes[3].children.is_none());
}

#[test]
fn every_command_gets_the_path_of_its_ancestors() {
    let spec = compile(
        "cmd \"a\" {\n  cmd \"b\" {\n    cmd \"c\"\n  }\n  cmd \"d\"\n}\ncmd \"e\"\n",
    );
    assert!(spec.cmd.full_cmd.is_empty());
    let a = spec.cmd.find("a").unwrap();
    let b = a.find("b").unwrap();
    let c = b.find("c").unwrap();
    let d = a.find("d").unwrap();
    let e = spec.cmd.find("e").unwrap();
    assert_eq!(a.full_cmd, vec!["a"]);
    assert_eq!(b.full_cmd, vec!["a", "b"]);
    assert_eq!(c.full_cmd, vec!["a", "b", "c"]);
    assert_eq!(d.full_cmd, vec!["a", "d"]);
    assert_eq!(e.full_cmd, vec!["e"]);
    assert!(spec.cmd.find("b").is_none());
}

#[test]
fn usage_line_is_derived_from_name_flags_and_arguments() {
    let spec = compile(
        "arg \"file\"\nflag \"-v\"\ncmd \"run\" {\n  flag \"-n\"\n  arg \"task\"\n  arg \"[extra]\"\n}\ncmd \"ls\"\n",
    );
    assert_eq!(spec.cmd.usage, " [flags] <file>");
    assert_eq!(spec.cmd.find("run").unwrap().usage, "run [flags] <task> [extra]");
    assert_eq!(spec.cmd.find("ls").unwrap().usage, "ls");
    assert_eq!(spec.usage, "");
    let empty = compile("");
    assert_eq!(empty.cmd.usage, "");
}

#[test]
fn explicit_usage_node_sets_the_usage_of_the_specification() {
    let spec = compile("usage \"Usage: tool\"\narg \"x\"\n");
    assert_eq!(spec.usage, "Usage: tool");
    assert_eq!(spec.cmd.usage, " <x>");
}

#[test]
fn a_command_declared_again_replaces_the_first_in_its_place() {
    let spec = compile(
        "cmd \"a\" {\n  arg \"x\"\n}\ncmd \"b\"\ncmd \"a\" {\n  arg \"y\"\n}\n",
    );
    assert_eq!(spec.cmd.commands.len(), 2);
    let (k0, c0) = spec.cmd.commands.get_index(0).unwrap();
    let (k1, _) = spec.cmd.commands.get_index(1).unwrap();
    assert_eq!(k0, "a");
    assert_eq!(k1, "b");
    assert_eq!(c0.args.len(), 1);
    assert_eq!(c0.args[0].name, "y");
    assert!(spec.cmd.commands.get_index(2).is_none());
}

#[test]
fn hidden_command_is_read_and_written() {
    let spec = compile("cmd \"secret\" hide=true\ncmd \"open\" hide=false\n");
    assert!(spec.cmd.find("secret").unwrap().hide);
    assert!(!spec.cmd.find("open").unwrap().hide);
    assert_eq!(spec.to_string(), "cmd \"secret\" hide=true\ncmd \"open\"\n");
}

#[test]
fn is_empty_looks_at_names_usage_commands_and_options() {
    assert!(Spec_old::default().is_empty());
    assert!(compile("version \"1\"\n").is_empty());
    assert!(!compile("name \"x\"\n").is_empty());
    assert!(!compile("bin \"x\"\n").is_empty());
    assert!(!compile("usage \"x\"\n").is_empty());
    assert!(!compile("arg \"x\"\n").is_empty());
    assert!(!compile("flag \"-x\"\n").is_empty());
    assert!(!compile("cmd \"x\"\n").is_empty());
    assert!(!compile("config {\n  prop \"k\"\n}\n").is_empty());
}

#[test]
fn clone_keeps_the_command_tree() {
    let spec = compile("cmd \"a\" {\n  cmd \"b\"\n}\n");
    let copy = spec.clone();
    assert_eq!(copy.cmd.commands.len(), 1);
    assert_eq!(copy.cmd.find("a").unwrap().find("b").unwrap().full_cmd, vec!["a", "b"]);
    assert_eq!(copy.to_string(), spec.to_string());
}

#[test]
fn round_trip_through_text_of_strings_that_end_in_a_reserved_word() {
    let mut first = Spec_old::default();
    first.about = Some("(true".to_string());
    assert_eq!(first.to_string(), "about \"(true\"\n");
    let second = Spec_old::parse_spec(&first.to_string()).unwrap();
    assert_eq!(second.about, Some("(true".to_string()));
    let text = "name \"n\"\narg \"x\" help=\"on (true) or off (false)\"";
    let (spec, _) = Spec_old::parse_file_text("f", "f", text, vec![]).unwrap();
    assert_eq!(spec.cmd.args[0].help, Some("on (true) or off (false)".to_string()));
    let again = Spec_old::parse_spec(&spec.to_string()).unwrap();
    assert_eq!(again.cmd.args[0].help, spec.cmd.args[0].help);
}

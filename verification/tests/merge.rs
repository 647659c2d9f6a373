use usage::{set_subcommand_ancestors, Command, Spec_old, UsageErr};

fn compile(text: &str) -> Spec_old {
    Spec_old::parse_spec(text).unwrap()
}

#[test]
fn include_override() {
    let b = Spec_old::parse_file_text("dir/b.usage", "b.usage", "version \"2.0\"\n", vec![])
        .unwrap()
        .0;
    let a_text = "version \"1.0\"\ninclude file=\"b.usage\"\n";
    let first = Spec_old::parse_file_text("dir/a.usage", "a.usage", a_text, vec![]);
    match first {
        Err(UsageErr::UnresolvedInclude { file, path, span }) => {
            assert_eq!(file, "dir/a.usage");
            assert_eq!(path, "b.usage");
            assert_eq!(span.offset, 14);
        }
        other => panic!("unexpected: {:?}", other),
    }
    let (a, _) = Spec_old::parse_file_text("dir/a.usage", "a.usage", a_text, vec![b]).unwrap();
    assert_eq!(a.version, Some("2.0".to_string()));
}

#[test]
fn content_after_an_include_wins_over_the_included() {
    let b = compile("version \"2.0\"\nabout \"from b\"\n");
    let a = Spec_old::parse_with(
        &Default::default(),
        "include file=\"b\"\nversion \"3.0\"\n",
        vec![b],
    )
    .unwrap();
    assert_eq!(a.version, Some("3.0".to_string()));
    assert_eq!(a.about, Some("from b".to_string()));
}

#[test]
fn later_include_wins_over_earlier() {
    let b = compile("name \"b\"\nbin \"b-bin\"\n");
    let c = compile("name \"c\"\n");
    let a = Spec_old::parse_with(
        &Default::default(),
        "include file=\"b\"\ninclude file=\"c\"\n",
        vec![b, c],
    )
    .unwrap();
    assert_eq!(a.name, "c");
    assert_eq!(a.bin, "b-bin");
}

#[test]
fn included_specifications_beyond_need_are_left_unused() {
    let b = compile("name \"b\"\n");
    let a = Spec_old::parse_with(&Default::default(), "name \"a\"\n", vec![b]).unwrap();
    assert_eq!(a.name, "a");
}

#[test]
fn include_inside_a_command_takes_over_the_included_root_command() {
    let b = compile("arg \"x\"\nflag \"-q\"\ncmd \"sub\" {\n  arg \"y\"\n}\n");
    let a = Spec_old::parse_with(
        &Default::default(),
        "cmd \"tool\" {\n  arg \"first\"\n  include file=\"b\"\n}\n",
        vec![b],
    )
    .unwrap();
    let tool = a.cmd.find("tool").unwrap();
    assert_eq!(tool.args.len(), 2);
    assert_eq!(tool.args[0].name, "first");
    assert_eq!(tool.args[1].name, "x");
    assert_eq!(tool.flags.len(), 1);
    assert_eq!(tool.usage, "tool [flags] <first> <x>");
    let sub = tool.find("sub").unwrap();
    assert_eq!(sub.full_cmd, vec!["tool", "sub"]);
    assert_eq!(sub.usage, "sub <y>");
    assert!(a.cmd.args.is_empty());
}

#[test]
fn merge_precedence_on_every_text() {
    let mut a = compile(
        "name \"a\"\nbin \"a\"\nusage \"a\"\nversion \"a\"\nauthor \"a\"\nabout \"a\"\nlong_about \"a\"\n",
    );
    let b = compile(
        "name \"b\"\nbin \"b\"\nusage \"b\"\nversion \"b\"\nauthor \"b\"\nabout \"b\"\nlong_about \"b\"\n",
    );
    a.merge(b);
    assert_eq!(a.name, "b");
    assert_eq!(a.bin, "b");
    assert_eq!(a.usage, "b");
    assert_eq!(a.version, Some("b".to_string()));
    assert_eq!(a.author, Some("b".to_string()));
    assert_eq!(a.about, Some("b".to_string()));
    assert_eq!(a.long_about, Some("b".to_string()));

    let mut a = compile("name \"a\"\nversion \"a\"\n");
    a.merge(Spec_old::default());
    assert_eq!(a.name, "a");
    assert_eq!(a.version, Some("a".to_string()));
    assert_eq!(a.bin, "");
    assert_eq!(a.about, None);
}

#[test]
fn merge_appends_arguments_and_flags_and_replaces_commands_whole() {
    let mut a = compile(
        "arg \"a1\"\nflag \"-a\"\ncmd \"x\" {\n  arg \"ax\"\n  cmd \"deep\"\n}\ncmd \"y\"\n",
    );
    let b = compile("arg \"b1\"\nflag \"-b\"\ncmd \"z\"\ncmd \"x\" {\n  arg \"bx\"\n}\n");
    a.merge(b);
    let args: Vec<&str> = a.cmd.args.iter().map(|x| x.name.as_str()).collect();
    assert_eq!(args, vec!["a1", "b1"]);
    let flags: Vec<&str> = a.cmd.flags.iter().map(|x| x.name.as_str()).collect();
    assert_eq!(flags, vec!["-a", "-b"]);
    assert_eq!(a.cmd.commands.len(), 3);
    assert_eq!(a.cmd.commands.get_index(0).unwrap().0, "x");
    assert_eq!(a.cmd.commands.get_index(1).unwrap().0, "y");
    assert_eq!(a.cmd.commands.get_index(2).unwrap().0, "z");
    let x = a.cmd.find("x").unwrap();
    assert_eq!(x.args.len(), 1);
    assert_eq!(x.args[0].name, "bx");
    assert!(x.find("deep").is_none());
}

#[test]
fn merge_of_options_lets_the_incoming_one_stand() {
    let mut a = compile(
        "config {\n  prop \"color\" default=\"auto\"\n  prop \"jobs\" default=\"1\"\n}\n",
    );
    let b = compile("config {\n  prop \"jobs\" default=\"8\"\n  prop \"pager\"\n}\n");
    a.merge(b);
    let keys: Vec<&str> = a.config.props.iter().map(|p| p.0.as_str()).collect();
    assert_eq!(keys, vec!["color", "jobs", "pager"]);
    assert_eq!(a.config.props[0].1.default, Some("auto".to_string()));
    assert_eq!(a.config.props[1].1.default, Some("8".to_string()));
}

#[test]
fn command_merge_leaves_name_and_usage_of_the_base() {
    let mut base = Command::named("base".to_string());
    base.usage = "base usage".to_string();
    let mut other = Command::named("other".to_string());
    other.usage = "other usage".to_string();
    other.hide = true;
    other.commands.insert("k".to_string(), Command::named("k".to_string()));
    base.merge(other);
    assert_eq!(base.name, "base");
    assert_eq!(base.usage, "base usage");
    assert!(!base.hide);
    assert_eq!(base.commands.len(), 1);
}

#[test]
fn set_subcommand_ancestors_keeps_order_and_explicit_usage() {
    let mut root = Command::default();
    let mut a = Command::named("a".to_string());
    a.usage = "custom".to_string();
    let mut inner = Command::named("in".to_string());
    inner.full_cmd = vec!["stale".to_string()];
    a.commands.insert("in".to_string(), inner);
    root.commands.insert("a".to_string(), a);
    root.commands.insert("b".to_string(), Command::named("b".to_string()));
    root.commands.insert("c".to_string(), Command::named("c".to_string()));
    root.full_cmd = vec!["kept".to_string()];
    let above = vec!["top".to_string()];
    set_subcommand_ancestors(&mut root, &above);
    assert_eq!(root.full_cmd, vec!["kept"]);
    assert_eq!(root.usage, "");
    let keys: Vec<String> =
        (0..root.commands.len()).map(|i| root.commands.get_index(i).unwrap().0.clone()).collect();
    assert_eq!(keys, vec!["a", "b", "c"]);
    let a = root.find("a").unwrap();
    assert_eq!(a.usage, "custom");
    assert_eq!(a.full_cmd, vec!["top", "a"]);
    assert_eq!(a.find("in").unwrap().full_cmd, vec!["top", "a", "in"]);
    assert_eq!(root.find("b").unwrap().usage, "b");
}

#[test]
fn a_referred_file_gets_no_defaults_from_its_name() {
    let b = Spec_old::parse_referred_text("dir/b.usage", "#!/usr/bin/env usage\narg \"x\"\n#!/bin/sh\n", vec![])
        .unwrap();
    assert_eq!(b.name, "");
    assert_eq!(b.bin, "");
    assert_eq!(b.cmd.args.len(), 1);
    let (a, _) = Spec_old::parse_file_content(
        "dir/a.usage",
        "name \"a\"\ninclude file=\"b.usage\"\n",
        vec![b],
    )
    .unwrap();
    assert_eq!(a.name, "a");
    assert_eq!(a.bin, "a.usage");
    assert_eq!(a.cmd.args[0].name, "x");
    assert!(Spec_old::parse_referred_text("b", "bogus\n", vec![]).is_err());
}

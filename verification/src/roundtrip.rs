//! What is written out is read back: the nodes of the document that
//! declares a compiled specification compile to that specification again.
use vstd::prelude::*;
use crate::arg::{arg_nodes, lemma_first_argument, ArgModel};
use crate::command::{command_nodes, resolve_all, CommandModel};
use crate::config::ConfigModel;
use crate::error::UsageErrModel;
use crate::flag::{flag_nodes, FlagModel};
use crate::keyed::{
    inserted, inserted_all, keys_unique, lemma_inserted, lemma_inserted_all_each,
    lemma_inserted_all_fresh, lemma_inserted_all_unique, lemma_inserted_each,
};
use crate::parse::{lemma_with_nodes_keeps_root, next_referred};
use crate::node::{EntryModel, NodeModel};
use crate::parse::{kind_of, NodeKind};
use crate::spec::{filled, text_node, with_text_node, SpecModel};

verus! {

/// Each word of the vocabulary stands for its own kind of node.
pub proof fn lemma_vocabulary()
    ensures
        kind_of("name"@) == NodeKind::Name,
        kind_of("bin"@) == NodeKind::Bin,
        kind_of("version"@) == NodeKind::Version,
        kind_of("author"@) == NodeKind::Author,
        kind_of("about"@) == NodeKind::About,
        kind_of("long_about"@) == NodeKind::LongAbout,
        kind_of("usage"@) == NodeKind::Usage,
        kind_of("arg"@) == NodeKind::Arg,
        kind_of("flag"@) == NodeKind::Flag,
        kind_of("cmd"@) == NodeKind::Cmd,
        kind_of("config"@) == NodeKind::Config,
        kind_of("include"@) == NodeKind::Include,
{
    reveal_strlit("name");
    reveal_strlit("bin");
    reveal_strlit("version");
    reveal_strlit("author");
    reveal_strlit("about");
    reveal_strlit("long_about");
    reveal_strlit("usage");
    reveal_strlit("arg");
    reveal_strlit("flag");
    reveal_strlit("cmd");
    reveal_strlit("config");
    reveal_strlit("include");
    assert("name"@.len() == 4 && "name"@[0] == 'n');
    assert("bin"@.len() == 3 && "bin"@[0] == 'b');
    assert("version"@.len() == 7 && "version"@[0] == 'v');
    assert("author"@.len() == 6 && "author"@[0] == 'a');
    assert("about"@.len() == 5 && "about"@[0] == 'a');
    assert("long_about"@.len() == 10);
    assert("usage"@.len() == 5 && "usage"@[0] == 'u');
    assert("arg"@.len() == 3 && "arg"@[0] == 'a');
    assert("flag"@.len() == 4 && "flag"@[0] == 'f');
    assert("cmd"@.len() == 3 && "cmd"@[0] == 'c');
    assert("config"@.len() == 6 && "config"@[0] == 'c');
    assert("include"@.len() == 7 && "include"@[0] == 'i');
}

/// Reading a list of children is reading a front part of it and then the
/// rest.
pub proof fn lemma_command_with_nodes_concat(
    base: CommandModel,
    file: Seq<char>,
    inc: Seq<SpecModel>,
    front: Seq<NodeModel>,
    back: Seq<NodeModel>,
)
    ensures
        base.with_nodes(file, inc, front + back) == match base.with_nodes(file, inc, front) {
            Ok((c, rest)) => c.with_nodes(file, rest, back),
            Err(x) => Err(x),
        },
    decreases back.len(),
{
    if back.len() == 0 {
        assert(front + back =~= front);
    } else {
        assert((front + back).drop_last() =~= front + back.drop_last());
        assert((front + back).last() == back.last());
        lemma_command_with_nodes_concat(base, file, inc, front, back.drop_last());
    }
}

/// The nodes that declare well-formed flags are read back as those flags,
/// added to the command in order.
pub proof fn lemma_read_flag_nodes(
    base: CommandModel,
    file: Seq<char>,
    inc: Seq<SpecModel>,
    flags: Seq<FlagModel>,
)
    requires
        forall|i: int| 0 <= i < flags.len() ==> (#[trigger] flags[i]).well_formed(),
    ensures
        base.with_nodes(file, inc, flag_nodes(flags)) == Ok::<
            (CommandModel, Seq<SpecModel>),
            UsageErrModel,
        >((CommandModel { flags: base.flags + flags, ..base }, inc)),
    decreases flags.len(),
{
    let nodes = flag_nodes(flags);
    if flags.len() == 0 {
        assert(base.flags + flags =~= base.flags);
    } else {
        let front = flags.drop_last();
        assert forall|i: int| 0 <= i < front.len() implies (#[trigger] front[i]).well_formed() by {
            assert(front[i] == flags[i]);
        }
        lemma_read_flag_nodes(base, file, inc, front);
        lemma_vocabulary();
        flags.last().lemma_parse_node(file);
        assert((base.flags + front).push(flags.last()) =~= base.flags + flags);
        assert(nodes =~= flag_nodes(front).push(flags.last().node()));
        base.lemma_with_nodes_push(file, inc, flag_nodes(front), flags.last().node());
    }
}

/// The nodes that declare arguments are read back as those arguments,
/// added to the command in order.
pub proof fn lemma_read_arg_nodes(
    base: CommandModel,
    file: Seq<char>,
    inc: Seq<SpecModel>,
    args: Seq<ArgModel>,
)
    ensures
        base.with_nodes(file, inc, arg_nodes(args)) == Ok::<
            (CommandModel, Seq<SpecModel>),
            UsageErrModel,
        >((CommandModel { args: base.args + args, ..base }, inc)),
    decreases args.len(),
{
    let nodes = arg_nodes(args);
    if args.len() == 0 {
        assert(base.args + args =~= base.args);
    } else {
        let front = args.drop_last();
        lemma_read_arg_nodes(base, file, inc, front);
        lemma_vocabulary();
        args.last().lemma_parse_node(file);
        assert((base.args + front).push(args.last()) =~= base.args + args);
        assert(nodes =~= arg_nodes(front).push(args.last().node()));
        base.lemma_with_nodes_push(file, inc, arg_nodes(front), args.last().node());
    }
}

impl CommandModel {
    /// The command as a document declares it: it and the commands below it
    /// without a path and without a usage line.
    pub open spec fn declared(self) -> CommandModel
        decreases self, 1nat,
    {
        CommandModel {
            full_cmd: Seq::empty(),
            usage: Seq::empty(),
            commands: declared_all(self.commands),
            ..self
        }
    }

    /// Whether the tree below this command is as compiling leaves it, where
    /// `path` is the path of this command: every flag is well formed; no
    /// key stands twice; every subcommand stands under its own name, has as
    /// its path `path` followed by its name, has the usage line that
    /// follows from its name, arguments and flags; and the same holds
    /// below it.
    pub open spec fn tidy(self, path: Seq<Seq<char>>) -> bool
        decreases self,
    {
        &&& keys_unique(self.commands)
        &&& forall|i: int| 0 <= i < self.flags.len() ==> (#[trigger] self.flags[i]).well_formed()
        &&& forall|i: int|
            0 <= i < self.commands.len() ==> {
                let child = (#[trigger] self.commands[i]).1;
                &&& self.commands[i].0 == child.name
                &&& child.full_cmd == path.push(child.name)
                &&& child.usage == child.derived_usage()
                &&& child.tidy(path.push(child.name))
            }
    }
}

/// Subcommands as a document declares them.
pub open spec fn declared_all(children: Seq<(Seq<char>, CommandModel)>) -> Seq<
    (Seq<char>, CommandModel),
>
    decreases children, 0nat,
{
    Seq::new(
        children.len(),
        |i: int|
            if 0 <= i < children.len() {
                (children[i].0, children[i].1.declared())
            } else {
                arbitrary()
            },
    )
}

/// The `cmd` node that declares a command is read back as the command that
/// the document declares.
pub proof fn lemma_read_command_node(
    c: CommandModel,
    path: Seq<Seq<char>>,
    file: Seq<char>,
    inc: Seq<SpecModel>,
)
    requires
        c.tidy(path),
    ensures
        CommandModel::parse(file, inc, c.node()) == Ok::<
            (CommandModel, Seq<SpecModel>),
            UsageErrModel,
        >((c.declared(), inc)),
    decreases c, 2nat,
{
    reveal_strlit("hide");
    let node = c.node();
    let first = EntryModel::argument(c.name);
    let named = CommandModel::named(c.name);
    let none = Seq::<EntryModel>::empty();
    lemma_first_argument(node.entries, first);
    assert(node.first_string(file) == Ok::<Seq<char>, UsageErrModel>(c.name));
    assert(seq![first] =~= none.push(first));
    named.lemma_with_entries_push(file, none, first);
    let head = CommandModel { hide: c.hide, ..named };
    if c.hide {
        let hide = EntryModel::bool_property("hide"@, true);
        assert(node.entries =~= seq![first].push(hide));
        named.lemma_with_entries_push(file, seq![first], hide);
    }
    assert(named.with_entries(file, node.entries) == Ok::<CommandModel, UsageErrModel>(head));
    let body = c.body_nodes();
    if body.len() == 0 {
        assert(c.flags.len() == 0 && c.args.len() == 0 && c.commands.len() == 0);
        assert(c.flags =~= Seq::<FlagModel>::empty());
        assert(c.args =~= Seq::<ArgModel>::empty());
        assert(declared_all(c.commands) =~= Seq::<(Seq<char>, CommandModel)>::empty());
        assert(c.declared() == head);
    } else {
        lemma_read_body(head, c, path, file, inc);
        let all = declared_all(c.commands);
        assert forall|i: int, j: int| 0 <= i < j < all.len() implies (#[trigger] all[i]).0 != (
        #[trigger] all[j]).0 by {
            assert(c.commands[i].0 != c.commands[j].0);
        }
        lemma_inserted_all_fresh(all);
        assert(head.flags + c.flags =~= c.flags);
        assert(head.args + c.args =~= c.args);
    }
}

/// The nodes that declare what a command holds are read back as its flags,
/// its arguments and the subcommands that the document declares, added to
/// what was there.
pub proof fn lemma_read_body(
    base: CommandModel,
    c: CommandModel,
    path: Seq<Seq<char>>,
    file: Seq<char>,
    inc: Seq<SpecModel>,
)
    requires
        c.tidy(path),
    ensures
        base.with_nodes(file, inc, c.body_nodes()) == Ok::<
            (CommandModel, Seq<SpecModel>),
            UsageErrModel,
        >(
            (
                CommandModel {
                    flags: base.flags + c.flags,
                    args: base.args + c.args,
                    commands: inserted_all(base.commands, declared_all(c.commands)),
                    ..base
                },
                inc,
            ),
        ),
    decreases c, 1nat,
{
    let of_flags = flag_nodes(c.flags);
    let of_args = arg_nodes(c.args);
    let of_commands = command_nodes(c.commands);
    let b1 = CommandModel { flags: base.flags + c.flags, ..base };
    let b2 = CommandModel { args: base.args + c.args, ..b1 };
    lemma_read_flag_nodes(base, file, inc, c.flags);
    lemma_read_arg_nodes(b1, file, inc, c.args);
    lemma_read_command_nodes(b2, c.commands, path, file, inc, c.commands.len() as int);
    assert(of_commands.take(c.commands.len() as int) =~= of_commands);
    assert(declared_all(c.commands).take(c.commands.len() as int) =~= declared_all(c.commands));
    lemma_command_with_nodes_concat(base, file, inc, of_flags, of_args);
    lemma_command_with_nodes_concat(base, file, inc, of_flags + of_args, of_commands);
}

/// The nodes that declare the first `k` subcommands are read back as the
/// subcommands that the document declares, each given to its name.
pub proof fn lemma_read_command_nodes(
    base: CommandModel,
    children: Seq<(Seq<char>, CommandModel)>,
    path: Seq<Seq<char>>,
    file: Seq<char>,
    inc: Seq<SpecModel>,
    k: int,
)
    requires
        0 <= k <= children.len(),
        forall|i: int|
            0 <= i < children.len() ==> {
                let child = (#[trigger] children[i]).1;
                children[i].0 == child.name && child.tidy(path.push(child.name))
            },
    ensures
        base.with_nodes(file, inc, command_nodes(children).take(k)) == Ok::<
            (CommandModel, Seq<SpecModel>),
            UsageErrModel,
        >(
            (
                CommandModel {
                    commands: inserted_all(base.commands, declared_all(children).take(k)),
                    ..base
                },
                inc,
            ),
        ),
    decreases children, k,
{
    let nodes = command_nodes(children);
    let all = declared_all(children);
    if k == 0 {
        assert(nodes.take(0) =~= Seq::<NodeModel>::empty());
        assert(all.take(0) =~= Seq::<(Seq<char>, CommandModel)>::empty());
    } else {
        lemma_read_command_nodes(base, children, path, file, inc, k - 1);
        let child = children[k - 1].1;
        lemma_read_command_node(child, path.push(child.name), file, inc);
        lemma_vocabulary();
        let mid = CommandModel { commands: inserted_all(base.commands, all.take(k - 1)), ..base };
        assert(nodes.take(k) =~= nodes.take(k - 1).push(child.node()));
        base.lemma_with_nodes_push(file, inc, nodes.take(k - 1), child.node());
        assert(child.node().name == "cmd"@);
        assert(kind_of(child.node().name) == NodeKind::Cmd);
        assert(all.take(k).drop_last() =~= all.take(k - 1));
        assert(all.take(k).last() == (children[k - 1].0, child.declared()));
        assert(child.declared().name == child.name);
        assert(mid.with_node(file, inc, child.node()) == Ok::<
            (CommandModel, Seq<SpecModel>),
            UsageErrModel,
        >(
            (
                CommandModel {
                    commands: inserted(mid.commands, child.name, child.declared()),
                    ..mid
                },
                inc,
            ),
        ));
    }
}

/// Annotating what a document declares of a tidy tree gives the tree back.
pub proof fn lemma_resolve_declared(c: CommandModel, path: Seq<Seq<char>>)
    requires
        c.tidy(path),
    ensures
        resolve_all(declared_all(c.commands), path) == c.commands,
        c.declared().resolve(path) == (CommandModel {
            full_cmd: Seq::empty(),
            usage: c.derived_usage(),
            ..c
        }),
    decreases c,
{
    let all = declared_all(c.commands);
    let out = resolve_all(all, path);
    assert forall|i: int| 0 <= i < c.commands.len() implies out[i] == c.commands[i] by {
        let child = c.commands[i].1;
        let p = path.push(child.name);
        lemma_resolve_declared(child, p);
        assert(all[i] == (c.commands[i].0, child.declared()));
        assert(child.declared().name == child.name);
        assert(child.declared().derived_usage() == child.derived_usage());
    }
    assert(out =~= c.commands);
    assert(c.declared().derived_usage() == c.derived_usage());
}

/// Reading a list of nodes is reading a front part of it and then the rest.
pub proof fn lemma_spec_with_nodes_concat(
    base: SpecModel,
    file: Seq<char>,
    inc: Seq<SpecModel>,
    front: Seq<NodeModel>,
    back: Seq<NodeModel>,
)
    ensures
        base.with_nodes(file, inc, front + back) == match base.with_nodes(file, inc, front) {
            Ok((s, rest)) => s.with_nodes(file, rest, back),
            Err(x) => Err(x),
        },
    decreases back.len(),
{
    if back.len() == 0 {
        assert(front + back =~= front);
    } else {
        assert((front + back).drop_last() =~= front + back.drop_last());
        assert((front + back).last() == back.last());
        lemma_spec_with_nodes_concat(base, file, inc, front, back.drop_last());
    }
}

/// Nodes that declare arguments, flags and subcommands are read at the top
/// level of a document as the root command reads them.
pub proof fn lemma_spec_reads_as_root(
    base: SpecModel,
    file: Seq<char>,
    inc: Seq<SpecModel>,
    nodes: Seq<NodeModel>,
)
    requires
        forall|i: int|
            0 <= i < nodes.len() ==> {
                let kind = kind_of((#[trigger] nodes[i]).name);
                kind == NodeKind::Arg || kind == NodeKind::Flag || kind == NodeKind::Cmd
            },
    ensures
        base.with_nodes(file, inc, nodes) == match base.cmd.with_nodes(file, inc, nodes) {
            Ok((c, rest)) => Ok::<(SpecModel, Seq<SpecModel>), UsageErrModel>(
                (SpecModel { cmd: c, ..base }, rest),
            ),
            Err(x) => Err(x),
        },
    decreases nodes.len(),
{
    if nodes.len() > 0 {
        let front = nodes.drop_last();
        assert forall|i: int| 0 <= i < front.len() implies {
            let kind = kind_of((#[trigger] front[i]).name);
            kind == NodeKind::Arg || kind == NodeKind::Flag || kind == NodeKind::Cmd
        } by {
            assert(front[i] == nodes[i]);
        }
        lemma_spec_reads_as_root(base, file, inc, front);
        assert(nodes[nodes.len() - 1] == nodes.last());
    }
}

/// The node that sets a text gives that text as its first argument.
pub proof fn lemma_text_node(name: Seq<char>, text: Seq<char>, file: Seq<char>)
    ensures
        text_node(name, text).first_string(file) == Ok::<Seq<char>, UsageErrModel>(text),
{
    let first = EntryModel::argument(text);
    lemma_first_argument(text_node(name, text).entries, first);
}

/// The nodes that set the texts of a specification are read back as those
/// texts.
pub proof fn lemma_read_head_nodes(s: SpecModel, file: Seq<char>, inc: Seq<SpecModel>)
    ensures
        SpecModel::empty().with_nodes(file, inc, s.head_nodes()) == Ok::<
            (SpecModel, Seq<SpecModel>),
            UsageErrModel,
        >(
            (
                SpecModel {
                    name: s.name,
                    bin: s.bin,
                    version: s.version,
                    about: s.about,
                    long_about: s.long_about,
                    usage: s.usage,
                    ..SpecModel::empty()
                },
                inc,
            ),
        ),
{
    lemma_vocabulary();
    let base = SpecModel::empty();
    let none = Seq::<NodeModel>::empty();
    let n0 = with_text_node(none, "name"@, filled(s.name));
    let n1 = with_text_node(n0, "bin"@, filled(s.bin));
    let n2 = with_text_node(n1, "version"@, s.version);
    let n3 = with_text_node(n2, "about"@, s.about);
    let n4 = with_text_node(n3, "long_about"@, s.long_about);
    let n5 = with_text_node(n4, "usage"@, filled(s.usage));
    let s0 = SpecModel { name: s.name, ..base };
    let s1 = SpecModel { bin: s.bin, ..s0 };
    let s2 = SpecModel { version: s.version, ..s1 };
    let s3 = SpecModel { about: s.about, ..s2 };
    let s4 = SpecModel { long_about: s.long_about, ..s3 };
    let s5 = SpecModel { usage: s.usage, ..s4 };
    if s.name.len() > 0 {
        lemma_text_node("name"@, s.name, file);
        base.lemma_with_nodes_push(file, inc, none, text_node("name"@, s.name));
    } else {
        assert(s.name =~= Seq::<char>::empty());
    }
    assert(base.with_nodes(file, inc, n0) == Ok::<(SpecModel, Seq<SpecModel>), UsageErrModel>(
        (s0, inc),
    ));
    if s.bin.len() > 0 {
        lemma_text_node("bin"@, s.bin, file);
        base.lemma_with_nodes_push(file, inc, n0, text_node("bin"@, s.bin));
    } else {
        assert(s.bin =~= Seq::<char>::empty());
    }
    assert(base.with_nodes(file, inc, n1) == Ok::<(SpecModel, Seq<SpecModel>), UsageErrModel>(
        (s1, inc),
    ));
    if let Some(t) = s.version {
        lemma_text_node("version"@, t, file);
        base.lemma_with_nodes_push(file, inc, n1, text_node("version"@, t));
    }
    assert(base.with_nodes(file, inc, n2) == Ok::<(SpecModel, Seq<SpecModel>), UsageErrModel>(
        (s2, inc),
    ));
    if let Some(t) = s.about {
        lemma_text_node("about"@, t, file);
        base.lemma_with_nodes_push(file, inc, n2, text_node("about"@, t));
    }
    assert(base.with_nodes(file, inc, n3) == Ok::<(SpecModel, Seq<SpecModel>), UsageErrModel>(
        (s3, inc),
    ));
    if let Some(t) = s.long_about {
        lemma_text_node("long_about"@, t, file);
        base.lemma_with_nodes_push(file, inc, n3, text_node("long_about"@, t));
    }
    assert(base.with_nodes(file, inc, n4) == Ok::<(SpecModel, Seq<SpecModel>), UsageErrModel>(
        (s4, inc),
    ));
    if s.usage.len() > 0 {
        lemma_text_node("usage"@, s.usage, file);
        base.lemma_with_nodes_push(file, inc, n4, text_node("usage"@, s.usage));
    } else {
        assert(s.usage =~= Seq::<char>::empty());
    }
    assert(base.with_nodes(file, inc, n5) == Ok::<(SpecModel, Seq<SpecModel>), UsageErrModel>(
        (s5, inc),
    ));
}

/// Whether a subcommand is as reading leaves it: it stands under its own
/// name, has no usage line or the one that follows from its name, arguments
/// and flags, and the tree below it is assembled.
pub open spec fn child_assembled(e: (Seq<char>, CommandModel)) -> bool
    decreases e,
{
    &&& e.0 == e.1.name
    &&& (e.1.usage.len() == 0 || e.1.usage == e.1.derived_usage())
    &&& e.1.assembled()
}

impl CommandModel {
    /// Whether the tree below this command is as reading leaves it, before
    /// it is annotated: every flag is well formed, no key stands twice, and
    /// every subcommand is as reading leaves it.
    pub open spec fn assembled(self) -> bool
        decreases self,
    {
        &&& keys_unique(self.commands)
        &&& forall|i: int| 0 <= i < self.flags.len() ==> (#[trigger] self.flags[i]).well_formed()
        &&& forall|i: int|
            0 <= i < self.commands.len() ==> child_assembled(#[trigger] self.commands[i])
    }

    /// A tidy tree is assembled.
    pub proof fn lemma_tidy_assembled(self, path: Seq<Seq<char>>)
        requires
            self.tidy(path),
        ensures
            self.assembled(),
        decreases self,
    {
        assert forall|i: int| 0 <= i < self.commands.len() implies child_assembled(
            #[trigger] self.commands[i],
        ) by {
            let child = self.commands[i].1;
            child.lemma_tidy_assembled(path.push(child.name));
        }
    }

    /// Annotating an assembled tree leaves it tidy.
    pub proof fn lemma_resolve_tidy(self, path: Seq<Seq<char>>)
        requires
            self.assembled(),
        ensures
            self.resolve(path).tidy(path),
            self.resolve(path).usage == if self.usage.len() == 0 {
                self.derived_usage()
            } else {
                self.usage
            },
            self.resolve(path).derived_usage() == self.derived_usage(),
        decreases self,
    {
        let out = self.resolve(path);
        assert forall|i: int, j: int| 0 <= i < j < out.commands.len() implies (
        #[trigger] out.commands[i]).0 != (#[trigger] out.commands[j]).0 by {
            assert(self.commands[i].0 != self.commands[j].0);
        }
        assert forall|i: int| 0 <= i < out.commands.len() implies {
            let child = (#[trigger] out.commands[i]).1;
            &&& out.commands[i].0 == child.name
            &&& child.full_cmd == path.push(child.name)
            &&& child.usage == child.derived_usage()
            &&& child.tidy(path.push(child.name))
        } by {
            let before = self.commands[i].1;
            assert(child_assembled(self.commands[i]));
            let p = path.push(before.name);
            before.lemma_resolve_tidy(p);
            let done = before.resolve(p);
            let placed = CommandModel { full_cmd: p, ..done };
            assert(out.commands[i].1 == placed);
            assert(placed.commands == done.commands);
            assert(placed.flags == done.flags);
            assert(done.tidy(p));
            assert(placed.tidy(p));
            assert(placed.derived_usage() == done.derived_usage());
        }
    }

    /// Taking over an assembled tree leaves an assembled tree assembled.
    pub proof fn lemma_merge_assembled(self, other: CommandModel)
        requires
            self.assembled(),
            other.assembled(),
        ensures
            self.merge(other).assembled(),
    {
        let out = self.merge(other);
        lemma_inserted_all_unique(self.commands, other.commands);
        lemma_inserted_all_each(
            self.commands,
            other.commands,
            |e: (Seq<char>, CommandModel)| child_assembled(e),
        );
        assert forall|i: int| 0 <= i < out.flags.len() implies (
        #[trigger] out.flags[i]).well_formed() by {
            if i < self.flags.len() {
                assert(out.flags[i] == self.flags[i]);
            } else {
                assert(out.flags[i] == other.flags[i - self.flags.len()]);
            }
        }
    }

    /// Reading entries changes nothing but whether the command is hidden.
    pub proof fn lemma_with_entries_keeps(self, file: Seq<char>, entries: Seq<EntryModel>)
        ensures
            match self.with_entries(file, entries) {
                Ok(c) => c == (CommandModel { hide: c.hide, ..self }),
                Err(_) => true,
            },
        decreases entries.len(),
    {
        if entries.len() > 0 {
            self.lemma_with_entries_keeps(file, entries.drop_last());
        }
    }
}

/// Whether each of the specifications handed in is as compiling leaves it,
/// as far as reading relies on it.
pub open spec fn all_assembled(inc: Seq<SpecModel>) -> bool {
    forall|i: int|
        0 <= i < inc.len() ==> (#[trigger] inc[i]).cmd.assembled() && inc[i].config.well_formed()
}

/// A compiled specification is assembled.
pub proof fn lemma_compiled_assembled(inc: Seq<SpecModel>)
    requires
        forall|i: int| 0 <= i < inc.len() ==> (#[trigger] inc[i]).compiled(),
    ensures
        all_assembled(inc),
{
    assert forall|i: int| 0 <= i < inc.len() implies (#[trigger] inc[i]).cmd.assembled()
        && inc[i].config.well_formed() by {
        inc[i].cmd.lemma_tidy_assembled(Seq::empty());
    }
}

/// Reading a child leaves an assembled command assembled.
pub proof fn lemma_with_node_assembled(
    base: CommandModel,
    file: Seq<char>,
    inc: Seq<SpecModel>,
    node: NodeModel,
)
    requires
        base.assembled(),
        all_assembled(inc),
    ensures
        match base.with_node(file, inc, node) {
            Ok((c, rest)) => c.assembled() && all_assembled(rest) && c.name == base.name && c.usage
                == base.usage,
            Err(_) => true,
        },
    decreases node, 1nat,
{
    match kind_of(node.name) {
        NodeKind::Arg => {},
        NodeKind::Flag => {
            FlagModel::lemma_parse_well_formed(file, node);
            if let Ok(f) = FlagModel::parse(file, node) {
                let out = base.flags.push(f);
                assert forall|i: int| 0 <= i < out.len() implies (#[trigger] out[i]).well_formed() by {
                    if i < base.flags.len() {
                        assert(out[i] == base.flags[i]);
                    }
                }
            }
        },
        NodeKind::Cmd => {
            lemma_parse_assembled(file, inc, node);
            if let Ok((c, rest)) = CommandModel::parse(file, inc, node) {
                lemma_inserted(base.commands, c.name, c);
                lemma_inserted_each(
                    base.commands,
                    c.name,
                    c,
                    |e: (Seq<char>, CommandModel)| child_assembled(e),
                );
            }
        },
        NodeKind::Include => {
            if let Ok((other, rest)) = next_referred(file, node, inc) {
                assert(other == inc[0]);
                assert forall|i: int| 0 <= i < rest.len() implies (
                #[trigger] rest[i]).cmd.assembled() && rest[i].config.well_formed() by {
                    assert(rest[i] == inc[i + 1]);
                }
                base.lemma_merge_assembled(other.cmd);
            }
        },
        _ => {},
    }
}

/// Reading children leaves an assembled command assembled.
pub proof fn lemma_with_nodes_assembled(
    base: CommandModel,
    file: Seq<char>,
    inc: Seq<SpecModel>,
    nodes: Seq<NodeModel>,
)
    requires
        base.assembled(),
        all_assembled(inc),
    ensures
        match base.with_nodes(file, inc, nodes) {
            Ok((c, rest)) => c.assembled() && all_assembled(rest) && c.name == base.name && c.usage
                == base.usage,
            Err(_) => true,
        },
    decreases nodes, 2nat,
{
    if nodes.len() > 0 {
        lemma_with_nodes_assembled(base, file, inc, nodes.drop_last());
        if let Ok((c, rest)) = base.with_nodes(file, inc, nodes.drop_last()) {
            lemma_with_node_assembled(c, file, rest, nodes.last());
        }
    }
}

/// A command that was read from a node is assembled, has the name that the
/// node gives and no usage line.
pub proof fn lemma_parse_assembled(file: Seq<char>, inc: Seq<SpecModel>, node: NodeModel)
    requires
        all_assembled(inc),
    ensures
        match CommandModel::parse(file, inc, node) {
            Ok((c, rest)) => c.assembled() && all_assembled(rest) && c.usage.len() == 0,
            Err(_) => true,
        },
    decreases node, 0nat,
{
    if let Ok(name) = node.first_string(file) {
        let named = CommandModel::named(name);
        named.lemma_with_entries_keeps(file, node.entries);
        if let Ok(c) = named.with_entries(file, node.entries) {
            assert(c.assembled());
            if let Some(children) = node.children {
                lemma_with_nodes_assembled(c, file, inc, children);
            }
        }
    }
}

/// Reading a node leaves a specification with an assembled command tree,
/// and with options whose keys differ, as it is in these respects.
pub proof fn lemma_spec_with_nodes_assembled(
    base: SpecModel,
    file: Seq<char>,
    inc: Seq<SpecModel>,
    nodes: Seq<NodeModel>,
)
    requires
        base.cmd.assembled(),
        base.config.well_formed(),
        all_assembled(inc),
    ensures
        match base.with_nodes(file, inc, nodes) {
            Ok((s, rest)) => s.cmd.assembled() && s.config.well_formed() && all_assembled(rest),
            Err(_) => true,
        },
    decreases nodes.len(),
{
    if nodes.len() > 0 {
        lemma_spec_with_nodes_assembled(base, file, inc, nodes.drop_last());
        if let Ok((s, rest)) = base.with_nodes(file, inc, nodes.drop_last()) {
            let node = nodes.last();
            match kind_of(node.name) {
                NodeKind::Arg | NodeKind::Flag | NodeKind::Cmd => {
                    lemma_with_node_assembled(s.cmd, file, rest, node);
                },
                NodeKind::Config => {
                    ConfigModel::empty().lemma_with_nodes_well_formed(file, node.body());
                },
                NodeKind::Include => {
                    if let Ok((other, left)) = next_referred(file, node, rest) {
                        assert(other == rest[0]);
                        assert forall|i: int| 0 <= i < left.len() implies (
                        #[trigger] left[i]).cmd.assembled() && left[i].config.well_formed() by {
                            assert(left[i] == rest[i + 1]);
                        }
                        s.cmd.lemma_merge_assembled(other.cmd);
                        lemma_inserted_all_unique(s.config.props, other.config.props);
                    }
                },
                _ => {},
            }
        }
    }
}

/// Compiling leaves a specification compiled: where each specification
/// handed in is compiled, so is the result.
pub proof fn lemma_parse_compiled(file: Seq<char>, nodes: Seq<NodeModel>, inc: Seq<SpecModel>)
    requires
        forall|i: int| 0 <= i < inc.len() ==> (#[trigger] inc[i]).compiled(),
    ensures
        match SpecModel::parse(file, nodes, inc) {
            Ok(s) => s.compiled(),
            Err(_) => true,
        },
{
    let base = SpecModel::empty();
    lemma_compiled_assembled(inc);
    lemma_spec_with_nodes_assembled(base, file, inc, nodes);
    lemma_with_nodes_keeps_root(base, file, inc, nodes);
    if let Ok((s, _)) = base.with_nodes(file, inc, nodes) {
        s.cmd.lemma_resolve_tidy(Seq::empty());
    }
}

impl SpecModel {
    /// Whether the specification is as compiling leaves it: the root
    /// command has no name, is not hidden, has the empty path and the usage
    /// line that follows from its arguments and flags; the tree below it is
    /// tidy; and no key stands twice among the configuration options.
    pub open spec fn compiled(self) -> bool {
        &&& self.cmd.name.len() == 0
        &&& !self.cmd.hide
        &&& self.cmd.full_cmd.len() == 0
        &&& self.cmd.usage == self.cmd.derived_usage()
        &&& self.cmd.tidy(Seq::empty())
        &&& self.config.well_formed()
    }

    /// What is written out is read back. The nodes of the document that
    /// declares a compiled specification compile to that specification
    /// again, but for the author, which no node declares.
    pub proof fn lemma_round_trip(self, file: Seq<char>)
        requires
            self.compiled(),
        ensures
            SpecModel::parse(file, self.nodes(), Seq::empty()) == Ok::<SpecModel, UsageErrModel>(
                SpecModel { author: None, ..self },
            ),
    {
        lemma_vocabulary();
        let inc = Seq::<SpecModel>::empty();
        let base = SpecModel::empty();
        let head = self.head_nodes();
        let body = self.cmd.body_nodes();
        let tail = self.config_nodes();
        let path = Seq::<Seq<char>>::empty();
        let s0 = SpecModel {
            name: self.name,
            bin: self.bin,
            version: self.version,
            about: self.about,
            long_about: self.long_about,
            usage: self.usage,
            ..base
        };
        lemma_read_head_nodes(self, file, inc);
        // the flags, the arguments and the subcommands
        let of_flags = flag_nodes(self.cmd.flags);
        let of_args = arg_nodes(self.cmd.args);
        let of_commands = command_nodes(self.cmd.commands);
        assert forall|i: int| 0 <= i < body.len() implies {
            let kind = kind_of((#[trigger] body[i]).name);
            kind == NodeKind::Arg || kind == NodeKind::Flag || kind == NodeKind::Cmd
        } by {
            if i < of_flags.len() {
                assert(body[i] == self.cmd.flags[i].node());
            } else if i < of_flags.len() + of_args.len() {
                assert(body[i] == self.cmd.args[i - of_flags.len()].node());
            } else {
                assert(body[i] == self.cmd.commands[i - of_flags.len() - of_args.len()].1.node());
            }
        }
        lemma_spec_reads_as_root(s0, file, inc, body);
        lemma_read_body(s0.cmd, self.cmd, path, file, inc);
        let all = declared_all(self.cmd.commands);
        assert forall|i: int, j: int| 0 <= i < j < all.len() implies (#[trigger] all[i]).0 != (
        #[trigger] all[j]).0 by {
            assert(self.cmd.commands[i].0 != self.cmd.commands[j].0);
        }
        lemma_inserted_all_fresh(all);
        assert(s0.cmd.flags + self.cmd.flags =~= self.cmd.flags);
        assert(s0.cmd.args + self.cmd.args =~= self.cmd.args);
        assert(self.cmd.name =~= Seq::<char>::empty());
        assert(self.cmd.full_cmd =~= Seq::<Seq<char>>::empty());
        let s1 = SpecModel { cmd: self.cmd.declared(), ..s0 };
        assert(s0.with_nodes(file, inc, body) == Ok::<(SpecModel, Seq<SpecModel>), UsageErrModel>(
            (s1, inc),
        ));
        // the configuration options
        let s2 = SpecModel { config: self.config, ..s1 };
        if self.config.is_empty() {
            assert(self.config.props =~= Seq::empty());
        } else {
            self.config.lemma_parse_node(file);
            s1.lemma_with_nodes_push(file, inc, Seq::empty(), self.config.node());
            assert(tail =~= Seq::<NodeModel>::empty().push(self.config.node()));
        }
        assert(s1.with_nodes(file, inc, tail) == Ok::<(SpecModel, Seq<SpecModel>), UsageErrModel>(
            (s2, inc),
        ));
        lemma_spec_with_nodes_concat(base, file, inc, head, body);
        lemma_spec_with_nodes_concat(base, file, inc, head + body, tail);
        // the annotation
        lemma_resolve_declared(self.cmd, path);
    }
}

} // verus!

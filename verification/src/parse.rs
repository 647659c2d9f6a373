//! The compiler: from the nodes of a document to the specification that
//! they declare.
//!
//! The nodes are read in order, and each is handled by its name. A document
//! may refer to other documents; their compiled specifications are handed
//! in, in the order in which the document refers to them, and each is taken
//! over where its reference stands. When the whole tree stands, every
//! command in it is given its path and its usage line.
use vstd::prelude::*;
use crate::arg::{args_view, Arg, ArgModel};
use crate::command::{set_subcommand_ancestors, Command, CommandModel};
use crate::config::{ConfigModel, SpecConfig};
use crate::context::ParsingContext;
use crate::document::{document_of, read_nodes, syntax_error};
use crate::error::{UsageErr, UsageErrModel};
use crate::flag::{flags_view, Flag, FlagModel};
use crate::keyed::inserted;
use crate::node::{entries_view, nodes_view, result_view, Entry, EntryModel, Node, NodeModel};
use crate::roundtrip::lemma_parse_compiled;
use crate::spec::{specs_view, SpecModel, Spec_old};
use crate::text::{str_eq, strings_view};

verus! {

/// What a node is, by its name.
#[derive(Debug, Clone, Copy, PartialEq, Eq, Structural)]
pub enum NodeKind {
    Name,
    Bin,
    Version,
    Author,
    About,
    LongAbout,
    Usage,
    Arg,
    Flag,
    Cmd,
    Config,
    Include,
    Unknown,
}

/// The kind of node that a name stands for.
pub open spec fn kind_of(name: Seq<char>) -> NodeKind {
    if name == "name"@ {
        NodeKind::Name
    } else if name == "bin"@ {
        NodeKind::Bin
    } else if name == "version"@ {
        NodeKind::Version
    } else if name == "author"@ {
        NodeKind::Author
    } else if name == "about"@ {
        NodeKind::About
    } else if name == "long_about"@ {
        NodeKind::LongAbout
    } else if name == "usage"@ {
        NodeKind::Usage
    } else if name == "arg"@ {
        NodeKind::Arg
    } else if name == "flag"@ {
        NodeKind::Flag
    } else if name == "cmd"@ {
        NodeKind::Cmd
    } else if name == "config"@ {
        NodeKind::Config
    } else if name == "include"@ {
        NodeKind::Include
    } else {
        NodeKind::Unknown
    }
}

/// The kind of node that a name stands for.
pub fn classify(name: &str) -> (r: NodeKind)
    ensures
        r == kind_of(name@),
{
    if str_eq(name, "name") {
        NodeKind::Name
    } else if str_eq(name, "bin") {
        NodeKind::Bin
    } else if str_eq(name, "version") {
        NodeKind::Version
    } else if str_eq(name, "author") {
        NodeKind::Author
    } else if str_eq(name, "about") {
        NodeKind::About
    } else if str_eq(name, "long_about") {
        NodeKind::LongAbout
    } else if str_eq(name, "usage") {
        NodeKind::Usage
    } else if str_eq(name, "arg") {
        NodeKind::Arg
    } else if str_eq(name, "flag") {
        NodeKind::Flag
    } else if str_eq(name, "cmd") {
        NodeKind::Cmd
    } else if str_eq(name, "config") {
        NodeKind::Config
    } else if str_eq(name, "include") {
        NodeKind::Include
    } else {
        NodeKind::Unknown
    }
}

/// The error for a node whose name is outside the vocabulary of its place.
pub open spec fn unsupported(file: Seq<char>, node: NodeModel) -> UsageErrModel {
    UsageErrModel::UnsupportedSpecKey { file, span: node.span, key: node.name }
}

/// The path of the document that a node refers to: the text of its
/// property `file`. A node without that property lacks it, which is
/// reported at the node.
pub open spec fn referred_path(file: Seq<char>, node: NodeModel) -> Result<
    Seq<char>,
    UsageErrModel,
> {
    match node.prop("file"@) {
        Some(e) => e.as_string(file),
        None => Err(UsageErrModel::MissingProperty { file, span: node.span, key: "file"@ }),
    }
}

/// The next specification that was handed in, and those after it. Where
/// none is left, the document that the node refers to is unresolved, which
/// is reported at the node with the path that it gives.
pub open spec fn next_referred(file: Seq<char>, node: NodeModel, inc: Seq<SpecModel>) -> Result<
    (SpecModel, Seq<SpecModel>),
    UsageErrModel,
> {
    match referred_path(file, node) {
        Ok(path) => if inc.len() == 0 {
            Err(UsageErrModel::UnresolvedInclude { file, span: node.span, path })
        } else {
            Ok((inc.first(), inc.drop_first()))
        },
        Err(x) => Err(x),
    }
}

impl CommandModel {
    /// The command of a given name that holds nothing.
    pub open spec fn named(name: Seq<char>) -> CommandModel {
        CommandModel { name, ..CommandModel::empty() }
    }

    /// The command after one entry of its node was read. An argument of
    /// the node changes nothing; the property `hide` sets whether the
    /// command is hidden; any other key is outside the vocabulary.
    pub open spec fn with_entry(self, file: Seq<char>, e: EntryModel) -> Result<
        CommandModel,
        UsageErrModel,
    > {
        match e.name {
            None => Ok(self),
            Some(key) => if key == "hide"@ {
                match e.as_bool(file) {
                    Ok(b) => Ok(CommandModel { hide: b, ..self }),
                    Err(x) => Err(x),
                }
            } else {
                Err(UsageErrModel::UnsupportedSpecKey { file, span: e.span, key })
            },
        }
    }

    /// The command after the entries were read in order; the first error
    /// ends the reading.
    pub open spec fn with_entries(self, file: Seq<char>, entries: Seq<EntryModel>) -> Result<
        CommandModel,
        UsageErrModel,
    >
        decreases entries.len(),
    {
        if entries.len() == 0 {
            Ok(self)
        } else {
            match self.with_entries(file, entries.drop_last()) {
                Ok(c) => c.with_entry(file, entries.last()),
                Err(x) => Err(x),
            }
        }
    }

    /// The command after one child of its node was read, and the
    /// specifications that are left of those handed in.
    ///
    /// An `arg` or a `flag` node adds what it declares; a `cmd` node gives
    /// its name the subcommand that it declares; a reference to another
    /// document makes the command take over the root command of the next
    /// specification handed in. A node of any other name is outside the
    /// vocabulary of a command.
    pub open spec fn with_node(self, file: Seq<char>, inc: Seq<SpecModel>, node: NodeModel) -> Result<
        (CommandModel, Seq<SpecModel>),
        UsageErrModel,
    >
        decreases node, 1nat,
    {
        match kind_of(node.name) {
            NodeKind::Arg => match ArgModel::parse(file, node) {
                Ok(a) => Ok((CommandModel { args: self.args.push(a), ..self }, inc)),
                Err(x) => Err(x),
            },
            NodeKind::Flag => match FlagModel::parse(file, node) {
                Ok(f) => Ok((CommandModel { flags: self.flags.push(f), ..self }, inc)),
                Err(x) => Err(x),
            },
            NodeKind::Cmd => match CommandModel::parse(file, inc, node) {
                Ok((c, rest)) => Ok(
                    (CommandModel { commands: inserted(self.commands, c.name, c), ..self }, rest),
                ),
                Err(x) => Err(x),
            },
            NodeKind::Include => match next_referred(file, node, inc) {
                Ok((other, rest)) => Ok((self.merge(other.cmd), rest)),
                Err(x) => Err(x),
            },
            _ => Err(unsupported(file, node)),
        }
    }

    /// The command after the children were read in order; the first error
    /// ends the reading.
    pub open spec fn with_nodes(
        self,
        file: Seq<char>,
        inc: Seq<SpecModel>,
        nodes: Seq<NodeModel>,
    ) -> Result<(CommandModel, Seq<SpecModel>), UsageErrModel>
        decreases nodes, 2nat,
    {
        if nodes.len() == 0 {
            Ok((self, inc))
        } else {
            match self.with_nodes(file, inc, nodes.drop_last()) {
                Ok((c, rest)) => c.with_node(file, rest, nodes.last()),
                Err(x) => Err(x),
            }
        }
    }

    /// The command that a `cmd` node declares, and the specifications that
    /// are left of those handed in. The first argument of the node is the
    /// name of the command; then its properties are read, then its
    /// children.
    pub open spec fn parse(file: Seq<char>, inc: Seq<SpecModel>, node: NodeModel) -> Result<
        (CommandModel, Seq<SpecModel>),
        UsageErrModel,
    >
        decreases node, 0nat,
    {
        match node.first_string(file) {
            Ok(name) => match CommandModel::named(name).with_entries(file, node.entries) {
                Ok(c) => match node.children {
                    Some(children) => c.with_nodes(file, inc, children),
                    None => Ok((c, inc)),
                },
                Err(x) => Err(x),
            },
            Err(x) => Err(x),
        }
    }

    /// Reading one more entry is one more step.
    pub proof fn lemma_with_entries_push(
        self,
        file: Seq<char>,
        entries: Seq<EntryModel>,
        e: EntryModel,
    )
        ensures
            self.with_entries(file, entries.push(e)) == match self.with_entries(file, entries) {
                Ok(c) => c.with_entry(file, e),
                Err(x) => Err(x),
            },
    {
        assert(entries.push(e).drop_last() =~= entries);
        assert(entries.push(e).last() == e);
    }

    /// An error in reading a front part of the entries is the error of
    /// reading them all.
    pub proof fn lemma_with_entries_stops(self, file: Seq<char>, entries: Seq<EntryModel>, k: int)
        requires
            0 <= k <= entries.len(),
            self.with_entries(file, entries.take(k)) is Err,
        ensures
            self.with_entries(file, entries) == self.with_entries(file, entries.take(k)),
        decreases entries.len() - k,
    {
        if k == entries.len() {
            assert(entries.take(k) =~= entries);
        } else {
            assert(entries.take(k + 1) =~= entries.take(k).push(entries[k]));
            self.lemma_with_entries_push(file, entries.take(k), entries[k]);
            self.lemma_with_entries_stops(file, entries, k + 1);
        }
    }

    /// Reading one more child is one more step.
    pub proof fn lemma_with_nodes_push(
        self,
        file: Seq<char>,
        inc: Seq<SpecModel>,
        nodes: Seq<NodeModel>,
        n: NodeModel,
    )
        ensures
            self.with_nodes(file, inc, nodes.push(n)) == match self.with_nodes(file, inc, nodes) {
                Ok((c, rest)) => c.with_node(file, rest, n),
                Err(x) => Err(x),
            },
    {
        assert(nodes.push(n).drop_last() =~= nodes);
        assert(nodes.push(n).last() == n);
    }

    /// An error in reading a front part of the children is the error of
    /// reading them all.
    pub proof fn lemma_with_nodes_stops(
        self,
        file: Seq<char>,
        inc: Seq<SpecModel>,
        nodes: Seq<NodeModel>,
        k: int,
    )
        requires
            0 <= k <= nodes.len(),
            self.with_nodes(file, inc, nodes.take(k)) is Err,
        ensures
            self.with_nodes(file, inc, nodes) == self.with_nodes(file, inc, nodes.take(k)),
        decreases nodes.len() - k,
    {
        if k == nodes.len() {
            assert(nodes.take(k) =~= nodes);
        } else {
            assert(nodes.take(k + 1) =~= nodes.take(k).push(nodes[k]));
            self.lemma_with_nodes_push(file, inc, nodes.take(k), nodes[k]);
            self.lemma_with_nodes_stops(file, inc, nodes, k + 1);
        }
    }
}

impl SpecModel {
    /// Whether the command tree is annotated: the root command has the
    /// empty path, every command below it has as its path the names of the
    /// commands from the root's subcommand down to itself, and every
    /// command that has a name, an argument or a flag has a usage line.
    pub open spec fn annotated(self) -> bool {
        &&& self.cmd.full_cmd == Seq::<Seq<char>>::empty()
        &&& self.cmd.paths_from(Seq::empty())
        &&& self.cmd.usage_settled()
    }

    /// The specification after one node of the document was read, and the
    /// specifications that are left of those handed in.
    ///
    /// A node that sets a text sets it to its first argument. An `arg`, a
    /// `flag` or a `cmd` node adds to the root command what it declares. A
    /// `config` node replaces the configuration options. A reference to
    /// another document makes the specification take over the next one
    /// handed in. A node of any other name is outside the vocabulary.
    pub open spec fn with_node(self, file: Seq<char>, inc: Seq<SpecModel>, node: NodeModel) -> Result<
        (SpecModel, Seq<SpecModel>),
        UsageErrModel,
    > {
        match kind_of(node.name) {
            NodeKind::Name => match node.first_string(file) {
                Ok(s) => Ok((SpecModel { name: s, ..self }, inc)),
                Err(x) => Err(x),
            },
            NodeKind::Bin => match node.first_string(file) {
                Ok(s) => Ok((SpecModel { bin: s, ..self }, inc)),
                Err(x) => Err(x),
            },
            NodeKind::Version => match node.first_string(file) {
                Ok(s) => Ok((SpecModel { version: Some(s), ..self }, inc)),
                Err(x) => Err(x),
            },
            NodeKind::Author => match node.first_string(file) {
                Ok(s) => Ok((SpecModel { author: Some(s), ..self }, inc)),
                Err(x) => Err(x),
            },
            NodeKind::About => match node.first_string(file) {
                Ok(s) => Ok((SpecModel { about: Some(s), ..self }, inc)),
                Err(x) => Err(x),
            },
            NodeKind::LongAbout => match node.first_string(file) {
                Ok(s) => Ok((SpecModel { long_about: Some(s), ..self }, inc)),
                Err(x) => Err(x),
            },
            NodeKind::Usage => match node.first_string(file) {
                Ok(s) => Ok((SpecModel { usage: s, ..self }, inc)),
                Err(x) => Err(x),
            },
            NodeKind::Arg | NodeKind::Flag | NodeKind::Cmd => match self.cmd.with_node(
                file,
                inc,
                node,
            ) {
                Ok((c, rest)) => Ok((SpecModel { cmd: c, ..self }, rest)),
                Err(x) => Err(x),
            },
            NodeKind::Config => match ConfigModel::parse(file, node) {
                Ok(c) => Ok((SpecModel { config: c, ..self }, inc)),
                Err(x) => Err(x),
            },
            NodeKind::Include => match next_referred(file, node, inc) {
                Ok((other, rest)) => Ok((self.merge(other), rest)),
                Err(x) => Err(x),
            },
            NodeKind::Unknown => Err(unsupported(file, node)),
        }
    }

    /// The specification after the nodes were read in order; the first
    /// error ends the reading.
    pub open spec fn with_nodes(
        self,
        file: Seq<char>,
        inc: Seq<SpecModel>,
        nodes: Seq<NodeModel>,
    ) -> Result<(SpecModel, Seq<SpecModel>), UsageErrModel>
        decreases nodes.len(),
    {
        if nodes.len() == 0 {
            Ok((self, inc))
        } else {
            match self.with_nodes(file, inc, nodes.drop_last()) {
                Ok((s, rest)) => s.with_node(file, rest, nodes.last()),
                Err(x) => Err(x),
            }
        }
    }

    /// The specification that the nodes of a document declare, given the
    /// compiled specifications `inc` of the documents that it refers to:
    /// the nodes are read in order from nothing, and then the command tree
    /// is annotated from the root down.
    pub open spec fn parse(file: Seq<char>, nodes: Seq<NodeModel>, inc: Seq<SpecModel>) -> Result<
        SpecModel,
        UsageErrModel,
    > {
        match SpecModel::empty().with_nodes(file, inc, nodes) {
            Ok((s, _)) => Ok(SpecModel { cmd: s.cmd.resolve(Seq::empty()), ..s }),
            Err(x) => Err(x),
        }
    }

    /// The specification that the text of a document declares, given the
    /// compiled specifications `inc` of the documents that it refers to: a
    /// text that is no document is a syntax error in `file`, and the nodes
    /// of one are compiled as `parse` says.
    pub open spec fn compile(file: Seq<char>, text: Seq<char>, inc: Seq<SpecModel>) -> Result<
        SpecModel,
        UsageErrModel,
    > {
        match document_of(text) {
            Ok(nodes) => SpecModel::parse(file, nodes, inc),
            Err(found) => Err(syntax_error(file, found)),
        }
    }

    /// Reading one more node is one more step.
    pub proof fn lemma_with_nodes_push(
        self,
        file: Seq<char>,
        inc: Seq<SpecModel>,
        nodes: Seq<NodeModel>,
        n: NodeModel,
    )
        ensures
            self.with_nodes(file, inc, nodes.push(n)) == match self.with_nodes(file, inc, nodes) {
                Ok((s, rest)) => s.with_node(file, rest, n),
                Err(x) => Err(x),
            },
    {
        assert(nodes.push(n).drop_last() =~= nodes);
        assert(nodes.push(n).last() == n);
    }

    /// An error in reading a front part of the nodes is the error of
    /// reading them all.
    pub proof fn lemma_with_nodes_stops(
        self,
        file: Seq<char>,
        inc: Seq<SpecModel>,
        nodes: Seq<NodeModel>,
        k: int,
    )
        requires
            0 <= k <= nodes.len(),
            self.with_nodes(file, inc, nodes.take(k)) is Err,
        ensures
            self.with_nodes(file, inc, nodes) == self.with_nodes(file, inc, nodes.take(k)),
        decreases nodes.len() - k,
    {
        if k == nodes.len() {
            assert(nodes.take(k) =~= nodes);
        } else {
            assert(nodes.take(k + 1) =~= nodes.take(k).push(nodes[k]));
            self.lemma_with_nodes_push(file, inc, nodes.take(k), nodes[k]);
            self.lemma_with_nodes_stops(file, inc, nodes, k + 1);
        }
    }
}

/// Reading nodes leaves the root command its name, its path, its usage line
/// and whether it is hidden: a document sets none of them.
pub proof fn lemma_with_nodes_keeps_root(
    base: SpecModel,
    file: Seq<char>,
    inc: Seq<SpecModel>,
    nodes: Seq<NodeModel>,
)
    ensures
        match base.with_nodes(file, inc, nodes) {
            Ok((s, _)) => s.cmd.name == base.cmd.name && s.cmd.hide == base.cmd.hide
                && s.cmd.full_cmd == base.cmd.full_cmd && s.cmd.usage == base.cmd.usage,
            Err(_) => true,
        },
    decreases nodes.len(),
{
    if nodes.len() > 0 {
        lemma_with_nodes_keeps_root(base, file, inc, nodes.drop_last());
    }
}

/// In a specification that was compiled, the root command has the empty
/// path, every command below it has as its path the names of the commands
/// from the root's subcommand down to itself, and every command that has a
/// name, an argument or a flag has a usage line.
pub proof fn lemma_parse_annotated(file: Seq<char>, nodes: Seq<NodeModel>, inc: Seq<SpecModel>)
    ensures
        match SpecModel::parse(file, nodes, inc) {
            Ok(s) => s.annotated(),
            Err(_) => true,
        },
{
    lemma_with_nodes_keeps_root(SpecModel::empty(), file, inc, nodes);
    if let Ok((s, _)) = SpecModel::empty().with_nodes(file, inc, nodes) {
        s.cmd.lemma_resolve_paths(Seq::empty());
        s.cmd.lemma_resolve_usage_settled(Seq::empty());
    }
}

/// A document with a node of unknown name at its top level is rejected:
/// compiling it fails, and where the nodes before that node are read
/// without error, the error is `UnsupportedSpecKey` at the place of that
/// node, with its name.
pub proof fn lemma_unknown_key_rejected(
    file: Seq<char>,
    nodes: Seq<NodeModel>,
    inc: Seq<SpecModel>,
    k: int,
)
    requires
        0 <= k < nodes.len(),
        kind_of(nodes[k].name) == NodeKind::Unknown,
    ensures
        SpecModel::parse(file, nodes, inc) is Err,
        SpecModel::empty().with_nodes(file, inc, nodes.take(k)) is Ok ==> SpecModel::parse(
            file,
            nodes,
            inc,
        ) == Err::<SpecModel, UsageErrModel>(
            UsageErrModel::UnsupportedSpecKey { file, span: nodes[k].span, key: nodes[k].name },
        ),
{
    let base = SpecModel::empty();
    assert(nodes.take(k + 1) =~= nodes.take(k).push(nodes[k]));
    base.lemma_with_nodes_push(file, inc, nodes.take(k), nodes[k]);
    base.lemma_with_nodes_stops(file, inc, nodes, k + 1);
}

/// Whether each of the specifications handed in is as compiling leaves it.
pub open spec fn all_compiled(inc: Seq<SpecModel>) -> bool {
    forall|i: int| 0 <= i < inc.len() ==> (#[trigger] inc[i]).compiled()
}

/// What the outcome of a step stands for: the value and the specifications
/// that are left, or the error.
pub open spec fn step_view<T: View>(r: Result<T, UsageErr>, rest: Seq<Spec_old>) -> Result<
    (T::V, Seq<SpecModel>),
    UsageErrModel,
> {
    match r {
        Ok(v) => Ok((v@, specs_view(rest))),
        Err(x) => Err(x@),
    }
}

/// Reads the path of the document that a node refers to.
fn read_referred_path(ctx: &ParsingContext, node: &Node) -> (r: Result<String, UsageErr>)
    ensures
        result_view(r) == referred_path(ctx.file@, node@),
{
    match node.prop("file") {
        Some(e) => e.ensure_string(ctx),
        None => Err(
            UsageErr::MissingProperty {
                file: ctx.file.clone(),
                span: node.span,
                key: "file".to_owned(),
            },
        ),
    }
}

/// Takes the next specification that was handed in.
fn take_referred(ctx: &ParsingContext, node: &Node, included: &mut Vec<Spec_old>) -> (r: Result<
    Spec_old,
    UsageErr,
>)
    ensures
        step_view(r, final(included)@) == next_referred(
            ctx.file@,
            node@,
            specs_view(old(included)@),
        ),
{
    match read_referred_path(ctx, node) {
        Ok(path) => {
            if included.len() == 0 {
                Err(UsageErr::UnresolvedInclude { file: ctx.file.clone(), span: node.span, path })
            } else {
                let ghost before = included@;
                let other = included.remove(0);
                proof {
                    assert(specs_view(included@) =~= specs_view(before).drop_first());
                }
                Ok(other)
            }
        },
        Err(x) => Err(x),
    }
}

/// The error for a node whose name is outside the vocabulary of its place.
fn unsupported_node(ctx: &ParsingContext, node: &Node) -> (r: UsageErr)
    ensures
        r@ == unsupported(ctx.file@, node@),
{
    UsageErr::UnsupportedSpecKey {
        file: ctx.file.clone(),
        span: node.span,
        key: node.name.clone(),
    }
}

impl Command {
    /// The command of a given name that holds nothing.
    pub fn named(name: String) -> (r: Command)
        ensures
            r@ == CommandModel::named(name@),
    {
        let mut c = Command::default();
        c.name = name;
        c
    }

    /// The command after one entry of its node was read.
    pub fn with_entry(self, ctx: &ParsingContext, e: &Entry) -> (r: Result<Command, UsageErr>)
        ensures
            result_view(r) == self@.with_entry(ctx.file@, e@),
    {
        let mut cmd = self;
        match &e.name {
            None => Ok(cmd),
            Some(key) => {
                if str_eq(key.as_str(), "hide") {
                    match e.ensure_bool(ctx) {
                        Ok(b) => {
                            cmd.hide = b;
                            Ok(cmd)
                        },
                        Err(x) => Err(x),
                    }
                } else {
                    Err(
                        UsageErr::UnsupportedSpecKey {
                            file: ctx.file.clone(),
                            span: e.span,
                            key: key.clone(),
                        },
                    )
                }
            },
        }
    }

    /// The command after one child of its node was read. A reference to
    /// another document takes the first of `included`, which is then left
    /// with the others.
    pub fn with_node(self, ctx: &ParsingContext, node: &Node, included: &mut Vec<Spec_old>) -> (r:
        Result<Command, UsageErr>)
        ensures
            step_view(r, final(included)@) == self@.with_node(
                ctx.file@,
                specs_view(old(included)@),
                node@,
            ),
        decreases node@, 1nat,
    {
        let mut cmd = self;
        match classify(node.name()) {
            NodeKind::Arg => match Arg::parse(ctx, node) {
                Ok(a) => {
                    proof {
                        assert(args_view(cmd.args@.push(a)) =~= args_view(cmd.args@).push(a@));
                    }
                    cmd.args.push(a);
                    Ok(cmd)
                },
                Err(x) => Err(x),
            },
            NodeKind::Flag => match Flag::parse(ctx, node) {
                Ok(f) => {
                    proof {
                        assert(flags_view(cmd.flags@.push(f)) =~= flags_view(cmd.flags@).push(f@));
                    }
                    cmd.flags.push(f);
                    Ok(cmd)
                },
                Err(x) => Err(x),
            },
            NodeKind::Cmd => match Command::parse(ctx, node, included) {
                Ok(c) => {
                    cmd.commands.insert(c.name.clone(), c);
                    Ok(cmd)
                },
                Err(x) => Err(x),
            },
            NodeKind::Include => match take_referred(ctx, node, included) {
                Ok(other) => {
                    cmd.merge(other.cmd);
                    Ok(cmd)
                },
                Err(x) => Err(x),
            },
            _ => Err(unsupported_node(ctx, node)),
        }
    }

    /// Reads the command that a `cmd` node declares.
    ///
    /// The first argument of the node is the name of the command; its
    /// property `hide` says whether the command is hidden; its children
    /// declare arguments, flags and subcommands, or refer to other
    /// documents, whose specifications are taken from the front of
    /// `included` in the order of the references.
    pub fn parse(ctx: &ParsingContext, node: &Node, included: &mut Vec<Spec_old>) -> (r: Result<
        Command,
        UsageErr,
    >)
        ensures
            step_view(r, final(included)@) == CommandModel::parse(
                ctx.file@,
                specs_view(old(included)@),
                node@,
            ),
        decreases node@, 0nat,
    {
        let name = match node.first_string(ctx) {
            Ok(name) => name,
            Err(x) => {
                return Err(x);
            },
        };
        let mut cmd = Command::named(name);
        let ghost named = cmd@;
        let ghost all = entries_view(node.entries@);
        let mut k: usize = 0;
        proof {
            assert(all.take(0) =~= Seq::<EntryModel>::empty());
        }
        while k < node.entries.len()
            invariant
                k <= node.entries.len(),
                all == node@.entries,
                node@.first_string(ctx.file@) == Ok::<Seq<char>, UsageErrModel>(name@),
                named == CommandModel::named(name@),
                named.with_entries(ctx.file@, all.take(k as int)) == Ok::<
                    CommandModel,
                    UsageErrModel,
                >(cmd@),
                included@ == old(included)@,
            decreases node.entries.len() - k,
        {
            proof {
                assert(all.take(k + 1) =~= all.take(k as int).push(all[k as int]));
                named.lemma_with_entries_push(ctx.file@, all.take(k as int), all[k as int]);
            }
            cmd = match cmd.with_entry(ctx, &node.entries[k]) {
                Ok(c) => c,
                Err(x) => {
                    proof {
                        named.lemma_with_entries_stops(ctx.file@, all, k + 1);
                    }
                    return Err(x);
                },
            };
            k = k + 1;
        }
        proof {
            assert(all.take(k as int) =~= all);
        }
        let ghost head = cmd@;
        let ghost inc = specs_view(included@);
        match &node.children {
            None => Ok(cmd),
            Some(children) => {
                let ghost below = nodes_view(children@);
                let mut i: usize = 0;
                proof {
                    assert(below.take(0) =~= Seq::<NodeModel>::empty());
                    assert(node@.children == Some(below));
                }
                while i < children.len()
                    invariant
                        i <= children.len(),
                        below == nodes_view(children@),
                        node@.children == Some(below),
                        node@.first_string(ctx.file@) == Ok::<Seq<char>, UsageErrModel>(name@),
                        CommandModel::named(name@).with_entries(ctx.file@, node@.entries) == Ok::<
                            CommandModel,
                            UsageErrModel,
                        >(head),
                        inc == specs_view(old(included)@),
                        head.with_nodes(ctx.file@, inc, below.take(i as int)) == Ok::<
                            (CommandModel, Seq<SpecModel>),
                            UsageErrModel,
                        >((cmd@, specs_view(included@))),
                    decreases children.len() - i,
                {
                    proof {
                        assert(below.take(i + 1) =~= below.take(i as int).push(below[i as int]));
                        head.lemma_with_nodes_push(
                            ctx.file@,
                            inc,
                            below.take(i as int),
                            below[i as int],
                        );
                        assert(below[i as int] == children[i as int]@);
                        assert(decreases_to!(node@ => node@.children));
                        assert(decreases_to!(node@.children => node@.children->0));
                        assert(decreases_to!(below => below[i as int]));
                    }
                    cmd = match cmd.with_node(ctx, &children[i], included) {
                        Ok(c) => c,
                        Err(x) => {
                            proof {
                                head.lemma_with_nodes_stops(ctx.file@, inc, below, i + 1);
                            }
                            return Err(x);
                        },
                    };
                    i = i + 1;
                }
                proof {
                    assert(below.take(i as int) =~= below);
                }
                Ok(cmd)
            },
        }
    }
}

impl Spec_old {
    /// The specification after one node of the document was read. A
    /// reference to another document takes the first of `included`, which
    /// is then left with the others.
    pub fn with_node(self, ctx: &ParsingContext, node: &Node, included: &mut Vec<Spec_old>) -> (r:
        Result<Spec_old, UsageErr>)
        ensures
            step_view(r, final(included)@) == self@.with_node(
                ctx.file@,
                specs_view(old(included)@),
                node@,
            ),
    {
        let mut spec = self;
        match classify(node.name()) {
            NodeKind::Name => match node.first_string(ctx) {
                Ok(s) => {
                    spec.name = s;
                    Ok(spec)
                },
                Err(x) => Err(x),
            },
            NodeKind::Bin => match node.first_string(ctx) {
                Ok(s) => {
                    spec.bin = s;
                    Ok(spec)
                },
                Err(x) => Err(x),
            },
            NodeKind::Version => match node.first_string(ctx) {
                Ok(s) => {
                    spec.version = Some(s);
                    Ok(spec)
                },
                Err(x) => Err(x),
            },
            NodeKind::Author => match node.first_string(ctx) {
                Ok(s) => {
                    spec.author = Some(s);
                    Ok(spec)
                },
                Err(x) => Err(x),
            },
            NodeKind::About => match node.first_string(ctx) {
                Ok(s) => {
                    spec.about = Some(s);
                    Ok(spec)
                },
                Err(x) => Err(x),
            },
            NodeKind::LongAbout => match node.first_string(ctx) {
                Ok(s) => {
                    spec.long_about = Some(s);
                    Ok(spec)
                },
                Err(x) => Err(x),
            },
            NodeKind::Usage => match node.first_string(ctx) {
                Ok(s) => {
                    spec.usage = s;
                    Ok(spec)
                },
                Err(x) => Err(x),
            },
            NodeKind::Arg | NodeKind::Flag | NodeKind::Cmd => {
                let Spec_old { name, bin, cmd, config, version, author, usage, about, long_about } =
                    spec;
                match cmd.with_node(ctx, node, included) {
                    Ok(cmd) => Ok(
                        Spec_old { name, bin, cmd, config, version, author, usage, about, long_about },
                    ),
                    Err(x) => Err(x),
                }
            },
            NodeKind::Config => match SpecConfig::parse(ctx, node) {
                Ok(c) => {
                    spec.config = c;
                    Ok(spec)
                },
                Err(x) => Err(x),
            },
            NodeKind::Include => match take_referred(ctx, node, included) {
                Ok(other) => {
                    spec.merge(other);
                    Ok(spec)
                },
                Err(x) => Err(x),
            },
            NodeKind::Unknown => Err(unsupported_node(ctx, node)),
        }
    }

    /// Compiles the nodes of a document.
    ///
    /// `included` holds the compiled specifications of the documents that
    /// this one refers to, in the order of the references. Where the
    /// document refers to more documents than were handed in, the result is
    /// the error `UnresolvedInclude` with the path of the first that is
    /// missing; any that are handed in beyond need are left unused.
    pub fn parse_nodes(ctx: &ParsingContext, nodes: &[Node], included: Vec<Spec_old>) -> (r: Result<
        Spec_old,
        UsageErr,
    >)
        ensures
            result_view(r) == SpecModel::parse(
                ctx.file@,
                nodes_view(nodes@),
                specs_view(included@),
            ),
            r is Ok ==> r->Ok_0@.annotated(),
            all_compiled(specs_view(included@)) && r is Ok ==> r->Ok_0@.compiled(),
    {
        proof {
            lemma_parse_annotated(ctx.file@, nodes_view(nodes@), specs_view(included@));
            if all_compiled(specs_view(included@)) {
                lemma_parse_compiled(ctx.file@, nodes_view(nodes@), specs_view(included@));
            }
        }
        let mut rest = included;
        let ghost inc = specs_view(included@);
        let ghost all = nodes_view(nodes@);
        let ghost base = SpecModel::empty();
        let mut spec = Spec_old::default();
        let mut k: usize = 0;
        proof {
            assert(all.take(0) =~= Seq::<NodeModel>::empty());
        }
        while k < nodes.len()
            invariant
                k <= nodes.len(),
                all == nodes_view(nodes@),
                base == SpecModel::empty(),
                inc == specs_view(included@),
                base.with_nodes(ctx.file@, inc, all.take(k as int)) == Ok::<
                    (SpecModel, Seq<SpecModel>),
                    UsageErrModel,
                >((spec@, specs_view(rest@))),
            decreases nodes.len() - k,
        {
            proof {
                assert(all.take(k + 1) =~= all.take(k as int).push(all[k as int]));
                base.lemma_with_nodes_push(ctx.file@, inc, all.take(k as int), all[k as int]);
                assert(all[k as int] == nodes[k as int]@);
            }
            spec = match spec.with_node(ctx, &nodes[k], &mut rest) {
                Ok(s) => s,
                Err(x) => {
                    proof {
                        base.lemma_with_nodes_stops(ctx.file@, inc, all, k + 1);
                    }
                    return Err(x);
                },
            };
            k = k + 1;
        }
        proof {
            assert(all.take(k as int) =~= all);
        }
        let root: Vec<String> = Vec::new();
        proof {
            assert(strings_view(root@) =~= Seq::<Seq<char>>::empty());
        }
        set_subcommand_ancestors(&mut spec.cmd, root.as_slice());
        Ok(spec)
    }

    /// Compiles the text of a document, given the compiled specifications
    /// of the documents that it refers to.
    ///
    /// A text that is no document is a syntax error in `ctx`'s file, with
    /// the place and the message that reading it gives. Of a text that is
    /// one, the result is that of `parse_nodes` on its nodes.
    pub fn parse_with(ctx: &ParsingContext, input: &str, included: Vec<Spec_old>) -> (r: Result<
        Spec_old,
        UsageErr,
    >)
        ensures
            result_view(r) == SpecModel::compile(ctx.file@, input@, specs_view(included@)),
            r is Ok ==> r->Ok_0@.annotated(),
            all_compiled(specs_view(included@)) && r is Ok ==> r->Ok_0@.compiled(),
    {
        match read_nodes(ctx, input) {
            Ok(nodes) => Spec_old::parse_nodes(ctx, nodes.as_slice(), included),
            Err(x) => Err(x),
        }
    }

    /// Compiles the text of a document that refers to no other document.
    /// A reference in it is the error `UnresolvedInclude`.
    pub fn parse(ctx: &ParsingContext, input: &str) -> (r: Result<Spec_old, UsageErr>)
        ensures
            result_view(r) == SpecModel::compile(ctx.file@, input@, Seq::empty()),
            r is Ok ==> r->Ok_0@.annotated() && r->Ok_0@.compiled(),
    {
        let none: Vec<Spec_old> = Vec::new();
        proof {
            assert(specs_view(none@) =~= Seq::<SpecModel>::empty());
        }
        Spec_old::parse_with(ctx, input, none)
    }

    /// Compiles the text of a document that came from no file and refers
    /// to no other document.
    pub fn parse_spec(input: &str) -> (r: Result<Spec_old, UsageErr>)
        ensures
            result_view(r) == SpecModel::compile(Seq::empty(), input@, Seq::empty()),
            r is Ok ==> r->Ok_0@.annotated() && r->Ok_0@.compiled(),
    {
        let ctx = ParsingContext::default();
        Spec_old::parse(&ctx, input)
    }
}

} // verus!

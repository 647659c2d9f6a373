//! The compiled specification of a tool: what a document says of the tool
//! as a whole, the tree of its commands, and its configuration options.
use vstd::prelude::*;
use crate::command::{Command, CommandModel};
use crate::config::{ConfigModel, SpecConfig};
use crate::error::Span;
use crate::keyed::{
    keys_unique, latest, lemma_latest_unique, lemma_value_of_inserted_all, value_of,
};
use crate::node::{entries_view, nodes_view, Entry, EntryModel, Node, NodeModel};
use crate::text::option_view;

verus! {

/// The compiled specification of a tool.
///
/// `cmd` is the root of the command tree: it holds the arguments, flags and
/// subcommands that the document declares at its top level.
#[derive(Debug, Clone)]
pub struct Spec_old {
    pub name: String,
    pub bin: String,
    pub cmd: Command,
    pub config: SpecConfig,
    pub version: Option<String>,
    pub author: Option<String>,
    pub usage: String,
    pub about: Option<String>,
    pub long_about: Option<String>,
}

/// What a `Spec_old` stands for.
pub struct SpecModel {
    pub name: Seq<char>,
    pub bin: Seq<char>,
    pub cmd: CommandModel,
    pub config: ConfigModel,
    pub version: Option<Seq<char>>,
    pub author: Option<Seq<char>>,
    pub usage: Seq<char>,
    pub about: Option<Seq<char>>,
    pub long_about: Option<Seq<char>>,
}

impl View for Spec_old {
    type V = SpecModel;

    open spec fn view(&self) -> SpecModel {
        SpecModel {
            name: self.name@,
            bin: self.bin@,
            cmd: self.cmd@,
            config: self.config@,
            version: option_view(self.version),
            author: option_view(self.author),
            usage: self.usage@,
            about: option_view(self.about),
            long_about: option_view(self.long_about),
        }
    }
}

/// What a list of specifications stands for.
pub open spec fn specs_view(specs: Seq<Spec_old>) -> Seq<SpecModel> {
    specs.map_values(|s: Spec_old| s@)
}

/// A text where the second one is empty, else the second one.
pub open spec fn later_text(base: Seq<char>, incoming: Seq<char>) -> Seq<char> {
    if incoming.len() > 0 {
        incoming
    } else {
        base
    }
}

/// A value where the second one is absent, else the second one.
pub open spec fn later_value(base: Option<Seq<char>>, incoming: Option<Seq<char>>) -> Option<
    Seq<char>,
> {
    if incoming is Some {
        incoming
    } else {
        base
    }
}

/// The node that sets a text: its name, and the text as its one argument.
pub open spec fn text_node(name: Seq<char>, text: Seq<char>) -> NodeModel {
    NodeModel {
        name,
        entries: seq![EntryModel::argument(text)],
        children: None,
        span: Span::zero(),
    }
}

/// `nodes`, followed by the node that sets `text` where there is one.
pub open spec fn with_text_node(nodes: Seq<NodeModel>, name: Seq<char>, text: Option<Seq<char>>) -> Seq<
    NodeModel,
> {
    match text {
        Some(t) => nodes.push(text_node(name, t)),
        None => nodes,
    }
}

/// A text that is not empty, or nothing.
pub open spec fn filled(text: Seq<char>) -> Option<Seq<char>> {
    if text.len() > 0 {
        Some(text)
    } else {
        None
    }
}

impl SpecModel {
    /// The specification that says nothing.
    pub open spec fn empty() -> SpecModel {
        SpecModel {
            name: Seq::empty(),
            bin: Seq::empty(),
            cmd: CommandModel::empty(),
            config: ConfigModel::empty(),
            version: None,
            author: None,
            usage: Seq::empty(),
            about: None,
            long_about: None,
        }
    }

    /// Whether the specification names no tool and declares nothing.
    pub open spec fn is_empty(self) -> bool {
        &&& self.name.len() == 0
        &&& self.bin.len() == 0
        &&& self.usage.len() == 0
        &&& self.cmd.is_empty()
        &&& self.config.is_empty()
    }

    /// This specification after it took over `other`. What `other` sets
    /// stands; what it leaves unset stays as it was. A text is set where it
    /// is not empty, an optional value where it is present. The options of
    /// `other` are given to their keys one by one, and its command tree is
    /// taken over by the root command.
    pub open spec fn merge(self, other: SpecModel) -> SpecModel {
        SpecModel {
            name: later_text(self.name, other.name),
            bin: later_text(self.bin, other.bin),
            cmd: self.cmd.merge(other.cmd),
            config: self.config.merge(other.config),
            version: later_value(self.version, other.version),
            author: later_value(self.author, other.author),
            usage: later_text(self.usage, other.usage),
            about: later_value(self.about, other.about),
            long_about: later_value(self.long_about, other.long_about),
        }
    }

    /// Of two merged specifications the incoming one wins wherever it sets
    /// something, and the base stands wherever it does not.
    ///
    /// A text of the result is that of `other` where `other` has one, else
    /// that of `self`; so is each optional value. Under every key, the
    /// result has the option, and the subcommand, that `other` gave the key
    /// last, else the one that `self` has, else none. The arguments and the
    /// flags of the result's root command are those of `self` followed by
    /// those of `other`.
    pub proof fn lemma_merge_precedence(self, other: SpecModel, key: Seq<char>)
        ensures
            self.merge(other).name == if other.name.len() > 0 {
                other.name
            } else {
                self.name
            },
            self.merge(other).bin == if other.bin.len() > 0 {
                other.bin
            } else {
                self.bin
            },
            self.merge(other).usage == if other.usage.len() > 0 {
                other.usage
            } else {
                self.usage
            },
            self.merge(other).version == if other.version is Some {
                other.version
            } else {
                self.version
            },
            self.merge(other).author == if other.author is Some {
                other.author
            } else {
                self.author
            },
            self.merge(other).about == if other.about is Some {
                other.about
            } else {
                self.about
            },
            self.merge(other).long_about == if other.long_about is Some {
                other.long_about
            } else {
                self.long_about
            },
            value_of(self.merge(other).config.props, key) == match latest(
                other.config.props,
                key,
            ) {
                Some(p) => Some(p),
                None => value_of(self.config.props, key),
            },
            value_of(self.merge(other).cmd.commands, key) == match latest(
                other.cmd.commands,
                key,
            ) {
                Some(c) => Some(c),
                None => value_of(self.cmd.commands, key),
            },
            keys_unique(other.config.props) ==> value_of(self.merge(other).config.props, key)
                == match value_of(other.config.props, key) {
                Some(p) => Some(p),
                None => value_of(self.config.props, key),
            },
            keys_unique(other.cmd.commands) ==> value_of(self.merge(other).cmd.commands, key)
                == match value_of(other.cmd.commands, key) {
                Some(c) => Some(c),
                None => value_of(self.cmd.commands, key),
            },
            self.merge(other).cmd.args == self.cmd.args + other.cmd.args,
            self.merge(other).cmd.flags == self.cmd.flags + other.cmd.flags,
    {
        lemma_value_of_inserted_all(self.config.props, other.config.props, key);
        lemma_value_of_inserted_all(self.cmd.commands, other.cmd.commands, key);
        if keys_unique(other.config.props) {
            lemma_latest_unique(other.config.props, key);
        }
        if keys_unique(other.cmd.commands) {
            lemma_latest_unique(other.cmd.commands, key);
        }
    }

    /// The nodes that set the texts of the specification, in the order
    /// `name`, `bin`, `version`, `about`, `long_about`, `usage`; a text that
    /// is empty or absent has no node.
    pub open spec fn head_nodes(self) -> Seq<NodeModel> {
        let n0 = with_text_node(Seq::empty(), "name"@, filled(self.name));
        let n1 = with_text_node(n0, "bin"@, filled(self.bin));
        let n2 = with_text_node(n1, "version"@, self.version);
        let n3 = with_text_node(n2, "about"@, self.about);
        let n4 = with_text_node(n3, "long_about"@, self.long_about);
        with_text_node(n4, "usage"@, filled(self.usage))
    }

    /// The `config` node, where there is an option.
    pub open spec fn config_nodes(self) -> Seq<NodeModel> {
        if self.config.is_empty() {
            Seq::empty()
        } else {
            seq![self.config.node()]
        }
    }

    /// The nodes of the document that declares this specification: the
    /// texts, then the flags, the arguments and the subcommands of the root
    /// command, then the configuration options.
    pub open spec fn nodes(self) -> Seq<NodeModel> {
        self.head_nodes() + self.cmd.body_nodes() + self.config_nodes()
    }
}

/// The node that sets a text.
fn make_text_node(name: &str, text: &str) -> (r: Node)
    ensures
        r@ == text_node(name@, text@),
{
    let mut entries: Vec<Entry> = Vec::new();
    entries.push(Entry::argument(text.to_owned()));
    proof {
        assert(entries_view(entries@) =~= seq![EntryModel::argument(text@)]);
    }
    Node { name: name.to_owned(), entries, children: None, span: Span::empty() }
}

/// Adds the node that sets `text`, where there is one.
fn push_text_node(nodes: &mut Vec<Node>, name: &str, text: Option<&str>)
    ensures
        nodes_view(final(nodes)@) == with_text_node(
            nodes_view(old(nodes)@),
            name@,
            match text {
                Some(t) => Some(t@),
                None => None,
            },
        ),
{
    match text {
        Some(t) => {
            let n = make_text_node(name, t);
            proof {
                assert(nodes_view(nodes@.push(n)) =~= nodes_view(nodes@).push(n@));
            }
            nodes.push(n);
        },
        None => {},
    }
}

/// A text that is not empty, or nothing.
fn filled_text(text: &String) -> (r: Option<&str>)
    ensures
        match r {
            Some(t) => filled(text@) == Some(t@),
            None => filled(text@) is None,
        },
{
    if text.as_str().is_empty() {
        None
    } else {
        Some(text.as_str())
    }
}

/// The text of an optional string.
fn optional_text(text: &Option<String>) -> (r: Option<&str>)
    ensures
        match r {
            Some(t) => option_view(*text) == Some(t@),
            None => option_view(*text) is None,
        },
{
    match text {
        Some(t) => Some(t.as_str()),
        None => None,
    }
}

impl Default for Spec_old {
    /// The specification that says nothing.
    fn default() -> (r: Spec_old)
        ensures
            r@ == SpecModel::empty(),
    {
        Spec_old {
            name: String::new(),
            bin: String::new(),
            cmd: Command::default(),
            config: SpecConfig::new(),
            version: None,
            author: None,
            usage: String::new(),
            about: None,
            long_about: None,
        }
    }
}

impl Spec_old {
    /// Whether the specification names no tool and declares nothing.
    pub fn is_empty(&self) -> (r: bool)
        ensures
            r == self@.is_empty(),
    {
        self.name.as_str().is_empty() && self.bin.as_str().is_empty() && self.usage.as_str().is_empty()
            && self.cmd.is_empty() && self.config.is_empty()
    }

    /// Takes over `other`: what `other` sets stands, what it leaves unset
    /// stays as it was.
    pub fn merge(&mut self, other: Spec_old)
        ensures
            final(self)@ == old(self)@.merge(other@),
    {
        let Spec_old { name, bin, cmd, config, version, author, usage, about, long_about } = other;
        if !name.as_str().is_empty() {
            self.name = name;
        }
        if !bin.as_str().is_empty() {
            self.bin = bin;
        }
        if !usage.as_str().is_empty() {
            self.usage = usage;
        }
        if version.is_some() {
            self.version = version;
        }
        if author.is_some() {
            self.author = author;
        }
        if about.is_some() {
            self.about = about;
        }
        if long_about.is_some() {
            self.long_about = long_about;
        }
        self.config.merge(&config);
        self.cmd.merge(cmd);
    }

    /// The nodes of the document that declares this specification.
    pub fn to_nodes(&self) -> (r: Vec<Node>)
        ensures
            nodes_view(r@) == self@.nodes(),
    {
        let mut out: Vec<Node> = Vec::new();
        proof {
            assert(nodes_view(out@) =~= Seq::<NodeModel>::empty());
        }
        push_text_node(&mut out, "name", filled_text(&self.name));
        push_text_node(&mut out, "bin", filled_text(&self.bin));
        push_text_node(&mut out, "version", optional_text(&self.version));
        push_text_node(&mut out, "about", optional_text(&self.about));
        push_text_node(&mut out, "long_about", optional_text(&self.long_about));
        push_text_node(&mut out, "usage", filled_text(&self.usage));
        let mut body = self.cmd.body_nodes();
        proof {
            assert(nodes_view(out@ + body@) =~= nodes_view(out@) + nodes_view(body@));
        }
        out.append(&mut body);
        if !self.config.is_empty() {
            let n = self.config.to_node();
            proof {
                assert(nodes_view(out@.push(n)) =~= nodes_view(out@) + seq![n@]);
            }
            out.push(n);
        } else {
            proof {
                assert(nodes_view(out@) + Seq::<NodeModel>::empty() =~= nodes_view(out@));
            }
        }
        out
    }
}

} // verus!

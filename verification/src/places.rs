//! Compiling does not look at places. Where a document is compiled without
//! error, the specification does not depend on where in the source its
//! nodes and entries stood; the places only tell where an error lies.
use vstd::prelude::*;
use crate::arg::ArgModel;
use crate::command::CommandModel;
use crate::config::{ConfigModel, ConfigPropModel};
use crate::document::{document_of, written};
use crate::error::{Span, UsageErrModel};
use crate::flag::FlagModel;
use crate::node::{arguments_of, last_with_key, EntryModel, NodeModel};
use crate::parse::{kind_of, next_referred, referred_path, NodeKind};
use crate::spec::SpecModel;

verus! {

/// The value of a result, where there is one.
pub open spec fn ok<T>(r: Result<T, UsageErrModel>) -> Option<T> {
    match r {
        Ok(v) => Some(v),
        Err(_) => None,
    }
}

/// The entry without its place.
pub open spec fn unplaced_entry(e: EntryModel) -> EntryModel {
    EntryModel { span: Span::zero(), ..e }
}

/// The entries without their places.
pub open spec fn unplaced_entries(entries: Seq<EntryModel>) -> Seq<EntryModel> {
    entries.map_values(|e: EntryModel| unplaced_entry(e))
}

/// The node without its place and without the places of what it holds.
pub open spec fn unplaced(node: NodeModel) -> NodeModel
    decreases node, 1nat,
{
    NodeModel {
        name: node.name,
        entries: unplaced_entries(node.entries),
        children: match node.children {
            Some(c) => Some(unplaced_all(c)),
            None => None,
        },
        span: Span::zero(),
    }
}

/// The nodes without their places.
pub open spec fn unplaced_all(nodes: Seq<NodeModel>) -> Seq<NodeModel>
    decreases nodes, 0nat,
{
    Seq::new(
        nodes.len(),
        |i: int|
            if 0 <= i < nodes.len() {
                unplaced(nodes[i])
            } else {
                arbitrary()
            },
    )
}

/// The arguments of entries without places are the arguments without
/// places.
pub proof fn lemma_arguments_unplaced(entries: Seq<EntryModel>)
    ensures
        arguments_of(unplaced_entries(entries)) == unplaced_entries(arguments_of(entries)),
    decreases entries.len(),
{
    let bare = unplaced_entries(entries);
    if entries.len() == 0 {
        assert(unplaced_entries(arguments_of(entries)) =~= Seq::<EntryModel>::empty());
    } else {
        assert(bare.drop_last() =~= unplaced_entries(entries.drop_last()));
        assert(bare.last() == unplaced_entry(entries.last()));
        lemma_arguments_unplaced(entries.drop_last());
        if entries.last().is_argument() {
            assert(unplaced_entries(arguments_of(entries.drop_last()).push(entries.last()))
                =~= unplaced_entries(arguments_of(entries.drop_last())).push(
                unplaced_entry(entries.last()),
            ));
        }
    }
}

/// The first argument of a node is the same text with and without places.
pub proof fn lemma_first_string_unplaced(file: Seq<char>, node: NodeModel)
    ensures
        ok(unplaced(node).first_string(file)) == ok(node.first_string(file)),
{
    lemma_arguments_unplaced(node.entries);
    if arguments_of(node.entries).len() > 0 {
        assert(unplaced_entries(arguments_of(node.entries))[0] == unplaced_entry(
            arguments_of(node.entries)[0],
        ));
    }
}

/// The last entry with a key is the same entry with and without places.
pub proof fn lemma_last_with_key_unplaced(entries: Seq<EntryModel>, key: Seq<char>)
    ensures
        last_with_key(unplaced_entries(entries), key) == match last_with_key(entries, key) {
            Some(e) => Some(unplaced_entry(e)),
            None => None,
        },
    decreases entries.len(),
{
    let bare = unplaced_entries(entries);
    if entries.len() > 0 {
        assert(bare.drop_last() =~= unplaced_entries(entries.drop_last()));
        assert(bare.last() == unplaced_entry(entries.last()));
        lemma_last_with_key_unplaced(entries.drop_last(), key);
    }
}

/// Reading the entries of an `arg` node does not look at places.
pub proof fn lemma_arg_entries_unplaced(base: ArgModel, file: Seq<char>, entries: Seq<EntryModel>)
    ensures
        ok(base.with_entries(file, unplaced_entries(entries))) == ok(
            base.with_entries(file, entries),
        ),
    decreases entries.len(),
{
    let bare = unplaced_entries(entries);
    if entries.len() > 0 {
        assert(bare.drop_last() =~= unplaced_entries(entries.drop_last()));
        assert(bare.last() == unplaced_entry(entries.last()));
        lemma_arg_entries_unplaced(base, file, entries.drop_last());
    }
}

/// Reading the entries of a `flag` node does not look at places.
pub proof fn lemma_flag_entries_unplaced(base: FlagModel, file: Seq<char>, entries: Seq<EntryModel>)
    ensures
        ok(base.with_entries(file, unplaced_entries(entries))) == ok(
            base.with_entries(file, entries),
        ),
    decreases entries.len(),
{
    let bare = unplaced_entries(entries);
    if entries.len() > 0 {
        assert(bare.drop_last() =~= unplaced_entries(entries.drop_last()));
        assert(bare.last() == unplaced_entry(entries.last()));
        lemma_flag_entries_unplaced(base, file, entries.drop_last());
    }
}

/// Reading the entries of a `prop` node does not look at places.
pub proof fn lemma_prop_entries_unplaced(
    base: ConfigPropModel,
    file: Seq<char>,
    entries: Seq<EntryModel>,
)
    ensures
        ok(base.with_entries(file, unplaced_entries(entries))) == ok(
            base.with_entries(file, entries),
        ),
    decreases entries.len(),
{
    let bare = unplaced_entries(entries);
    if entries.len() > 0 {
        assert(bare.drop_last() =~= unplaced_entries(entries.drop_last()));
        assert(bare.last() == unplaced_entry(entries.last()));
        lemma_prop_entries_unplaced(base, file, entries.drop_last());
    }
}

/// Reading the entries of a `cmd` node does not look at places.
pub proof fn lemma_command_entries_unplaced(
    base: CommandModel,
    file: Seq<char>,
    entries: Seq<EntryModel>,
)
    ensures
        ok(base.with_entries(file, unplaced_entries(entries))) == ok(
            base.with_entries(file, entries),
        ),
    decreases entries.len(),
{
    let bare = unplaced_entries(entries);
    if entries.len() > 0 {
        assert(bare.drop_last() =~= unplaced_entries(entries.drop_last()));
        assert(bare.last() == unplaced_entry(entries.last()));
        lemma_command_entries_unplaced(base, file, entries.drop_last());
    }
}

/// Reading the children of a `config` node does not look at places.
pub proof fn lemma_config_nodes_unplaced(base: ConfigModel, file: Seq<char>, nodes: Seq<NodeModel>)
    ensures
        ok(base.with_nodes(file, unplaced_all(nodes))) == ok(base.with_nodes(file, nodes)),
    decreases nodes.len(),
{
    let bare = unplaced_all(nodes);
    if nodes.len() > 0 {
        assert(bare.drop_last() =~= unplaced_all(nodes.drop_last()));
        assert(bare.last() == unplaced(nodes.last()));
        lemma_config_nodes_unplaced(base, file, nodes.drop_last());
        lemma_first_string_unplaced(file, nodes.last());
        lemma_prop_entries_unplaced(ConfigPropModel::empty(), file, nodes.last().entries);
    }
}

/// Reading a `config` node does not look at places.
pub proof fn lemma_config_unplaced(file: Seq<char>, node: NodeModel)
    ensures
        ok(ConfigModel::parse(file, unplaced(node))) == ok(ConfigModel::parse(file, node)),
{
    lemma_config_nodes_unplaced(ConfigModel::empty(), file, node.body());
    if node.children is None {
        assert(unplaced_all(node.body()) =~= Seq::<NodeModel>::empty());
    }
}

/// Taking the next specification handed in does not look at places.
pub proof fn lemma_next_referred_unplaced(file: Seq<char>, node: NodeModel, inc: Seq<SpecModel>)
    ensures
        ok(next_referred(file, unplaced(node), inc)) == ok(next_referred(file, node, inc)),
{
    lemma_last_with_key_unplaced(node.entries, "file"@);
}

/// Reading a child of a command does not look at places.
pub proof fn lemma_command_node_unplaced(
    base: CommandModel,
    file: Seq<char>,
    inc: Seq<SpecModel>,
    node: NodeModel,
)
    ensures
        ok(base.with_node(file, inc, unplaced(node))) == ok(base.with_node(file, inc, node)),
    decreases node, 1nat,
{
    match kind_of(node.name) {
        NodeKind::Arg => {
            lemma_first_string_unplaced(file, node);
            if let Ok(text) = node.first_string(file) {
                lemma_arg_entries_unplaced(ArgModel::from_usage(text), file, node.entries);
            }
        },
        NodeKind::Flag => {
            lemma_first_string_unplaced(file, node);
            if let Ok(text) = node.first_string(file) {
                lemma_flag_entries_unplaced(FlagModel::from_usage(text), file, node.entries);
            }
        },
        NodeKind::Cmd => {
            lemma_command_unplaced(file, inc, node);
        },
        NodeKind::Include => {
            lemma_next_referred_unplaced(file, node, inc);
        },
        _ => {},
    }
}

/// Reading the children of a command does not look at places.
pub proof fn lemma_command_nodes_unplaced(
    base: CommandModel,
    file: Seq<char>,
    inc: Seq<SpecModel>,
    nodes: Seq<NodeModel>,
)
    ensures
        ok(base.with_nodes(file, inc, unplaced_all(nodes))) == ok(
            base.with_nodes(file, inc, nodes),
        ),
    decreases nodes, 2nat,
{
    let bare = unplaced_all(nodes);
    if nodes.len() > 0 {
        assert(bare.drop_last() =~= unplaced_all(nodes.drop_last()));
        assert(bare.last() == unplaced(nodes.last()));
        lemma_command_nodes_unplaced(base, file, inc, nodes.drop_last());
        if let Ok((c, rest)) = base.with_nodes(file, inc, nodes.drop_last()) {
            lemma_command_node_unplaced(c, file, rest, nodes.last());
        }
    }
}

/// Reading a `cmd` node does not look at places.
pub proof fn lemma_command_unplaced(file: Seq<char>, inc: Seq<SpecModel>, node: NodeModel)
    ensures
        ok(CommandModel::parse(file, inc, unplaced(node))) == ok(
            CommandModel::parse(file, inc, node),
        ),
    decreases node, 0nat,
{
    lemma_first_string_unplaced(file, node);
    if let Ok(name) = node.first_string(file) {
        lemma_command_entries_unplaced(CommandModel::named(name), file, node.entries);
        if let Ok(c) = CommandModel::named(name).with_entries(file, node.entries) {
            if let Some(children) = node.children {
                lemma_command_nodes_unplaced(c, file, inc, children);
            }
        }
    }
}

/// Reading the nodes of a document does not look at places.
pub proof fn lemma_spec_nodes_unplaced(
    base: SpecModel,
    file: Seq<char>,
    inc: Seq<SpecModel>,
    nodes: Seq<NodeModel>,
)
    ensures
        ok(base.with_nodes(file, inc, unplaced_all(nodes))) == ok(
            base.with_nodes(file, inc, nodes),
        ),
    decreases nodes.len(),
{
    let bare = unplaced_all(nodes);
    if nodes.len() > 0 {
        assert(bare.drop_last() =~= unplaced_all(nodes.drop_last()));
        assert(bare.last() == unplaced(nodes.last()));
        lemma_spec_nodes_unplaced(base, file, inc, nodes.drop_last());
        if let Ok((s, rest)) = base.with_nodes(file, inc, nodes.drop_last()) {
            let node = nodes.last();
            lemma_first_string_unplaced(file, node);
            lemma_command_node_unplaced(s.cmd, file, rest, node);
            lemma_config_unplaced(file, node);
            lemma_next_referred_unplaced(file, node, rest);
        }
    }
}

/// Compiling does not look at places: the nodes of a document and the same
/// nodes without their places compile alike, to the same specification or
/// both to an error.
pub proof fn lemma_parse_ignores_places(file: Seq<char>, nodes: Seq<NodeModel>, inc: Seq<SpecModel>)
    ensures
        ok(SpecModel::parse(file, unplaced_all(nodes), inc)) == ok(
            SpecModel::parse(file, nodes, inc),
        ),
{
    lemma_spec_nodes_unplaced(SpecModel::empty(), file, inc, nodes);
}

/// What is written out as text is read back, as far as the `kdl` crate
/// reads back what it writes.
///
/// Where the text that is written for the nodes of a compiled
/// specification is read back as those nodes, whatever places they are
/// given, compiling that text gives the specification again, but for the
/// author, which no node declares.
pub proof fn lemma_round_trip_text(s: SpecModel, file: Seq<char>)
    requires
        s.compiled(),
        document_of(written(s.nodes())) is Ok,
        unplaced_all(document_of(written(s.nodes()))->Ok_0) == unplaced_all(s.nodes()),
    ensures
        SpecModel::compile(file, written(s.nodes()), Seq::empty()) == Ok::<
            SpecModel,
            UsageErrModel,
        >(SpecModel { author: None, ..s }),
{
    let read = document_of(written(s.nodes()))->Ok_0;
    let none = Seq::<SpecModel>::empty();
    s.lemma_round_trip(file);
    lemma_parse_ignores_places(file, read, none);
    lemma_parse_ignores_places(file, s.nodes(), none);
}

} // verus!

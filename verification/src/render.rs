//! Writing a specification out as the text of a document.
use vstd::prelude::*;
use crate::arg::{arg_nodes, ArgModel};
use crate::command::{command_nodes, CommandModel};
use crate::config::ConfigModel;
use crate::document::{node_writable, nodes_writable, write_nodes, written};
use crate::flag::{flag_nodes, FlagModel};
use crate::node::NodeModel;
use crate::spec::{filled, with_text_node, SpecModel, Spec_old};

verus! {

/// The node that declares an argument can be written out.
pub proof fn lemma_arg_node_writable(a: ArgModel)
    ensures
        node_writable(a.node()),
{
}

/// The node that declares a flag can be written out.
pub proof fn lemma_flag_node_writable(f: FlagModel)
    ensures
        node_writable(f.node()),
{
}

/// The node that declares the configuration options can be written out.
pub proof fn lemma_config_node_writable(c: ConfigModel)
    ensures
        node_writable(c.node()),
{
    assert forall|i: int| 0 <= i < c.prop_nodes().len() implies node_writable(
        #[trigger] c.prop_nodes()[i],
    ) by {
        let p = c.props[i];
        assert(c.prop_nodes()[i] == p.1.node(p.0));
    }
}

/// The node that declares a command can be written out, and so can the
/// nodes that declare what the command holds.
pub proof fn lemma_command_writable(c: CommandModel)
    ensures
        node_writable(c.node()),
        nodes_writable(c.body_nodes()),
    decreases c,
{
    let flags = flag_nodes(c.flags);
    let args = arg_nodes(c.args);
    let cmds = command_nodes(c.commands);
    let body = c.body_nodes();
    assert(body == flags + args + cmds);
    assert forall|i: int| 0 <= i < body.len() implies node_writable(#[trigger] body[i]) by {
        if i < flags.len() {
            assert(body[i] == c.flags[i].node());
            lemma_flag_node_writable(c.flags[i]);
        } else if i < flags.len() + args.len() {
            let j = i - flags.len();
            assert(body[i] == c.args[j].node());
            lemma_arg_node_writable(c.args[j]);
        } else {
            let j = i - flags.len() - args.len();
            assert(body[i] == c.commands[j].1.node());
            lemma_command_writable(c.commands[j].1);
        }
    }
}

/// Adding the node that sets a text keeps nodes such that they can be
/// written out.
pub proof fn lemma_with_text_node_writable(
    nodes: Seq<NodeModel>,
    name: Seq<char>,
    text: Option<Seq<char>>,
)
    requires
        nodes_writable(nodes),
    ensures
        nodes_writable(with_text_node(nodes, name, text)),
{
    let out = with_text_node(nodes, name, text);
    assert forall|i: int| 0 <= i < out.len() implies node_writable(#[trigger] out[i]) by {
        if i < nodes.len() {
            assert(out[i] == nodes[i]);
        }
    }
}

/// The nodes of the document that declares a specification can be written
/// out.
pub proof fn lemma_spec_nodes_writable(s: SpecModel)
    ensures
        nodes_writable(s.nodes()),
{
    let n0 = with_text_node(Seq::empty(), "name"@, filled(s.name));
    let n1 = with_text_node(n0, "bin"@, filled(s.bin));
    let n2 = with_text_node(n1, "version"@, s.version);
    let n3 = with_text_node(n2, "about"@, s.about);
    let n4 = with_text_node(n3, "long_about"@, s.long_about);
    let head = s.head_nodes();
    lemma_with_text_node_writable(Seq::empty(), "name"@, filled(s.name));
    lemma_with_text_node_writable(n0, "bin"@, filled(s.bin));
    lemma_with_text_node_writable(n1, "version"@, s.version);
    lemma_with_text_node_writable(n2, "about"@, s.about);
    lemma_with_text_node_writable(n3, "long_about"@, s.long_about);
    lemma_with_text_node_writable(n4, "usage"@, filled(s.usage));
    lemma_command_writable(s.cmd);
    lemma_config_node_writable(s.config);
    let body = s.cmd.body_nodes();
    let tail = s.config_nodes();
    let all = s.nodes();
    assert forall|i: int| 0 <= i < all.len() implies node_writable(#[trigger] all[i]) by {
        if i < head.len() {
            assert(all[i] == head[i]);
        } else if i < head.len() + body.len() {
            assert(all[i] == body[i - head.len()]);
        } else {
            assert(all[i] == tail[i - head.len() - body.len()]);
        }
    }
}

impl Spec_old {
    /// The text of the document that declares this specification: the text
    /// that the `kdl` crate writes for the nodes of `to_nodes`.
    pub fn to_string(&self) -> (r: String)
        ensures
            r@ == written(self@.nodes()),
    {
        let nodes = self.to_nodes();
        proof {
            lemma_spec_nodes_writable(self@);
        }
        write_nodes(nodes.as_slice())
    }
}

} // verus!

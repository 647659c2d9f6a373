//! Configuration options that a document declares for the tool as a whole.
//!
//! A document declares them in one `config` node, each as a child
//! `prop "<key>"` with the properties `default`, `help` and `type`. Options
//! are kept in the order in which their keys first came; a key that comes
//! again replaces the option that had it.
use vstd::prelude::*;
use crate::arg::{data_type_of, lemma_first_argument, read_data_type};
use crate::context::ParsingContext;
use crate::data_types::SpecDataTypes;
use crate::error::{Span, UsageErr, UsageErrModel};
use crate::keyed::{
    has_key, inserted, inserted_all, keys_unique, lemma_inserted, lemma_inserted_new, lemma_position,
    position,
};
use crate::node::{entries_view, nodes_view, result_view, Entry, EntryModel, Node, NodeModel};
use crate::text::{clone_option, option_view, str_eq};

verus! {

/// One configuration option.
#[derive(Debug, Clone)]
pub struct SpecConfigProp {
    pub default: Option<String>,
    pub help: Option<String>,
    pub data_type: SpecDataTypes,
}

/// What a `SpecConfigProp` stands for.
pub struct ConfigPropModel {
    pub default: Option<Seq<char>>,
    pub help: Option<Seq<char>>,
    pub data_type: SpecDataTypes,
}

impl View for SpecConfigProp {
    type V = ConfigPropModel;

    open spec fn view(&self) -> ConfigPropModel {
        ConfigPropModel {
            default: option_view(self.default),
            help: option_view(self.help),
            data_type: self.data_type,
        }
    }
}

/// The configuration options of a tool, by key.
#[derive(Debug, Clone)]
pub struct SpecConfig {
    pub props: Vec<(String, SpecConfigProp)>,
}

/// What a `SpecConfig` stands for: its options with their keys, in order.
pub struct ConfigModel {
    pub props: Seq<(Seq<char>, ConfigPropModel)>,
}

/// What a list of keyed options stands for.
pub open spec fn props_view(props: Seq<(String, SpecConfigProp)>) -> Seq<
    (Seq<char>, ConfigPropModel),
> {
    props.map_values(|p: (String, SpecConfigProp)| (p.0@, p.1@))
}

impl View for SpecConfig {
    type V = ConfigModel;

    open spec fn view(&self) -> ConfigModel {
        ConfigModel { props: props_view(self.props@) }
    }
}

impl ConfigPropModel {
    /// The option without a default, a help text or a kind of value.
    pub open spec fn empty() -> ConfigPropModel {
        ConfigPropModel { default: None, help: None, data_type: SpecDataTypes::Null }
    }

    /// The option after one entry of its node was read. An argument of the
    /// node changes nothing; a property sets the field it names; a value of
    /// the wrong kind and a key outside the vocabulary are errors at the
    /// entry.
    pub open spec fn with_entry(self, file: Seq<char>, e: EntryModel) -> Result<
        ConfigPropModel,
        UsageErrModel,
    > {
        match e.name {
            None => Ok(self),
            Some(key) => if key == "default"@ {
                match e.as_string(file) {
                    Ok(s) => Ok(ConfigPropModel { default: Some(s), ..self }),
                    Err(x) => Err(x),
                }
            } else if key == "help"@ {
                match e.as_string(file) {
                    Ok(s) => Ok(ConfigPropModel { help: Some(s), ..self }),
                    Err(x) => Err(x),
                }
            } else if key == "type"@ {
                match data_type_of(file, e) {
                    Ok(t) => Ok(ConfigPropModel { data_type: t, ..self }),
                    Err(x) => Err(x),
                }
            } else {
                Err(UsageErrModel::UnsupportedSpecKey { file, span: e.span, key })
            },
        }
    }

    /// The option after the entries were read in order; the first error
    /// ends the reading.
    pub open spec fn with_entries(self, file: Seq<char>, entries: Seq<EntryModel>) -> Result<
        ConfigPropModel,
        UsageErrModel,
    >
        decreases entries.len(),
    {
        if entries.len() == 0 {
            Ok(self)
        } else {
            match self.with_entries(file, entries.drop_last()) {
                Ok(p) => p.with_entry(file, entries.last()),
                Err(x) => Err(x),
            }
        }
    }

    /// The key and the option that a `prop` node declares.
    pub open spec fn parse(file: Seq<char>, node: NodeModel) -> Result<
        (Seq<char>, ConfigPropModel),
        UsageErrModel,
    > {
        match node.first_string(file) {
            Ok(key) => match ConfigPropModel::empty().with_entries(file, node.entries) {
                Ok(p) => Ok((key, p)),
                Err(x) => Err(x),
            },
            Err(x) => Err(x),
        }
    }

    /// The entries of the node that declares this option under `key`.
    pub open spec fn entries(self, key: Seq<char>) -> Seq<EntryModel> {
        let e0 = seq![EntryModel::argument(key)];
        let e1 = match self.default {
            Some(d) => e0.push(EntryModel::text_property("default"@, d)),
            None => e0,
        };
        let e2 = match self.help {
            Some(h) => e1.push(EntryModel::text_property("help"@, h)),
            None => e1,
        };
        if self.data_type != SpecDataTypes::Null {
            e2.push(EntryModel::text_property("type"@, self.data_type.identifier()))
        } else {
            e2
        }
    }

    /// The node that declares this option under `key`.
    pub open spec fn node(self, key: Seq<char>) -> NodeModel {
        NodeModel { name: "prop"@, entries: self.entries(key), children: None, span: Span::zero() }
    }

    /// Reading one more entry is one more step.
    pub proof fn lemma_with_entries_push(
        self,
        file: Seq<char>,
        entries: Seq<EntryModel>,
        e: EntryModel,
    )
        ensures
            self.with_entries(file, entries.push(e)) == match self.with_entries(file, entries) {
                Ok(p) => p.with_entry(file, e),
                Err(x) => Err(x),
            },
    {
        assert(entries.push(e).drop_last() =~= entries);
        assert(entries.push(e).last() == e);
    }

    /// An error in reading a front part of the entries is the error of
    /// reading them all.
    pub proof fn lemma_with_entries_stops(self, file: Seq<char>, entries: Seq<EntryModel>, k: int)
        requires
            0 <= k <= entries.len(),
            self.with_entries(file, entries.take(k)) is Err,
        ensures
            self.with_entries(file, entries) == self.with_entries(file, entries.take(k)),
        decreases entries.len() - k,
    {
        if k == entries.len() {
            assert(entries.take(k) =~= entries);
        } else {
            assert(entries.take(k + 1) =~= entries.take(k).push(entries[k]));
            self.lemma_with_entries_push(file, entries.take(k), entries[k]);
            self.lemma_with_entries_stops(file, entries, k + 1);
        }
    }

    /// The node that declares an option is read back as that option under
    /// its key.
    pub proof fn lemma_parse_node(self, file: Seq<char>, key: Seq<char>)
        ensures
            ConfigPropModel::parse(file, self.node(key)) == Ok::<
                (Seq<char>, ConfigPropModel),
                UsageErrModel,
            >((key, self)),
    {
        reveal_strlit("help");
        reveal_strlit("default");
        reveal_strlit("type");
        assert("help"@.len() == 4 && "default"@.len() == 7 && "type"@.len() == 4);
        assert("help"@[0] == 'h' && "type"@[0] == 't');
        self.data_type.lemma_named_identifier();
        let first = EntryModel::argument(key);
        let p0 = ConfigPropModel::empty();
        let none = Seq::<EntryModel>::empty();
        let e0 = seq![first];
        assert(e0 =~= none.push(first));
        p0.lemma_with_entries_push(file, none, first);
        assert(p0.with_entries(file, e0) == Ok::<ConfigPropModel, UsageErrModel>(p0));
        let e1 = match self.default {
            Some(d) => e0.push(EntryModel::text_property("default"@, d)),
            None => e0,
        };
        let p1 = ConfigPropModel { default: self.default, ..p0 };
        if let Some(d) = self.default {
            p0.lemma_with_entries_push(file, e0, EntryModel::text_property("default"@, d));
        }
        assert(p0.with_entries(file, e1) == Ok::<ConfigPropModel, UsageErrModel>(p1));
        let e2 = match self.help {
            Some(h) => e1.push(EntryModel::text_property("help"@, h)),
            None => e1,
        };
        let p2 = ConfigPropModel { help: self.help, ..p1 };
        if let Some(h) = self.help {
            p0.lemma_with_entries_push(file, e1, EntryModel::text_property("help"@, h));
        }
        assert(p0.with_entries(file, e2) == Ok::<ConfigPropModel, UsageErrModel>(p2));
        if self.data_type != SpecDataTypes::Null {
            p0.lemma_with_entries_push(
                file,
                e2,
                EntryModel::text_property("type"@, self.data_type.identifier()),
            );
        }
        assert(p0.with_entries(file, self.entries(key)) == Ok::<ConfigPropModel, UsageErrModel>(
            self,
        ));
        lemma_first_argument(self.entries(key), first);
    }
}

impl ConfigModel {
    /// No options.
    pub open spec fn empty() -> ConfigModel {
        ConfigModel { props: Seq::empty() }
    }

    /// No key stands twice.
    pub open spec fn well_formed(self) -> bool {
        keys_unique(self.props)
    }

    /// Whether there is no option.
    pub open spec fn is_empty(self) -> bool {
        self.props.len() == 0
    }

    /// The options after one child of the `config` node was read: a `prop`
    /// node gives its key its option, and a node of any other name is
    /// outside the vocabulary.
    pub open spec fn with_node(self, file: Seq<char>, node: NodeModel) -> Result<
        ConfigModel,
        UsageErrModel,
    > {
        if node.name == "prop"@ {
            match ConfigPropModel::parse(file, node) {
                Ok((key, p)) => Ok(ConfigModel { props: inserted(self.props, key, p) }),
                Err(x) => Err(x),
            }
        } else {
            Err(UsageErrModel::UnsupportedSpecKey { file, span: node.span, key: node.name })
        }
    }

    /// The options after the children were read in order; the first error
    /// ends the reading.
    pub open spec fn with_nodes(self, file: Seq<char>, nodes: Seq<NodeModel>) -> Result<
        ConfigModel,
        UsageErrModel,
    >
        decreases nodes.len(),
    {
        if nodes.len() == 0 {
            Ok(self)
        } else {
            match self.with_nodes(file, nodes.drop_last()) {
                Ok(c) => c.with_node(file, nodes.last()),
                Err(x) => Err(x),
            }
        }
    }

    /// The options that a `config` node declares.
    pub open spec fn parse(file: Seq<char>, node: NodeModel) -> Result<ConfigModel, UsageErrModel> {
        ConfigModel::empty().with_nodes(file, node.body())
    }

    /// These options, with each option of `other` given to its key in turn:
    /// where both have a key, the option of `other` stands.
    pub open spec fn merge(self, other: ConfigModel) -> ConfigModel {
        ConfigModel { props: inserted_all(self.props, other.props) }
    }

    /// The nodes that declare the options, in order.
    pub open spec fn prop_nodes(self) -> Seq<NodeModel> {
        self.props.map_values(|p: (Seq<char>, ConfigPropModel)| p.1.node(p.0))
    }

    /// The `config` node that declares these options.
    pub open spec fn node(self) -> NodeModel {
        NodeModel {
            name: "config"@,
            entries: Seq::empty(),
            children: Some(self.prop_nodes()),
            span: Span::zero(),
        }
    }

    /// Reading one more child is one more step.
    pub proof fn lemma_with_nodes_push(self, file: Seq<char>, nodes: Seq<NodeModel>, n: NodeModel)
        ensures
            self.with_nodes(file, nodes.push(n)) == match self.with_nodes(file, nodes) {
                Ok(c) => c.with_node(file, n),
                Err(x) => Err(x),
            },
    {
        assert(nodes.push(n).drop_last() =~= nodes);
        assert(nodes.push(n).last() == n);
    }

    /// An error in reading a front part of the children is the error of
    /// reading them all.
    pub proof fn lemma_with_nodes_stops(self, file: Seq<char>, nodes: Seq<NodeModel>, k: int)
        requires
            0 <= k <= nodes.len(),
            self.with_nodes(file, nodes.take(k)) is Err,
        ensures
            self.with_nodes(file, nodes) == self.with_nodes(file, nodes.take(k)),
        decreases nodes.len() - k,
    {
        if k == nodes.len() {
            assert(nodes.take(k) =~= nodes);
        } else {
            assert(nodes.take(k + 1) =~= nodes.take(k).push(nodes[k]));
            self.lemma_with_nodes_push(file, nodes.take(k), nodes[k]);
            self.lemma_with_nodes_stops(file, nodes, k + 1);
        }
    }

    /// Options that were read keep their keys different from each other.
    pub proof fn lemma_with_nodes_well_formed(self, file: Seq<char>, nodes: Seq<NodeModel>)
        requires
            self.well_formed(),
        ensures
            match self.with_nodes(file, nodes) {
                Ok(c) => c.well_formed(),
                Err(_) => true,
            },
        decreases nodes.len(),
    {
        if nodes.len() > 0 {
            self.lemma_with_nodes_well_formed(file, nodes.drop_last());
            if let Ok(c) = self.with_nodes(file, nodes.drop_last()) {
                if let Ok((key, p)) = ConfigPropModel::parse(file, nodes.last()) {
                    lemma_inserted(c.props, key, p);
                }
            }
        }
    }

    /// The nodes of the first `k` options are read back as those options.
    proof fn lemma_parse_prop_nodes(self, file: Seq<char>, k: int)
        requires
            self.well_formed(),
            0 <= k <= self.props.len(),
        ensures
            ConfigModel::empty().with_nodes(file, self.prop_nodes().take(k)) == Ok::<
                ConfigModel,
                UsageErrModel,
            >(ConfigModel { props: self.props.take(k) }),
        decreases k,
    {
        let nodes = self.prop_nodes();
        if k == 0 {
            assert(self.props.take(0) =~= Seq::<(Seq<char>, ConfigPropModel)>::empty());
            assert(nodes.take(0) =~= Seq::<NodeModel>::empty());
        } else {
            self.lemma_parse_prop_nodes(file, k - 1);
            let (key, p) = self.props[k - 1];
            assert(nodes.take(k) =~= nodes.take(k - 1).push(nodes[k - 1]));
            ConfigModel::empty().lemma_with_nodes_push(file, nodes.take(k - 1), nodes[k - 1]);
            assert(nodes[k - 1] == p.node(key));
            p.lemma_parse_node(file, key);
            let front = self.props.take(k - 1);
            if has_key(front, key) {
                let i = choose|i: int| 0 <= i < front.len() && (#[trigger] front[i]).0 == key;
                assert(front[i] == self.props[i]);
                assert(false);
            }
            lemma_inserted_new(front, key, p);
            assert(front.push((key, p)) =~= self.props.take(k));
        }
    }

    /// The `config` node that declares well-formed options is read back as
    /// those options.
    pub proof fn lemma_parse_node(self, file: Seq<char>)
        requires
            self.well_formed(),
        ensures
            ConfigModel::parse(file, self.node()) == Ok::<ConfigModel, UsageErrModel>(self),
    {
        self.lemma_parse_prop_nodes(file, self.props.len() as int);
        assert(self.prop_nodes().take(self.props.len() as int) =~= self.prop_nodes());
        assert(self.props.take(self.props.len() as int) =~= self.props);
    }
}

impl SpecConfigProp {
    /// An option without a default, a help text or a kind of value.
    pub fn new() -> (r: SpecConfigProp)
        ensures
            r@ == ConfigPropModel::empty(),
    {
        SpecConfigProp { default: None, help: None, data_type: SpecDataTypes::Null }
    }

    /// A copy of this option.
    pub fn duplicate(&self) -> (r: SpecConfigProp)
        ensures
            r@ == self@,
    {
        SpecConfigProp {
            default: clone_option(&self.default),
            help: clone_option(&self.help),
            data_type: self.data_type,
        }
    }

    /// The option after one entry of its node was read.
    pub fn with_entry(self, ctx: &ParsingContext, e: &Entry) -> (r: Result<SpecConfigProp, UsageErr>)
        ensures
            result_view(r) == self@.with_entry(ctx.file@, e@),
    {
        let mut prop = self;
        match &e.name {
            None => Ok(prop),
            Some(key) => {
                if str_eq(key.as_str(), "default") {
                    match e.ensure_string(ctx) {
                        Ok(s) => {
                            prop.default = Some(s);
                            Ok(prop)
                        },
                        Err(x) => Err(x),
                    }
                } else if str_eq(key.as_str(), "help") {
                    match e.ensure_string(ctx) {
                        Ok(s) => {
                            prop.help = Some(s);
                            Ok(prop)
                        },
                        Err(x) => Err(x),
                    }
                } else if str_eq(key.as_str(), "type") {
                    match read_data_type(ctx, e) {
                        Ok(t) => {
                            prop.data_type = t;
                            Ok(prop)
                        },
                        Err(x) => Err(x),
                    }
                } else {
                    Err(
                        UsageErr::UnsupportedSpecKey {
                            file: ctx.file.clone(),
                            span: e.span,
                            key: key.clone(),
                        },
                    )
                }
            },
        }
    }

    /// Reads the key and the option that a `prop` node declares.
    pub fn parse(ctx: &ParsingContext, node: &Node) -> (r: Result<(String, SpecConfigProp), UsageErr>)
        ensures
            match r {
                Ok((key, p)) => ConfigPropModel::parse(ctx.file@, node@) == Ok::<
                    (Seq<char>, ConfigPropModel),
                    UsageErrModel,
                >((key@, p@)),
                Err(x) => ConfigPropModel::parse(ctx.file@, node@) == Err::<
                    (Seq<char>, ConfigPropModel),
                    UsageErrModel,
                >(x@),
            },
    {
        let key = match node.first_string(ctx) {
            Ok(key) => key,
            Err(x) => {
                return Err(x);
            },
        };
        let mut prop = SpecConfigProp::new();
        let ghost base = prop@;
        let ghost all = entries_view(node.entries@);
        let mut k: usize = 0;
        proof {
            assert(all.take(0) =~= Seq::<EntryModel>::empty());
        }
        while k < node.entries.len()
            invariant
                k <= node.entries.len(),
                all == node@.entries,
                node@.first_string(ctx.file@) == Ok::<Seq<char>, UsageErrModel>(key@),
                base == ConfigPropModel::empty(),
                base.with_entries(ctx.file@, all.take(k as int)) == Ok::<
                    ConfigPropModel,
                    UsageErrModel,
                >(prop@),
            decreases node.entries.len() - k,
        {
            proof {
                assert(all.take(k + 1) =~= all.take(k as int).push(all[k as int]));
                base.lemma_with_entries_push(ctx.file@, all.take(k as int), all[k as int]);
            }
            prop = match prop.with_entry(ctx, &node.entries[k]) {
                Ok(p) => p,
                Err(x) => {
                    proof {
                        base.lemma_with_entries_stops(ctx.file@, all, k + 1);
                    }
                    return Err(x);
                },
            };
            k = k + 1;
        }
        proof {
            assert(all.take(k as int) =~= all);
        }
        Ok((key, prop))
    }

    /// The node that declares this option under `key`.
    pub fn to_node(&self, key: &str) -> (r: Node)
        ensures
            r@ == self@.node(key@),
    {
        let mut entries: Vec<Entry> = Vec::new();
        entries.push(Entry::argument(key.to_owned()));
        proof {
            assert(entries_view(entries@) =~= seq![EntryModel::argument(key@)]);
        }
        match &self.default {
            Some(d) => {
                let e = Entry::text_property("default", d.clone());
                proof {
                    assert(entries_view(entries@.push(e)) =~= entries_view(entries@).push(e@));
                }
                entries.push(e);
            },
            None => {},
        }
        match &self.help {
            Some(h) => {
                let e = Entry::text_property("help", h.clone());
                proof {
                    assert(entries_view(entries@.push(e)) =~= entries_view(entries@).push(e@));
                }
                entries.push(e);
            },
            None => {},
        }
        match self.data_type {
            SpecDataTypes::Null => {},
            _ => {
                let e = Entry::text_property("type", self.data_type.as_str().to_owned());
                proof {
                    assert(entries_view(entries@.push(e)) =~= entries_view(entries@).push(e@));
                }
                entries.push(e);
            },
        }
        Node { name: "prop".to_owned(), entries, children: None, span: Span::empty() }
    }
}

impl SpecConfig {
    /// No options.
    pub fn new() -> (r: SpecConfig)
        ensures
            r@ == ConfigModel::empty(),
    {
        let r = SpecConfig { props: Vec::new() };
        proof {
            assert(r@.props =~= Seq::<(Seq<char>, ConfigPropModel)>::empty());
        }
        r
    }

    /// Whether there is no option.
    pub fn is_empty(&self) -> (r: bool)
        ensures
            r == self@.is_empty(),
    {
        self.props.len() == 0
    }

    /// Gives `key` the option `prop`: an option that had the key is
    /// replaced where it stood, otherwise the new one comes last.
    pub fn insert(&mut self, key: String, prop: SpecConfigProp)
        ensures
            final(self)@.props == inserted(old(self)@.props, key@, prop@),
    {
        let ghost before = self@.props;
        proof {
            lemma_position(before, key@);
        }
        let mut i: usize = 0;
        while i < self.props.len()
            invariant
                i <= self.props.len(),
                self@.props == before,
                before == old(self)@.props,
                forall|j: int| 0 <= j < i ==> (#[trigger] before[j]).0 != key@,
                0 <= position(before, key@) <= before.len(),
                position(before, key@) < before.len() ==> before[position(before, key@)].0 == key@,
                forall|j: int| 0 <= j < position(before, key@) ==> (#[trigger] before[j]).0 != key@,
            decreases self.props.len() - i,
        {
            assert(before[i as int].0 == self.props[i as int].0@);
            if str_eq(self.props[i].0.as_str(), key.as_str()) {
                proof {
                    assert(position(before, key@) == i);
                    assert(props_view(self.props@.update(i as int, (key, prop))) =~= before.update(
                        i as int,
                        (key@, prop@),
                    ));
                }
                self.props.set(i, (key, prop));
                return ;
            }
            i = i + 1;
        }
        proof {
            if position(before, key@) < before.len() {
                assert(before[position(before, key@)].0 == key@);
            }
            assert(props_view(self.props@.push((key, prop))) =~= before.push((key@, prop@)));
        }
        self.props.push((key, prop));
    }

    /// Takes over the options of `other`: each is given to its key in turn,
    /// so where both have a key, the option of `other` stands.
    pub fn merge(&mut self, other: &SpecConfig)
        ensures
            final(self)@ == old(self)@.merge(other@),
    {
        let ghost base = self@.props;
        let ghost more = other@.props;
        let mut i: usize = 0;
        proof {
            assert(more.take(0) =~= Seq::<(Seq<char>, ConfigPropModel)>::empty());
        }
        while i < other.props.len()
            invariant
                i <= other.props.len(),
                more == other@.props,
                self@.props == inserted_all(base, more.take(i as int)),
            decreases other.props.len() - i,
        {
            proof {
                assert(more.take(i + 1).drop_last() =~= more.take(i as int));
                assert(more.take(i + 1).last() == more[i as int]);
                assert(more[i as int] == (other.props[i as int].0@, other.props[i as int].1@));
            }
            self.insert(other.props[i].0.clone(), other.props[i].1.duplicate());
            i = i + 1;
        }
        proof {
            assert(more.take(i as int) =~= more);
        }
    }

    /// Reads the options that a `config` node declares.
    ///
    /// Each child of the node must be a `prop` node; a child of any other
    /// name is an error at that child.
    pub fn parse(ctx: &ParsingContext, node: &Node) -> (r: Result<SpecConfig, UsageErr>)
        ensures
            result_view(r) == ConfigModel::parse(ctx.file@, node@),
            r is Ok ==> r->Ok_0@.well_formed(),
    {
        let body = node.body();
        let mut config = SpecConfig::new();
        let ghost all = nodes_view(body@);
        let ghost base = ConfigModel::empty();
        let mut k: usize = 0;
        proof {
            assert(all.take(0) =~= Seq::<NodeModel>::empty());
            base.lemma_with_nodes_well_formed(ctx.file@, all);
        }
        while k < body.len()
            invariant
                k <= body.len(),
                all == nodes_view(body@),
                all == node@.body(),
                base == ConfigModel::empty(),
                base.with_nodes(ctx.file@, all.take(k as int)) == Ok::<ConfigModel, UsageErrModel>(
                    config@,
                ),
                match base.with_nodes(ctx.file@, all) {
                    Ok(c) => c.well_formed(),
                    Err(_) => true,
                },
            decreases body.len() - k,
        {
            proof {
                assert(all.take(k + 1) =~= all.take(k as int).push(all[k as int]));
                base.lemma_with_nodes_push(ctx.file@, all.take(k as int), all[k as int]);
                assert(all[k as int] == body[k as int]@);
            }
            let child = &body[k];
            if str_eq(child.name(), "prop") {
                match SpecConfigProp::parse(ctx, child) {
                    Ok((key, prop)) => {
                        config.insert(key, prop);
                    },
                    Err(x) => {
                        proof {
                            base.lemma_with_nodes_stops(ctx.file@, all, k + 1);
                        }
                        return Err(x);
                    },
                }
            } else {
                proof {
                    base.lemma_with_nodes_stops(ctx.file@, all, k + 1);
                }
                return Err(
                    UsageErr::UnsupportedSpecKey {
                        file: ctx.file.clone(),
                        span: child.span,
                        key: child.name.clone(),
                    },
                );
            }
            k = k + 1;
        }
        proof {
            assert(all.take(k as int) =~= all);
        }
        Ok(config)
    }

    /// The `config` node that declares these options.
    pub fn to_node(&self) -> (r: Node)
        ensures
            r@ == self@.node(),
    {
        let mut children: Vec<Node> = Vec::new();
        let mut i: usize = 0;
        let ghost want = self@.prop_nodes();
        proof {
            assert(nodes_view(children@) =~= want.take(0));
        }
        while i < self.props.len()
            invariant
                i <= self.props.len(),
                want == self@.prop_nodes(),
                nodes_view(children@) == want.take(i as int),
            decreases self.props.len() - i,
        {
            let n = self.props[i].1.to_node(self.props[i].0.as_str());
            proof {
                assert(self@.props[i as int] == (self.props[i as int].0@, self.props[i as int].1@));
                assert(nodes_view(children@.push(n)) =~= nodes_view(children@).push(n@));
                assert(want.take(i + 1) =~= want.take(i as int).push(want[i as int]));
            }
            children.push(n);
            i = i + 1;
        }
        proof {
            assert(want.take(i as int) =~= want);
            assert(entries_view(Seq::<Entry>::empty()) =~= Seq::<EntryModel>::empty());
        }
        Node {
            name: "config".to_owned(),
            entries: Vec::new(),
            children: Some(children),
            span: Span::empty(),
        }
    }
}

} // verus!

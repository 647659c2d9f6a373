//! The tree of nodes that a document is made of, and typed access to what a
//! node holds.
//!
//! A node has a name, a list of entries and, optionally, a block of child
//! nodes. An entry is a value; one with a name is a property of the node,
//! one without is a positional argument.
use vstd::prelude::*;
use crate::context::ParsingContext;
use crate::data_types::SpecDataTypes;
use crate::error::{Span, UsageErr, UsageErrModel};
use crate::keyed::{
    inserted, inserted_all, latest, lemma_position, lemma_value_of_inserted_all, position, value_of,
};
use crate::text::str_eq;

verus! {

/// A value of a document. The digits of a floating-point number are not kept.
#[derive(Debug, Clone)]
pub enum Value {
    String(String),
    Integer(i64),
    Float,
    Boolean(bool),
    Null,
}

/// What a `Value` stands for.
pub enum ValueModel {
    String(Seq<char>),
    Integer(i64),
    Float,
    Boolean(bool),
    Null,
}

impl View for Value {
    type V = ValueModel;

    open spec fn view(&self) -> ValueModel {
        match *self {
            Value::String(s) => ValueModel::String(s@),
            Value::Integer(i) => ValueModel::Integer(i),
            Value::Float => ValueModel::Float,
            Value::Boolean(b) => ValueModel::Boolean(b),
            Value::Null => ValueModel::Null,
        }
    }
}

/// One value of a node, with its key if it is a property.
#[derive(Debug, Clone)]
pub struct Entry {
    pub name: Option<String>,
    pub value: Value,
    pub span: Span,
}

/// What an `Entry` stands for.
pub struct EntryModel {
    pub name: Option<Seq<char>>,
    pub value: ValueModel,
    pub span: Span,
}

impl View for Entry {
    type V = EntryModel;

    open spec fn view(&self) -> EntryModel {
        EntryModel {
            name: match self.name {
                Some(n) => Some(n@),
                None => None,
            },
            value: self.value@,
            span: self.span,
        }
    }
}

/// One node of a document.
#[derive(Debug)]
pub struct Node {
    pub name: String,
    pub entries: Vec<Entry>,
    pub children: Option<Vec<Node>>,
    pub span: Span,
}

/// What a `Node` stands for.
pub struct NodeModel {
    pub name: Seq<char>,
    pub entries: Seq<EntryModel>,
    pub children: Option<Seq<NodeModel>>,
    pub span: Span,
}

/// What a list of entries stands for.
pub open spec fn entries_view(entries: Seq<Entry>) -> Seq<EntryModel> {
    entries.map_values(|e: Entry| e@)
}

/// What a list of nodes stands for.
pub open spec fn nodes_view(nodes: Seq<Node>) -> Seq<NodeModel>
    decreases nodes, 0nat,
{
    Seq::new(
        nodes.len(),
        |i: int|
            if 0 <= i < nodes.len() {
                node_view(nodes[i])
            } else {
                arbitrary()
            },
    )
}

/// What a node stands for.
pub open spec fn node_view(node: Node) -> NodeModel
    decreases node, 1nat,
{
    NodeModel {
        name: node.name@,
        entries: entries_view(node.entries@),
        children: match node.children {
            Some(c) => Some(nodes_view(c@)),
            None => None,
        },
        span: node.span,
    }
}

impl View for Node {
    type V = NodeModel;

    open spec fn view(&self) -> NodeModel {
        node_view(*self)
    }
}

/// What a result stands for: the view of its value, or of its error.
pub open spec fn result_view<T: View>(r: Result<T, UsageErr>) -> Result<T::V, UsageErrModel> {
    match r {
        Ok(v) => Ok(v@),
        Err(e) => Err(e@),
    }
}

impl EntryModel {
    /// An argument that holds a text and claims no place in a source.
    pub open spec fn argument(text: Seq<char>) -> EntryModel {
        EntryModel { name: None, value: ValueModel::String(text), span: Span::zero() }
    }

    /// A property that holds a text and claims no place in a source.
    pub open spec fn text_property(key: Seq<char>, text: Seq<char>) -> EntryModel {
        EntryModel { name: Some(key), value: ValueModel::String(text), span: Span::zero() }
    }

    /// A property that holds a truth value and claims no place in a source.
    pub open spec fn bool_property(key: Seq<char>, value: bool) -> EntryModel {
        EntryModel { name: Some(key), value: ValueModel::Boolean(value), span: Span::zero() }
    }

    /// An argument is an entry without a key.
    pub open spec fn is_argument(self) -> bool {
        self.name is None
    }

    /// The text of a string value. Any other kind of value is a mismatch,
    /// reported at the entry.
    pub open spec fn as_string(self, file: Seq<char>) -> Result<Seq<char>, UsageErrModel> {
        match self.value {
            ValueModel::String(s) => Ok(s),
            _ => Err(
                UsageErrModel::TypeMismatch {
                    file,
                    span: self.span,
                    expected: SpecDataTypes::String,
                },
            ),
        }
    }

    /// The number of an integer. Any other kind of value is a mismatch,
    /// reported at the entry.
    pub open spec fn as_i64(self, file: Seq<char>) -> Result<i64, UsageErrModel> {
        match self.value {
            ValueModel::Integer(i) => Ok(i),
            _ => Err(
                UsageErrModel::TypeMismatch {
                    file,
                    span: self.span,
                    expected: SpecDataTypes::Integer,
                },
            ),
        }
    }

    /// The truth value of a boolean. Any other kind of value is a mismatch,
    /// reported at the entry.
    pub open spec fn as_bool(self, file: Seq<char>) -> Result<bool, UsageErrModel> {
        match self.value {
            ValueModel::Boolean(b) => Ok(b),
            _ => Err(
                UsageErrModel::TypeMismatch {
                    file,
                    span: self.span,
                    expected: SpecDataTypes::Boolean,
                },
            ),
        }
    }
}

impl NodeModel {
    /// The positional arguments of the node, in order.
    pub open spec fn arguments(self) -> Seq<EntryModel> {
        arguments_of(self.entries)
    }

    /// The argument at position `index`; a node with fewer arguments lacks
    /// it, which is reported at the node.
    pub open spec fn arg(self, file: Seq<char>, index: usize) -> Result<EntryModel, UsageErrModel> {
        if index < self.arguments().len() {
            Ok(self.arguments()[index as int])
        } else {
            Err(UsageErrModel::MissingPositionalArgument { file, span: self.span, index })
        }
    }

    /// The text of the first argument.
    pub open spec fn first_string(self, file: Seq<char>) -> Result<Seq<char>, UsageErrModel> {
        match self.arg(file, 0) {
            Ok(e) => e.as_string(file),
            Err(e) => Err(e),
        }
    }

    /// The properties of the node by key: each key once, in the order in
    /// which the keys first came, with the last entry that was given for
    /// it.
    pub open spec fn props(self) -> Seq<(Seq<char>, EntryModel)> {
        inserted_all(Seq::empty(), keyed_entries(self.entries))
    }

    /// The property `key`. Where a key is given more than once, the last
    /// entry counts.
    pub open spec fn prop(self, key: Seq<char>) -> Option<EntryModel> {
        last_with_key(self.entries, key)
    }

    /// The property `key` is what the properties of the node hold under
    /// that key.
    pub proof fn lemma_prop_of_props(self, key: Seq<char>)
        ensures
            self.prop(key) == value_of(self.props(), key),
    {
        lemma_latest_keyed(self.entries, key);
        lemma_value_of_inserted_all(Seq::empty(), keyed_entries(self.entries), key);
        lemma_position(Seq::<(Seq<char>, EntryModel)>::empty(), key);
    }

    /// The child nodes; a node without a block has none.
    pub open spec fn body(self) -> Seq<NodeModel> {
        match self.children {
            Some(c) => c,
            None => Seq::empty(),
        }
    }
}

/// Those of `entries` that are arguments, in order.
pub open spec fn arguments_of(entries: Seq<EntryModel>) -> Seq<EntryModel>
    decreases entries.len(),
{
    if entries.len() == 0 {
        Seq::empty()
    } else if entries.last().is_argument() {
        arguments_of(entries.drop_last()).push(entries.last())
    } else {
        arguments_of(entries.drop_last())
    }
}

/// The arguments of a list are those of any front part of it, followed by
/// those of the rest.
pub proof fn lemma_arguments_of_concat(a: Seq<EntryModel>, b: Seq<EntryModel>)
    ensures
        arguments_of(a + b) == arguments_of(a) + arguments_of(b),
    decreases b.len(),
{
    if b.len() == 0 {
        assert(a + b =~= a);
        assert(arguments_of(a) + arguments_of(b) =~= arguments_of(a));
    } else {
        assert((a + b).drop_last() =~= a + b.drop_last());
        assert((a + b).last() == b.last());
        lemma_arguments_of_concat(a, b.drop_last());
        if b.last().is_argument() {
            assert(arguments_of(a + b) =~= arguments_of(a) + arguments_of(b));
        }
    }
}

/// Those of `entries` that are properties, each with its key, in order.
pub open spec fn keyed_entries(entries: Seq<EntryModel>) -> Seq<(Seq<char>, EntryModel)>
    decreases entries.len(),
{
    if entries.len() == 0 {
        Seq::empty()
    } else {
        match entries.last().name {
            Some(key) => keyed_entries(entries.drop_last()).push((key, entries.last())),
            None => keyed_entries(entries.drop_last()),
        }
    }
}

/// The last entry with a key is the last of the properties with that key.
pub proof fn lemma_latest_keyed(entries: Seq<EntryModel>, key: Seq<char>)
    ensures
        latest(keyed_entries(entries), key) == last_with_key(entries, key),
    decreases entries.len(),
{
    if entries.len() > 0 {
        lemma_latest_keyed(entries.drop_last(), key);
        if let Some(k) = entries.last().name {
            let front = keyed_entries(entries.drop_last());
            assert(front.push((k, entries.last())).drop_last() =~= front);
        }
    }
}

/// What a list of properties stands for: each with its key.
pub open spec fn props_view(props: Seq<&Entry>) -> Seq<(Seq<char>, EntryModel)> {
    props.map_values(|e: &Entry| ((*e)@.name->0, (*e)@))
}

/// Whether each of the entries has a key.
pub open spec fn all_keyed(props: Seq<&Entry>) -> bool {
    forall|i: int| 0 <= i < props.len() ==> (*#[trigger] props[i])@.name is Some
}

/// Gives the key of `e` the entry `e`: an entry that had the key is
/// replaced where it stood, otherwise the new one comes last.
fn put_prop<'a>(props: &mut Vec<&'a Entry>, e: &'a Entry)
    requires
        e@.name is Some,
        all_keyed(old(props)@),
    ensures
        props_view(final(props)@) == inserted(props_view(old(props)@), e@.name->0, e@),
        all_keyed(final(props)@),
{
    let ghost before = props_view(props@);
    let ghost key = e@.name->0;
    proof {
        lemma_position(before, key);
    }
    let mut i: usize = 0;
    while i < props.len()
        invariant
            i <= props.len(),
            e@.name == Some(key),
            props_view(props@) == before,
            before == props_view(old(props)@),
            all_keyed(props@),
            forall|j: int| 0 <= j < i ==> (#[trigger] before[j]).0 != key,
            0 <= position(before, key) <= before.len(),
            position(before, key) < before.len() ==> before[position(before, key)].0 == key,
            forall|j: int| 0 <= j < position(before, key) ==> (#[trigger] before[j]).0 != key,
        decreases props.len() - i,
    {
        assert(before[i as int] == ((*props[i as int])@.name->0, (*props[i as int])@));
        let same = match (&props[i].name, &e.name) {
            (Some(a), Some(b)) => str_eq(a.as_str(), b.as_str()),
            (None, Some(_)) => false,
            _ => false,
        };
        if same {
            proof {
                assert(position(before, key) == i);
                assert(props_view(props@.update(i as int, e)) =~= before.update(i as int, (key, e@)));
            }
            props.set(i, e);
            return ;
        }
        i = i + 1;
    }
    proof {
        if position(before, key) < before.len() {
            assert(before[position(before, key)].0 == key);
        }
        assert(props_view(props@.push(e)) =~= before.push((key, e@)));
    }
    props.push(e);
}

/// The last of `entries` whose key is `key`.
pub open spec fn last_with_key(entries: Seq<EntryModel>, key: Seq<char>) -> Option<EntryModel>
    decreases entries.len(),
{
    if entries.len() == 0 {
        None
    } else if entries.last().name == Some(key) {
        Some(entries.last())
    } else {
        last_with_key(entries.drop_last(), key)
    }
}

impl Entry {
    /// An argument that holds `text`.
    pub fn argument(text: String) -> (r: Entry)
        ensures
            r@ == EntryModel::argument(text@),
    {
        Entry { name: None, value: Value::String(text), span: Span::empty() }
    }

    /// A property `key` that holds `text`.
    pub fn text_property(key: &str, text: String) -> (r: Entry)
        ensures
            r@ == EntryModel::text_property(key@, text@),
    {
        Entry { name: Some(key.to_owned()), value: Value::String(text), span: Span::empty() }
    }

    /// A property `key` that holds `value`.
    pub fn bool_property(key: &str, value: bool) -> (r: Entry)
        ensures
            r@ == EntryModel::bool_property(key@, value),
    {
        Entry { name: Some(key.to_owned()), value: Value::Boolean(value), span: Span::empty() }
    }

    /// The text of a string value, or a mismatch at this entry.
    pub fn ensure_string(&self, ctx: &ParsingContext) -> (r: Result<String, UsageErr>)
        ensures
            result_view(r) == self@.as_string(ctx.file@),
    {
        match &self.value {
            Value::String(s) => Ok(s.clone()),
            _ => Err(
                UsageErr::TypeMismatch {
                    file: ctx.file.clone(),
                    span: self.span,
                    expected: SpecDataTypes::String,
                },
            ),
        }
    }

    /// The number of an integer, or a mismatch at this entry.
    pub fn ensure_i64(&self, ctx: &ParsingContext) -> (r: Result<i64, UsageErr>)
        ensures
            match r {
                Ok(i) => self@.as_i64(ctx.file@) == Ok::<i64, UsageErrModel>(i),
                Err(e) => self@.as_i64(ctx.file@) == Err::<i64, UsageErrModel>(e@),
            },
    {
        match &self.value {
            Value::Integer(i) => Ok(*i),
            _ => Err(
                UsageErr::TypeMismatch {
                    file: ctx.file.clone(),
                    span: self.span,
                    expected: SpecDataTypes::Integer,
                },
            ),
        }
    }

    /// The truth value of a boolean, or a mismatch at this entry.
    pub fn ensure_bool(&self, ctx: &ParsingContext) -> (r: Result<bool, UsageErr>)
        ensures
            match r {
                Ok(b) => self@.as_bool(ctx.file@) == Ok::<bool, UsageErrModel>(b),
                Err(e) => self@.as_bool(ctx.file@) == Err::<bool, UsageErrModel>(e@),
            },
    {
        match &self.value {
            Value::Boolean(b) => Ok(*b),
            _ => Err(
                UsageErr::TypeMismatch {
                    file: ctx.file.clone(),
                    span: self.span,
                    expected: SpecDataTypes::Boolean,
                },
            ),
        }
    }
}

impl Node {
    /// The name of the node.
    pub fn name(&self) -> (r: &str)
        ensures
            r@ == self@.name,
    {
        self.name.as_str()
    }

    /// The argument at position `index`, or an error at this node that says
    /// which argument is missing.
    pub fn arg(&self, ctx: &ParsingContext, index: usize) -> (r: Result<&Entry, UsageErr>)
        ensures
            result_view(r) == self@.arg(ctx.file@, index),
    {
        let ghost all = entries_view(self.entries@);
        let mut seen: usize = 0;
        let mut k: usize = 0;
        while k < self.entries.len()
            invariant
                k <= self.entries.len(),
                all == entries_view(self.entries@),
                all == self@.entries,
                seen == arguments_of(all.take(k as int)).len(),
                seen <= index,
                seen <= k,
            decreases self.entries.len() - k,
        {
            proof {
                assert(all.take(k + 1).drop_last() =~= all.take(k as int));
                assert(all.take(k + 1).last() == all[k as int]);
                assert(all =~= all.take(k + 1) + all.skip(k + 1));
                lemma_arguments_of_concat(all.take(k + 1), all.skip(k + 1));
            }
            if self.entries[k].name.is_none() {
                if seen == index {
                    return Ok(&self.entries[k]);
                }
                seen = seen + 1;
            }
            k = k + 1;
        }
        proof {
            assert(all.take(k as int) =~= all);
        }
        Err(
            UsageErr::MissingPositionalArgument {
                file: ctx.file.clone(),
                span: self.span,
                index,
            },
        )
    }

    /// The text of the first argument.
    pub fn first_string(&self, ctx: &ParsingContext) -> (r: Result<String, UsageErr>)
        ensures
            result_view(r) == self@.first_string(ctx.file@),
    {
        match self.arg(ctx, 0) {
            Ok(e) => e.ensure_string(ctx),
            Err(e) => Err(e),
        }
    }

    /// The properties of the node by key: each key once, in the order in
    /// which the keys first came, with the last entry given for it.
    pub fn props(&self) -> (r: Vec<&Entry>)
        ensures
            props_view(r@) == self@.props(),
    {
        let ghost all = entries_view(self.entries@);
        let mut out: Vec<&Entry> = Vec::new();
        let mut k: usize = 0;
        proof {
            assert(props_view(out@) =~= Seq::<(Seq<char>, EntryModel)>::empty());
            assert(all.take(0) =~= Seq::<EntryModel>::empty());
        }
        while k < self.entries.len()
            invariant
                k <= self.entries.len(),
                all == entries_view(self.entries@),
                all == self@.entries,
                props_view(out@) == inserted_all(Seq::empty(), keyed_entries(all.take(k as int))),
                all_keyed(out@),
            decreases self.entries.len() - k,
        {
            proof {
                assert(all.take(k + 1).drop_last() =~= all.take(k as int));
                assert(all.take(k + 1).last() == self.entries[k as int]@);
                let front = keyed_entries(all.take(k as int));
                if let Some(key) = self.entries[k as int]@.name {
                    assert(front.push((key, self.entries[k as int]@)).drop_last() =~= front);
                }
            }
            if self.entries[k].name.is_some() {
                put_prop(&mut out, &self.entries[k]);
            }
            k = k + 1;
        }
        proof {
            assert(all.take(k as int) =~= all);
        }
        out
    }

    /// The property `key`, if the node has it.
    pub fn prop(&self, key: &str) -> (r: Option<&Entry>)
        ensures
            match r {
                Some(e) => self@.prop(key@) == Some(e@),
                None => self@.prop(key@) is None,
            },
    {
        let ghost all = entries_view(self.entries@);
        let mut k: usize = self.entries.len();
        proof {
            assert(all.take(k as int) =~= all);
        }
        while k > 0
            invariant
                k <= self.entries.len(),
                all == entries_view(self.entries@),
                last_with_key(all, key@) == last_with_key(all.take(k as int), key@),
            decreases k,
        {
            proof {
                assert(all.take(k as int).drop_last() =~= all.take(k - 1));
                assert(all.take(k as int).last() == all[k - 1]);
            }
            k = k - 1;
            match &self.entries[k].name {
                Some(n) => {
                    if str_eq(n.as_str(), key) {
                        return Some(&self.entries[k]);
                    }
                },
                None => {},
            }
        }
        proof {
            assert(all.take(0).len() == 0);
        }
        None
    }

    /// The child nodes; a node without a block has none.
    pub fn body(&self) -> (r: &[Node])
        ensures
            nodes_view(r@) == self@.body(),
    {
        match &self.children {
            Some(c) => c.as_slice(),
            None => &[],
        }
    }
}

} // verus!

//! Positional arguments of a command.
//!
//! A document declares one as `arg "<name>"`, or `arg "[name]"` where it may
//! be left out, followed by the properties `help`, `required`, `default` and
//! `type`.
use vstd::prelude::*;
use crate::context::ParsingContext;
use crate::data_types::SpecDataTypes;
use crate::error::{Span, UsageErr, UsageErrModel};
use crate::node::{entries_view, result_view, Entry, EntryModel, Node, NodeModel};
use crate::text::{concat, option_view, slice, str_eq, to_chars};

verus! {

/// A positional argument.
#[derive(Debug, Clone)]
pub struct Arg {
    pub name: String,
    pub help: Option<String>,
    pub required: bool,
    pub default: Option<String>,
    pub data_type: SpecDataTypes,
}

/// What an `Arg` stands for.
pub struct ArgModel {
    pub name: Seq<char>,
    pub help: Option<Seq<char>>,
    pub required: bool,
    pub default: Option<Seq<char>>,
    pub data_type: SpecDataTypes,
}

impl View for Arg {
    type V = ArgModel;

    open spec fn view(&self) -> ArgModel {
        ArgModel {
            name: self.name@,
            help: option_view(self.help),
            required: self.required,
            default: option_view(self.default),
            data_type: self.data_type,
        }
    }
}

/// What a list of arguments stands for.
pub open spec fn args_view(args: Seq<Arg>) -> Seq<ArgModel> {
    args.map_values(|a: Arg| a@)
}

/// The nodes that declare arguments, in order.
pub open spec fn arg_nodes(args: Seq<ArgModel>) -> Seq<NodeModel> {
    args.map_values(|a: ArgModel| a.node())
}

/// The kind of value that the text of a `type` property names. A text that
/// names none is outside the vocabulary, reported at the entry.
pub open spec fn data_type_of(file: Seq<char>, e: EntryModel) -> Result<
    SpecDataTypes,
    UsageErrModel,
> {
    match e.as_string(file) {
        Ok(s) => match SpecDataTypes::named(s) {
            Some(t) => Ok(t),
            None => Err(UsageErrModel::UnsupportedSpecKey { file, span: e.span, key: s }),
        },
        Err(x) => Err(x),
    }
}

/// Reads the kind of value that a `type` property names.
pub fn read_data_type(ctx: &ParsingContext, e: &Entry) -> (r: Result<SpecDataTypes, UsageErr>)
    ensures
        match r {
            Ok(t) => data_type_of(ctx.file@, e@) == Ok::<SpecDataTypes, UsageErrModel>(t),
            Err(x) => data_type_of(ctx.file@, e@) == Err::<SpecDataTypes, UsageErrModel>(x@),
        },
{
    match e.ensure_string(ctx) {
        Ok(s) => match SpecDataTypes::from_name(s.as_str()) {
            Some(t) => Ok(t),
            None => Err(
                UsageErr::UnsupportedSpecKey { file: ctx.file.clone(), span: e.span, key: s },
            ),
        },
        Err(x) => Err(x),
    }
}

impl ArgModel {
    /// The argument that a declaration text stands for: `<name>` is a
    /// required one, `[name]` an optional one, and a text without such
    /// brackets is the name of a required one.
    pub open spec fn from_usage(text: Seq<char>) -> ArgModel {
        let bracketed = text.len() >= 2 && ((text.first() == '<' && text.last() == '>') || (
        text.first() == '[' && text.last() == ']'));
        ArgModel {
            name: if bracketed {
                text.subrange(1, text.len() - 1)
            } else {
                text
            },
            help: None,
            required: !(bracketed && text.first() == '['),
            default: None,
            data_type: SpecDataTypes::Null,
        }
    }

    /// The declaration text of the argument: its name in angle brackets
    /// where it is required, in square brackets where it is not.
    pub open spec fn usage(self) -> Seq<char> {
        if self.required {
            seq!['<'] + self.name + seq!['>']
        } else {
            seq!['['] + self.name + seq![']']
        }
    }

    /// The argument after one entry of its node was read. An argument of
    /// the node changes nothing; a property sets the field it names; a
    /// value of the wrong kind and a key outside the vocabulary are errors
    /// at the entry.
    pub open spec fn with_entry(self, file: Seq<char>, e: EntryModel) -> Result<
        ArgModel,
        UsageErrModel,
    > {
        match e.name {
            None => Ok(self),
            Some(key) => if key == "help"@ {
                match e.as_string(file) {
                    Ok(s) => Ok(ArgModel { help: Some(s), ..self }),
                    Err(x) => Err(x),
                }
            } else if key == "required"@ {
                match e.as_bool(file) {
                    Ok(b) => Ok(ArgModel { required: b, ..self }),
                    Err(x) => Err(x),
                }
            } else if key == "default"@ {
                match e.as_string(file) {
                    Ok(s) => Ok(ArgModel { default: Some(s), ..self }),
                    Err(x) => Err(x),
                }
            } else if key == "type"@ {
                match data_type_of(file, e) {
                    Ok(t) => Ok(ArgModel { data_type: t, ..self }),
                    Err(x) => Err(x),
                }
            } else {
                Err(UsageErrModel::UnsupportedSpecKey { file, span: e.span, key })
            },
        }
    }

    /// The argument after the entries were read in order; the first error
    /// ends the reading.
    pub open spec fn with_entries(self, file: Seq<char>, entries: Seq<EntryModel>) -> Result<
        ArgModel,
        UsageErrModel,
    >
        decreases entries.len(),
    {
        if entries.len() == 0 {
            Ok(self)
        } else {
            match self.with_entries(file, entries.drop_last()) {
                Ok(a) => a.with_entry(file, entries.last()),
                Err(x) => Err(x),
            }
        }
    }

    /// The argument that an `arg` node declares.
    pub open spec fn parse(file: Seq<char>, node: NodeModel) -> Result<ArgModel, UsageErrModel> {
        match node.first_string(file) {
            Ok(text) => ArgModel::from_usage(text).with_entries(file, node.entries),
            Err(x) => Err(x),
        }
    }

    /// The entries of the node that declares this argument.
    pub open spec fn entries(self) -> Seq<EntryModel> {
        let e0 = seq![EntryModel::argument(self.usage())];
        let e1 = match self.help {
            Some(h) => e0.push(EntryModel::text_property("help"@, h)),
            None => e0,
        };
        let e2 = match self.default {
            Some(d) => e1.push(EntryModel::text_property("default"@, d)),
            None => e1,
        };
        if self.data_type != SpecDataTypes::Null {
            e2.push(EntryModel::text_property("type"@, self.data_type.identifier()))
        } else {
            e2
        }
    }

    /// The node that declares this argument.
    pub open spec fn node(self) -> NodeModel {
        NodeModel { name: "arg"@, entries: self.entries(), children: None, span: Span::zero() }
    }

    /// Reading one more entry is one more step.
    pub proof fn lemma_with_entries_push(self, file: Seq<char>, entries: Seq<EntryModel>, e: EntryModel)
        ensures
            self.with_entries(file, entries.push(e)) == match self.with_entries(file, entries) {
                Ok(a) => a.with_entry(file, e),
                Err(x) => Err(x),
            },
    {
        assert(entries.push(e).drop_last() =~= entries);
        assert(entries.push(e).last() == e);
    }

    /// The declaration text of an argument stands for its name and for
    /// whether it is required.
    pub proof fn lemma_from_usage(self)
        ensures
            ArgModel::from_usage(self.usage()).name == self.name,
            ArgModel::from_usage(self.usage()).required == self.required,
    {
        let text = self.usage();
        assert(text.len() == self.name.len() + 2);
        assert(text.subrange(1, text.len() - 1) =~= self.name);
    }

    /// The node that declares an argument is read back as that argument.
    pub proof fn lemma_parse_node(self, file: Seq<char>)
        ensures
            ArgModel::parse(file, self.node()) == Ok::<ArgModel, UsageErrModel>(self),
    {
        reveal_strlit("help");
        reveal_strlit("required");
        reveal_strlit("default");
        reveal_strlit("type");
        assert("help"@.len() == 4 && "required"@.len() == 8 && "default"@.len() == 7 && "type"@.len()
            == 4);
        assert("help"@[0] == 'h' && "type"@[0] == 't');
        self.lemma_from_usage();
        self.data_type.lemma_named_identifier();
        let first = EntryModel::argument(self.usage());
        let a0 = ArgModel::from_usage(self.usage());
        let none = Seq::<EntryModel>::empty();
        let e0 = seq![first];
        assert(e0 =~= none.push(first));
        a0.lemma_with_entries_push(file, none, first);
        assert(a0.with_entries(file, e0) == Ok::<ArgModel, UsageErrModel>(a0));
        let e1 = match self.help {
            Some(h) => e0.push(EntryModel::text_property("help"@, h)),
            None => e0,
        };
        let a1 = ArgModel { help: self.help, ..a0 };
        if let Some(h) = self.help {
            a0.lemma_with_entries_push(file, e0, EntryModel::text_property("help"@, h));
        }
        assert(a0.with_entries(file, e1) == Ok::<ArgModel, UsageErrModel>(a1));
        let e2 = match self.default {
            Some(d) => e1.push(EntryModel::text_property("default"@, d)),
            None => e1,
        };
        let a2 = ArgModel { default: self.default, ..a1 };
        if let Some(d) = self.default {
            a0.lemma_with_entries_push(file, e1, EntryModel::text_property("default"@, d));
        }
        assert(a0.with_entries(file, e2) == Ok::<ArgModel, UsageErrModel>(a2));
        if self.data_type != SpecDataTypes::Null {
            a0.lemma_with_entries_push(
                file,
                e2,
                EntryModel::text_property("type"@, self.data_type.identifier()),
            );
        }
        assert(a0.with_entries(file, self.entries()) == Ok::<ArgModel, UsageErrModel>(self));
        lemma_first_argument(self.entries(), first);
    }
}

/// Where the first entry of a list is an argument, and no later one is, it
/// is the only argument of the list.
pub proof fn lemma_first_argument(entries: Seq<EntryModel>, first: EntryModel)
    requires
        entries.len() > 0,
        entries[0] == first,
        first.is_argument(),
        forall|i: int| 0 < i < entries.len() ==> !(#[trigger] entries[i]).is_argument(),
    ensures
        crate::node::arguments_of(entries) == seq![first],
    decreases entries.len(),
{
    if entries.len() == 1 {
        assert(entries.drop_last().len() == 0);
        assert(crate::node::arguments_of(entries.drop_last()) =~= Seq::<EntryModel>::empty());
        assert(crate::node::arguments_of(entries) =~= seq![first]);
    } else {
        let front = entries.drop_last();
        assert(front[0] == first);
        assert forall|i: int| 0 < i < front.len() implies !(#[trigger] front[i]).is_argument() by {
            assert(front[i] == entries[i]);
        }
        lemma_first_argument(front, first);
        assert(!entries[entries.len() - 1].is_argument());
    }
}

impl Arg {
    /// The argument that a declaration text stands for.
    pub fn from_usage(text: &str) -> (r: Arg)
        ensures
            r@ == ArgModel::from_usage(text@),
    {
        let chars = to_chars(text);
        let n = chars.len();
        let angle = n >= 2 && chars[0] == '<' && chars[n - 1] == '>';
        let square = n >= 2 && chars[0] == '[' && chars[n - 1] == ']';
        let name = if angle || square {
            slice(text, 1, n - 1)
        } else {
            text.to_owned()
        };
        Arg { name, help: None, required: !square, default: None, data_type: SpecDataTypes::Null }
    }

    /// The declaration text of the argument.
    pub fn usage(&self) -> (r: String)
        ensures
            r@ == self@.usage(),
    {
        if self.required {
            let mut s = concat("<", self.name.as_str());
            s.append(">");
            proof {
                reveal_strlit("<");
                reveal_strlit(">");
                assert("<"@ =~= seq!['<']);
                assert(">"@ =~= seq!['>']);
            }
            s
        } else {
            let mut s = concat("[", self.name.as_str());
            s.append("]");
            proof {
                reveal_strlit("[");
                reveal_strlit("]");
                assert("["@ =~= seq!['[']);
                assert("]"@ =~= seq![']']);
            }
            s
        }
    }

    /// The argument after one entry of its node was read.
    pub fn with_entry(self, ctx: &ParsingContext, e: &Entry) -> (r: Result<Arg, UsageErr>)
        ensures
            result_view(r) == self@.with_entry(ctx.file@, e@),
    {
        let mut arg = self;
        match &e.name {
            None => Ok(arg),
            Some(key) => {
                if str_eq(key.as_str(), "help") {
                    match e.ensure_string(ctx) {
                        Ok(s) => {
                            arg.help = Some(s);
                            Ok(arg)
                        },
                        Err(x) => Err(x),
                    }
                } else if str_eq(key.as_str(), "required") {
                    match e.ensure_bool(ctx) {
                        Ok(b) => {
                            arg.required = b;
                            Ok(arg)
                        },
                        Err(x) => Err(x),
                    }
                } else if str_eq(key.as_str(), "default") {
                    match e.ensure_string(ctx) {
                        Ok(s) => {
                            arg.default = Some(s);
                            Ok(arg)
                        },
                        Err(x) => Err(x),
                    }
                } else if str_eq(key.as_str(), "type") {
                    match read_data_type(ctx, e) {
                        Ok(t) => {
                            arg.data_type = t;
                            Ok(arg)
                        },
                        Err(x) => Err(x),
                    }
                } else {
                    Err(
                        UsageErr::UnsupportedSpecKey {
                            file: ctx.file.clone(),
                            span: e.span,
                            key: key.clone(),
                        },
                    )
                }
            },
        }
    }

    /// Reads the argument that an `arg` node declares.
    ///
    /// The first argument of the node is the declaration text; a node
    /// without one, or with another kind of value there, is an error. Then
    /// each property sets its field, in the order of the node.
    pub fn parse(ctx: &ParsingContext, node: &Node) -> (r: Result<Arg, UsageErr>)
        ensures
            result_view(r) == ArgModel::parse(ctx.file@, node@),
    {
        let text = match node.first_string(ctx) {
            Ok(text) => text,
            Err(x) => {
                return Err(x);
            },
        };
        let mut arg = Arg::from_usage(text.as_str());
        let ghost base = arg@;
        let ghost all = entries_view(node.entries@);
        let mut k: usize = 0;
        proof {
            assert(all.take(0) =~= Seq::<EntryModel>::empty());
        }
        while k < node.entries.len()
            invariant
                k <= node.entries.len(),
                all == node@.entries,
                node@.first_string(ctx.file@) == Ok::<Seq<char>, UsageErrModel>(text@),
                base == ArgModel::from_usage(text@),
                base.with_entries(ctx.file@, all.take(k as int)) == Ok::<ArgModel, UsageErrModel>(
                    arg@,
                ),
            decreases node.entries.len() - k,
        {
            proof {
                assert(all.take(k + 1) =~= all.take(k as int).push(all[k as int]));
                base.lemma_with_entries_push(ctx.file@, all.take(k as int), all[k as int]);
            }
            arg = match arg.with_entry(ctx, &node.entries[k]) {
                Ok(a) => a,
                Err(x) => {
                    proof {
                        lemma_with_entries_stops(base, ctx.file@, all, k + 1);
                    }
                    return Err(x);
                },
            };
            k = k + 1;
        }
        proof {
            assert(all.take(k as int) =~= all);
        }
        Ok(arg)
    }

    /// The node that declares this argument.
    pub fn to_node(&self) -> (r: Node)
        ensures
            r@ == self@.node(),
    {
        let mut entries: Vec<Entry> = Vec::new();
        entries.push(Entry::argument(self.usage()));
        proof {
            assert(entries_view(entries@) =~= seq![EntryModel::argument(self@.usage())]);
        }
        match &self.help {
            Some(h) => {
                let e = Entry::text_property("help", h.clone());
                proof {
                    assert(entries_view(entries@.push(e)) =~= entries_view(entries@).push(e@));
                }
                entries.push(e);
            },
            None => {},
        }
        match &self.default {
            Some(d) => {
                let e = Entry::text_property("default", d.clone());
                proof {
                    assert(entries_view(entries@.push(e)) =~= entries_view(entries@).push(e@));
                }
                entries.push(e);
            },
            None => {},
        }
        match self.data_type {
            SpecDataTypes::Null => {},
            _ => {
                let e = Entry::text_property("type", self.data_type.as_str().to_owned());
                proof {
                    assert(entries_view(entries@.push(e)) =~= entries_view(entries@).push(e@));
                }
                entries.push(e);
            },
        }
        Node { name: "arg".to_owned(), entries, children: None, span: Span::empty() }
    }
}

/// An error in reading a front part of the entries is the error of reading
/// them all.
pub proof fn lemma_with_entries_stops(
    base: ArgModel,
    file: Seq<char>,
    entries: Seq<EntryModel>,
    k: int,
)
    requires
        0 <= k <= entries.len(),
        base.with_entries(file, entries.take(k)) is Err,
    ensures
        base.with_entries(file, entries) == base.with_entries(file, entries.take(k)),
    decreases entries.len() - k,
{
    if k == entries.len() {
        assert(entries.take(k) =~= entries);
    } else {
        assert(entries.take(k + 1) =~= entries.take(k).push(entries[k]));
        base.lemma_with_entries_push(file, entries.take(k), entries[k]);
        lemma_with_entries_stops(base, file, entries, k + 1);
    }
}

} // verus!

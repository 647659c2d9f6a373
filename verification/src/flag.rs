//! Flags of a command.
//!
//! A document declares one as `flag "-f,--force"`: the aliases of the flag,
//! set apart by commas or blanks, followed by the properties `help`,
//! `required`, `global`, `default` and `type`.
use vstd::prelude::*;
use crate::arg::{data_type_of, lemma_first_argument, read_data_type};
use crate::context::ParsingContext;
use crate::data_types::SpecDataTypes;
use crate::error::{Span, UsageErr, UsageErrModel};
use crate::node::{entries_view, result_view, Entry, EntryModel, Node, NodeModel};
use crate::text::{option_view, slice, str_eq, strings_view, to_chars};

verus! {

/// A flag.
///
/// `name` is the text of its declaration; `short` and `long` are the aliases
/// that the text holds, without their dashes.
#[derive(Debug, Clone)]
pub struct Flag {
    pub name: String,
    pub short: Vec<char>,
    pub long: Vec<String>,
    pub help: Option<String>,
    pub required: bool,
    pub global: bool,
    pub default: Option<String>,
    pub data_type: SpecDataTypes,
}

/// What a `Flag` stands for.
pub struct FlagModel {
    pub name: Seq<char>,
    pub short: Seq<char>,
    pub long: Seq<Seq<char>>,
    pub help: Option<Seq<char>>,
    pub required: bool,
    pub global: bool,
    pub default: Option<Seq<char>>,
    pub data_type: SpecDataTypes,
}

impl View for Flag {
    type V = FlagModel;

    open spec fn view(&self) -> FlagModel {
        FlagModel {
            name: self.name@,
            short: self.short@,
            long: strings_view(self.long@),
            help: option_view(self.help),
            required: self.required,
            global: self.global,
            default: option_view(self.default),
            data_type: self.data_type,
        }
    }
}

/// What a list of flags stands for.
pub open spec fn flags_view(flags: Seq<Flag>) -> Seq<FlagModel> {
    flags.map_values(|f: Flag| f@)
}

/// The nodes that declare flags, in order.
pub open spec fn flag_nodes(flags: Seq<FlagModel>) -> Seq<NodeModel> {
    flags.map_values(|f: FlagModel| f.node())
}

/// Short and long aliases, each list in the order of the declaration.
pub struct Aliases {
    pub short: Seq<char>,
    pub long: Seq<Seq<char>>,
}

/// A comma or a blank sets two aliases apart.
pub open spec fn is_separator(c: char) -> bool {
    c == ',' || c == ' '
}

impl Aliases {
    /// No aliases.
    pub open spec fn none() -> Aliases {
        Aliases { short: Seq::empty(), long: Seq::empty() }
    }

    /// The aliases with one more word of the declaration: two dashes and a
    /// name are a long alias, one dash and one character a short one, and
    /// any other word is none.
    pub open spec fn with_word(self, word: Seq<char>) -> Aliases {
        if word.len() > 2 && word[0] == '-' && word[1] == '-' {
            Aliases { long: self.long.push(word.skip(2)), ..self }
        } else if word.len() == 2 && word[0] == '-' && word[1] != '-' {
            Aliases { short: self.short.push(word[1]), ..self }
        } else {
            self
        }
    }
}

/// Where the word begins that the first `n` characters of `text` end in.
pub open spec fn word_start(text: Seq<char>, n: int) -> int
    decreases n,
{
    if n <= 0 {
        0
    } else if is_separator(text[n - 1]) {
        n
    } else {
        word_start(text, n - 1)
    }
}

/// The aliases in the words that end within the first `n` characters of
/// `text`.
pub open spec fn aliases_before(text: Seq<char>, n: int) -> Aliases
    decreases n,
{
    if n <= 0 {
        Aliases::none()
    } else if is_separator(text[n - 1]) {
        aliases_before(text, n - 1).with_word(text.subrange(word_start(text, n - 1), n - 1))
    } else {
        aliases_before(text, n - 1)
    }
}

/// The aliases that a declaration text holds.
pub open spec fn aliases_of(text: Seq<char>) -> Aliases {
    aliases_before(text, text.len() as int).with_word(
        text.subrange(word_start(text, text.len() as int), text.len() as int),
    )
}

impl FlagModel {
    /// No alias is given that the declaration text does not hold, and none
    /// is left out.
    pub open spec fn well_formed(self) -> bool {
        aliases_of(self.name) == (Aliases { short: self.short, long: self.long })
    }

    /// The flag that a declaration text stands for, before any property.
    pub open spec fn from_usage(text: Seq<char>) -> FlagModel {
        FlagModel {
            name: text,
            short: aliases_of(text).short,
            long: aliases_of(text).long,
            help: None,
            required: false,
            global: false,
            default: None,
            data_type: SpecDataTypes::Null,
        }
    }

    /// The flag after one entry of its node was read. An argument of the
    /// node changes nothing; a property sets the field it names; a value of
    /// the wrong kind and a key outside the vocabulary are errors at the
    /// entry.
    pub open spec fn with_entry(self, file: Seq<char>, e: EntryModel) -> Result<
        FlagModel,
        UsageErrModel,
    > {
        match e.name {
            None => Ok(self),
            Some(key) => if key == "help"@ {
                match e.as_string(file) {
                    Ok(s) => Ok(FlagModel { help: Some(s), ..self }),
                    Err(x) => Err(x),
                }
            } else if key == "required"@ {
                match e.as_bool(file) {
                    Ok(b) => Ok(FlagModel { required: b, ..self }),
                    Err(x) => Err(x),
                }
            } else if key == "global"@ {
                match e.as_bool(file) {
                    Ok(b) => Ok(FlagModel { global: b, ..self }),
                    Err(x) => Err(x),
                }
            } else if key == "default"@ {
                match e.as_string(file) {
                    Ok(s) => Ok(FlagModel { default: Some(s), ..self }),
                    Err(x) => Err(x),
                }
            } else if key == "type"@ {
                match data_type_of(file, e) {
                    Ok(t) => Ok(FlagModel { data_type: t, ..self }),
                    Err(x) => Err(x),
                }
            } else {
                Err(UsageErrModel::UnsupportedSpecKey { file, span: e.span, key })
            },
        }
    }

    /// The flag after the entries were read in order; the first error ends
    /// the reading.
    pub open spec fn with_entries(self, file: Seq<char>, entries: Seq<EntryModel>) -> Result<
        FlagModel,
        UsageErrModel,
    >
        decreases entries.len(),
    {
        if entries.len() == 0 {
            Ok(self)
        } else {
            match self.with_entries(file, entries.drop_last()) {
                Ok(f) => f.with_entry(file, entries.last()),
                Err(x) => Err(x),
            }
        }
    }

    /// The flag that a `flag` node declares.
    pub open spec fn parse(file: Seq<char>, node: NodeModel) -> Result<FlagModel, UsageErrModel> {
        match node.first_string(file) {
            Ok(text) => FlagModel::from_usage(text).with_entries(file, node.entries),
            Err(x) => Err(x),
        }
    }

    /// The entries of the node that declares this flag.
    pub open spec fn entries(self) -> Seq<EntryModel> {
        let e0 = seq![EntryModel::argument(self.name)];
        let e1 = match self.help {
            Some(h) => e0.push(EntryModel::text_property("help"@, h)),
            None => e0,
        };
        let e2 = if self.required {
            e1.push(EntryModel::bool_property("required"@, true))
        } else {
            e1
        };
        let e3 = if self.global {
            e2.push(EntryModel::bool_property("global"@, true))
        } else {
            e2
        };
        let e4 = match self.default {
            Some(d) => e3.push(EntryModel::text_property("default"@, d)),
            None => e3,
        };
        if self.data_type != SpecDataTypes::Null {
            e4.push(EntryModel::text_property("type"@, self.data_type.identifier()))
        } else {
            e4
        }
    }

    /// The node that declares this flag.
    pub open spec fn node(self) -> NodeModel {
        NodeModel { name: "flag"@, entries: self.entries(), children: None, span: Span::zero() }
    }

    /// Reading one more entry is one more step.
    pub proof fn lemma_with_entries_push(
        self,
        file: Seq<char>,
        entries: Seq<EntryModel>,
        e: EntryModel,
    )
        ensures
            self.with_entries(file, entries.push(e)) == match self.with_entries(file, entries) {
                Ok(f) => f.with_entry(file, e),
                Err(x) => Err(x),
            },
    {
        assert(entries.push(e).drop_last() =~= entries);
        assert(entries.push(e).last() == e);
    }

    /// An error in reading a front part of the entries is the error of
    /// reading them all.
    pub proof fn lemma_with_entries_stops(self, file: Seq<char>, entries: Seq<EntryModel>, k: int)
        requires
            0 <= k <= entries.len(),
            self.with_entries(file, entries.take(k)) is Err,
        ensures
            self.with_entries(file, entries) == self.with_entries(file, entries.take(k)),
        decreases entries.len() - k,
    {
        if k == entries.len() {
            assert(entries.take(k) =~= entries);
        } else {
            assert(entries.take(k + 1) =~= entries.take(k).push(entries[k]));
            self.lemma_with_entries_push(file, entries.take(k), entries[k]);
            self.lemma_with_entries_stops(file, entries, k + 1);
        }
    }

    /// Reading entries keeps the declaration text and the aliases.
    pub proof fn lemma_with_entries_keeps_aliases(self, file: Seq<char>, entries: Seq<EntryModel>)
        ensures
            match self.with_entries(file, entries) {
                Ok(f) => f.name == self.name && f.short == self.short && f.long == self.long,
                Err(_) => true,
            },
        decreases entries.len(),
    {
        if entries.len() > 0 {
            self.lemma_with_entries_keeps_aliases(file, entries.drop_last());
        }
    }

    /// A flag that was read from a node is well formed.
    pub proof fn lemma_parse_well_formed(file: Seq<char>, node: NodeModel)
        ensures
            match FlagModel::parse(file, node) {
                Ok(f) => f.well_formed(),
                Err(_) => true,
            },
    {
        if let Ok(text) = node.first_string(file) {
            FlagModel::from_usage(text).lemma_with_entries_keeps_aliases(file, node.entries);
        }
    }

    /// The node that declares a well-formed flag is read back as that flag.
    pub proof fn lemma_parse_node(self, file: Seq<char>)
        requires
            self.well_formed(),
        ensures
            FlagModel::parse(file, self.node()) == Ok::<FlagModel, UsageErrModel>(self),
    {
        reveal_strlit("help");
        reveal_strlit("required");
        reveal_strlit("global");
        reveal_strlit("default");
        reveal_strlit("type");
        assert("help"@.len() == 4 && "required"@.len() == 8 && "default"@.len() == 7 && "type"@.len()
            == 4 && "global"@.len() == 6);
        assert("help"@[0] == 'h' && "type"@[0] == 't');
        self.data_type.lemma_named_identifier();
        let first = EntryModel::argument(self.name);
        let f0 = FlagModel::from_usage(self.name);
        let none = Seq::<EntryModel>::empty();
        let e0 = seq![first];
        assert(e0 =~= none.push(first));
        f0.lemma_with_entries_push(file, none, first);
        assert(f0.with_entries(file, e0) == Ok::<FlagModel, UsageErrModel>(f0));
        let e1 = match self.help {
            Some(h) => e0.push(EntryModel::text_property("help"@, h)),
            None => e0,
        };
        let f1 = FlagModel { help: self.help, ..f0 };
        if let Some(h) = self.help {
            f0.lemma_with_entries_push(file, e0, EntryModel::text_property("help"@, h));
        }
        assert(f0.with_entries(file, e1) == Ok::<FlagModel, UsageErrModel>(f1));
        let e2 = if self.required {
            e1.push(EntryModel::bool_property("required"@, true))
        } else {
            e1
        };
        let f2 = FlagModel { required: self.required, ..f1 };
        if self.required {
            f0.lemma_with_entries_push(file, e1, EntryModel::bool_property("required"@, true));
        }
        assert(f0.with_entries(file, e2) == Ok::<FlagModel, UsageErrModel>(f2));
        let e3 = if self.global {
            e2.push(EntryModel::bool_property("global"@, true))
        } else {
            e2
        };
        let f3 = FlagModel { global: self.global, ..f2 };
        if self.global {
            f0.lemma_with_entries_push(file, e2, EntryModel::bool_property("global"@, true));
        }
        assert(f0.with_entries(file, e3) == Ok::<FlagModel, UsageErrModel>(f3));
        let e4 = match self.default {
            Some(d) => e3.push(EntryModel::text_property("default"@, d)),
            None => e3,
        };
        let f4 = FlagModel { default: self.default, ..f3 };
        if let Some(d) = self.default {
            f0.lemma_with_entries_push(file, e3, EntryModel::text_property("default"@, d));
        }
        assert(f0.with_entries(file, e4) == Ok::<FlagModel, UsageErrModel>(f4));
        if self.data_type != SpecDataTypes::Null {
            f0.lemma_with_entries_push(
                file,
                e4,
                EntryModel::text_property("type"@, self.data_type.identifier()),
            );
        }
        assert(f0.with_entries(file, self.entries()) == Ok::<FlagModel, UsageErrModel>(self));
        lemma_first_argument(self.entries(), first);
    }
}

/// Adds the alias, if it is one, that the word from `start` to `end` of
/// the text holds.
fn push_word(
    text: &str,
    chars: &Vec<char>,
    start: usize,
    end: usize,
    short: &mut Vec<char>,
    long: &mut Vec<String>,
)
    requires
        chars@ == text@,
        start <= end <= chars.len(),
    ensures
        (Aliases { short: final(short)@, long: strings_view(final(long)@) }) == (Aliases {
            short: old(short)@,
            long: strings_view(old(long)@),
        }).with_word(text@.subrange(start as int, end as int)),
{
    let len = end - start;
    let ghost word = text@.subrange(start as int, end as int);
    if len > 2 && chars[start] == '-' && chars[start + 1] == '-' {
        let name = slice(text, start + 2, end);
        proof {
            assert(name@ =~= word.skip(2));
            assert(strings_view(long@.push(name)) =~= strings_view(long@).push(name@));
        }
        long.push(name);
    } else if len == 2 && chars[start] == '-' && chars[start + 1] != '-' {
        short.push(chars[start + 1]);
    }
}

/// Reads the aliases that a declaration text holds.
pub fn read_aliases(text: &str) -> (r: (Vec<char>, Vec<String>))
    ensures
        aliases_of(text@) == (Aliases { short: r.0@, long: strings_view(r.1@) }),
{
    let chars = to_chars(text);
    let n = chars.len();
    let mut short: Vec<char> = Vec::new();
    let mut long: Vec<String> = Vec::new();
    let mut start: usize = 0;
    let mut k: usize = 0;
    proof {
        assert(strings_view(long@) =~= Seq::<Seq<char>>::empty());
    }
    while k < n
        invariant
            k <= n,
            n == chars.len(),
            chars@ == text@,
            start <= k,
            start == word_start(text@, k as int),
            aliases_before(text@, k as int) == (Aliases {
                short: short@,
                long: strings_view(long@),
            }),
        decreases n - k,
    {
        if chars[k] == ',' || chars[k] == ' ' {
            push_word(text, &chars, start, k, &mut short, &mut long);
            start = k + 1;
        }
        k = k + 1;
    }
    push_word(text, &chars, start, n, &mut short, &mut long);
    (short, long)
}

impl Flag {
    /// The flag that a declaration text stands for, before any property.
    pub fn from_usage(text: &str) -> (r: Flag)
        ensures
            r@ == FlagModel::from_usage(text@),
    {
        let (short, long) = read_aliases(text);
        Flag {
            name: text.to_owned(),
            short,
            long,
            help: None,
            required: false,
            global: false,
            default: None,
            data_type: SpecDataTypes::Null,
        }
    }

    /// The flag after one entry of its node was read.
    pub fn with_entry(self, ctx: &ParsingContext, e: &Entry) -> (r: Result<Flag, UsageErr>)
        ensures
            result_view(r) == self@.with_entry(ctx.file@, e@),
    {
        let mut flag = self;
        match &e.name {
            None => Ok(flag),
            Some(key) => {
                if str_eq(key.as_str(), "help") {
                    match e.ensure_string(ctx) {
                        Ok(s) => {
                            flag.help = Some(s);
                            Ok(flag)
                        },
                        Err(x) => Err(x),
                    }
                } else if str_eq(key.as_str(), "required") {
                    match e.ensure_bool(ctx) {
                        Ok(b) => {
                            flag.required = b;
                            Ok(flag)
                        },
                        Err(x) => Err(x),
                    }
                } else if str_eq(key.as_str(), "global") {
                    match e.ensure_bool(ctx) {
                        Ok(b) => {
                            flag.global = b;
                            Ok(flag)
                        },
                        Err(x) => Err(x),
                    }
                } else if str_eq(key.as_str(), "default") {
                    match e.ensure_string(ctx) {
                        Ok(s) => {
                            flag.default = Some(s);
                            Ok(flag)
                        },
                        Err(x) => Err(x),
                    }
                } else if str_eq(key.as_str(), "type") {
                    match read_data_type(ctx, e) {
                        Ok(t) => {
                            flag.data_type = t;
                            Ok(flag)
                        },
                        Err(x) => Err(x),
                    }
                } else {
                    Err(
                        UsageErr::UnsupportedSpecKey {
                            file: ctx.file.clone(),
                            span: e.span,
                            key: key.clone(),
                        },
                    )
                }
            },
        }
    }

    /// Reads the flag that a `flag` node declares.
    ///
    /// The first argument of the node is the declaration text; a node
    /// without one, or with another kind of value there, is an error. Then
    /// each property sets its field, in the order of the node.
    pub fn parse(ctx: &ParsingContext, node: &Node) -> (r: Result<Flag, UsageErr>)
        ensures
            result_view(r) == FlagModel::parse(ctx.file@, node@),
            r is Ok ==> r->Ok_0@.well_formed(),
    {
        proof {
            FlagModel::lemma_parse_well_formed(ctx.file@, node@);
        }
        let text = match node.first_string(ctx) {
            Ok(text) => text,
            Err(x) => {
                return Err(x);
            },
        };
        let mut flag = Flag::from_usage(text.as_str());
        let ghost base = flag@;
        let ghost all = entries_view(node.entries@);
        let mut k: usize = 0;
        proof {
            assert(all.take(0) =~= Seq::<EntryModel>::empty());
        }
        while k < node.entries.len()
            invariant
                k <= node.entries.len(),
                all == node@.entries,
                node@.first_string(ctx.file@) == Ok::<Seq<char>, UsageErrModel>(text@),
                base == FlagModel::from_usage(text@),
                base.with_entries(ctx.file@, all.take(k as int)) == Ok::<FlagModel, UsageErrModel>(
                    flag@,
                ),
                match FlagModel::parse(ctx.file@, node@) {
                    Ok(f) => f.well_formed(),
                    Err(_) => true,
                },
            decreases node.entries.len() - k,
        {
            proof {
                assert(all.take(k + 1) =~= all.take(k as int).push(all[k as int]));
                base.lemma_with_entries_push(ctx.file@, all.take(k as int), all[k as int]);
            }
            flag = match flag.with_entry(ctx, &node.entries[k]) {
                Ok(f) => f,
                Err(x) => {
                    proof {
                        base.lemma_with_entries_stops(ctx.file@, all, k + 1);
                    }
                    return Err(x);
                },
            };
            k = k + 1;
        }
        proof {
            assert(all.take(k as int) =~= all);
        }
        Ok(flag)
    }

    /// The node that declares this flag.
    pub fn to_node(&self) -> (r: Node)
        ensures
            r@ == self@.node(),
    {
        let mut entries: Vec<Entry> = Vec::new();
        entries.push(Entry::argument(self.name.clone()));
        proof {
            assert(entries_view(entries@) =~= seq![EntryModel::argument(self@.name)]);
        }
        match &self.help {
            Some(h) => {
                let e = Entry::text_property("help", h.clone());
                proof {
                    assert(entries_view(entries@.push(e)) =~= entries_view(entries@).push(e@));
                }
                entries.push(e);
            },
            None => {},
        }
        if self.required {
            let e = Entry::bool_property("required", true);
            proof {
                assert(entries_view(entries@.push(e)) =~= entries_view(entries@).push(e@));
            }
            entries.push(e);
        }
        if self.global {
            let e = Entry::bool_property("global", true);
            proof {
                assert(entries_view(entries@.push(e)) =~= entries_view(entries@).push(e@));
            }
            entries.push(e);
        }
        match &self.default {
            Some(d) => {
                let e = Entry::text_property("default", d.clone());
                proof {
                    assert(entries_view(entries@.push(e)) =~= entries_view(entries@).push(e@));
                }
                entries.push(e);
            },
            None => {},
        }
        match self.data_type {
            SpecDataTypes::Null => {},
            _ => {
                let e = Entry::text_property("type", self.data_type.as_str().to_owned());
                proof {
                    assert(entries_view(entries@.push(e)) =~= entries_view(entries@).push(e@));
                }
                entries.push(e);
            },
        }
        Node { name: "flag".to_owned(), entries, children: None, span: Span::empty() }
    }
}

} // verus!

//! Commands: the tree of a tool's command and its subcommands.
//!
//! A command holds its subcommands by name, in the order in which the names
//! first came; a name that comes again replaces the subcommand that had it.
//! That collection is an `IndexMap` of the `indexmap` crate. Verus looks
//! into neither the crate nor the collection: what a collection holds is
//! given a name here, and the contracts of the small functions that call
//! into the crate say, over that name, what each call does. Those contracts
//! are taken on trust; everything built on them is proved.
use vstd::prelude::*;
use crate::arg::{arg_nodes, args_view, Arg, ArgModel};
use crate::error::Span;
use crate::flag::{flag_nodes, flags_view, Flag, FlagModel};
use crate::keyed::{
    has_key, inserted, inserted_all, keys_unique, lemma_inserted_new, lemma_position, position,
};
use crate::node::{entries_view, nodes_view, Entry, EntryModel, Node, NodeModel};
use crate::text::{str_eq, strings_view};

verus! {

/// The subcommands of a command, by name.
#[verifier::external_body]
#[derive(Debug)]
pub struct CommandMap {
    inner: indexmap::IndexMap<String, Command>,
}

/// One command of the tree.
///
/// `full_cmd` is the path of names from the root's subcommand down to this
/// command, and `usage` is its usage line; both are filled in once the
/// whole tree stands.
#[derive(Debug, Clone)]
pub struct Command {
    pub name: String,
    pub hide: bool,
    pub full_cmd: Vec<String>,
    pub usage: String,
    pub commands: CommandMap,
    pub args: Vec<Arg>,
    pub flags: Vec<Flag>,
}

/// What a `Command` stands for; its subcommands are listed with their keys,
/// in order.
pub struct CommandModel {
    pub name: Seq<char>,
    pub hide: bool,
    pub full_cmd: Seq<Seq<char>>,
    pub usage: Seq<char>,
    pub commands: Seq<(Seq<char>, CommandModel)>,
    pub args: Seq<ArgModel>,
    pub flags: Seq<FlagModel>,
}

/// The keys and subcommands that a collection of the `indexmap` crate
/// holds, in its order.
pub uninterp spec fn command_entries(m: CommandMap) -> Seq<(Seq<char>, CommandModel)>;

impl View for CommandMap {
    type V = Seq<(Seq<char>, CommandModel)>;

    open spec fn view(&self) -> Seq<(Seq<char>, CommandModel)> {
        command_entries(*self)
    }
}

impl View for Command {
    type V = CommandModel;

    open spec fn view(&self) -> CommandModel {
        CommandModel {
            name: self.name@,
            hide: self.hide,
            full_cmd: strings_view(self.full_cmd@),
            usage: self.usage@,
            commands: self.commands@,
            args: args_view(self.args@),
            flags: flags_view(self.flags@),
        }
    }
}

impl Clone for CommandMap {
    /// `IndexMap::clone`: a collection that holds the same keys and
    /// subcommands in the same order.
    #[verifier::external_body]
    fn clone(&self) -> (r: CommandMap)
        ensures
            command_entries(r) == command_entries(*self),
    {
        CommandMap { inner: self.inner.clone() }
    }
}

impl CommandMap {
    /// `IndexMap::new`: a collection that holds nothing.
    #[verifier::external_body]
    fn map_new() -> (r: CommandMap)
        ensures
            command_entries(r) == Seq::<(Seq<char>, CommandModel)>::empty(),
    {
        CommandMap { inner: indexmap::IndexMap::new() }
    }

    /// `IndexMap::len`: how many subcommands the collection holds.
    #[verifier::external_body]
    fn map_len(&self) -> (r: usize)
        ensures
            r == command_entries(*self).len(),
    {
        self.inner.len()
    }

    /// `IndexMap::insert`: where the collection has the key, the subcommand
    /// under it is replaced and keeps its place; otherwise key and
    /// subcommand come last.
    #[verifier::external_body]
    fn map_insert(&mut self, key: String, value: Command)
        ensures
            command_entries(*final(self)) == inserted(command_entries(*old(self)), key@, value@),
    {
        self.inner.insert(key, value);
    }

    /// `IndexMap::pop`: takes the last key and subcommand out, and leaves
    /// the others as they stood. No key stands twice in the collection, so
    /// the key that left is not among those that stay.
    #[verifier::external_body]
    fn map_pop(&mut self) -> (r: Option<(String, Command)>)
        ensures
            match r {
                Some((key, value)) => command_entries(*old(self)) == command_entries(
                    *final(self),
                ).push((key@, value@)) && !has_key(command_entries(*final(self)), key@),
                None => command_entries(*old(self)).len() == 0 && command_entries(
                    *final(self),
                ).len() == 0,
            },
    {
        self.inner.pop()
    }

    /// `IndexMap::get_index`: the key and the subcommand at a position, or
    /// nothing where the position is past the end.
    #[verifier::external_body]
    fn map_get_index(&self, index: usize) -> (r: Option<(&String, &Command)>)
        ensures
            match r {
                Some((key, value)) => index < command_entries(*self).len() && command_entries(
                    *self,
                )[index as int] == (key@, value@),
                None => index >= command_entries(*self).len(),
            },
    {
        self.inner.get_index(index)
    }

    /// A collection that holds nothing.
    pub fn new() -> (r: CommandMap)
        ensures
            r@ == Seq::<(Seq<char>, CommandModel)>::empty(),
    {
        CommandMap::map_new()
    }

    /// How many subcommands the collection holds.
    pub fn len(&self) -> (r: usize)
        ensures
            r == self@.len(),
    {
        self.map_len()
    }

    /// Gives `key` the subcommand `value`: a subcommand that had the key is
    /// replaced where it stood, otherwise the new one comes last.
    pub fn insert(&mut self, key: String, value: Command)
        ensures
            final(self)@ == inserted(old(self)@, key@, value@),
    {
        self.map_insert(key, value)
    }

    /// The key and the subcommand at a position, or nothing where the
    /// position is past the end.
    pub fn get_index(&self, index: usize) -> (r: Option<(&String, &Command)>)
        ensures
            match r {
                Some((key, value)) => index < self@.len() && self@[index as int] == (key@, value@),
                None => index >= self@.len(),
            },
    {
        self.map_get_index(index)
    }

    /// Whether the collection holds nothing.
    pub fn is_empty(&self) -> (r: bool)
        ensures
            r == (self@.len() == 0),
    {
        self.len() == 0
    }

    /// Takes every key and subcommand out, last first. That they could be
    /// taken out one by one shows that no key stood twice.
    pub(crate) fn drain_reversed(&mut self) -> (r: Vec<(String, Command)>)
        ensures
            final(self)@.len() == 0,
            r.len() == old(self)@.len(),
            forall|j: int|
                0 <= j < r.len() ==> pair_view(#[trigger] r[j]) == old(self)@[r.len() - 1 - j],
            keys_unique(old(self)@),
    {
        let ghost all = self@;
        let mut out: Vec<(String, Command)> = Vec::new();
        loop
            invariant
                all == old(self)@,
                out.len() + self@.len() == all.len(),
                self@ == all.take(self@.len() as int),
                forall|j: int|
                    0 <= j < out.len() ==> pair_view(#[trigger] out[j]) == all[all.len() - 1 - j],
                forall|i: int, j: int|
                    0 <= i < j < all.len() && self@.len() <= j ==> (#[trigger] all[i]).0 != (
                    #[trigger] all[j]).0,
            ensures
                self@.len() == 0,
                out.len() == all.len(),
                forall|j: int|
                    0 <= j < out.len() ==> pair_view(#[trigger] out[j]) == all[all.len() - 1 - j],
                keys_unique(all),
            decreases self@.len(),
        {
            let ghost before = self@;
            match self.map_pop() {
                Some(item) => {
                    proof {
                        let n = self@.len() as int;
                        assert(before == self@.push(pair_view(item)));
                        assert(all[n] == before[n]);
                        assert(self@ =~= all.take(n));
                        assert forall|i: int, j: int|
                            0 <= i < j < all.len() && n <= j implies (#[trigger] all[i]).0 != (
                        #[trigger] all[j]).0 by {
                            if j == n {
                                assert(self@[i] == all[i]);
                            }
                        }
                    }
                    out.push(item);
                },
                None => {
                    break ;
                },
            }
        }
        out
    }
}

/// What a key and a subcommand stand for.
pub open spec fn pair_view(p: (String, Command)) -> (Seq<char>, CommandModel) {
    (p.0@, p.1@)
}

/// The usage texts of arguments, each after a blank.
pub open spec fn args_usage(args: Seq<ArgModel>) -> Seq<char>
    decreases args.len(),
{
    if args.len() == 0 {
        Seq::empty()
    } else {
        args_usage(args.drop_last()) + seq![' '] + args.last().usage()
    }
}

/// The usage line that follows from a name, arguments and flags: the name,
/// then `[flags]` where there is a flag, then each argument in its brackets,
/// in the order of declaration.
pub open spec fn usage_line(name: Seq<char>, args: Seq<ArgModel>, flags: Seq<FlagModel>) -> Seq<
    char,
> {
    name + (if flags.len() > 0 {
        " [flags]"@
    } else {
        Seq::empty()
    }) + args_usage(args)
}

impl CommandModel {
    /// The command without a name that holds nothing.
    pub open spec fn empty() -> CommandModel {
        CommandModel {
            name: Seq::empty(),
            hide: false,
            full_cmd: Seq::empty(),
            usage: Seq::empty(),
            commands: Seq::empty(),
            args: Seq::empty(),
            flags: Seq::empty(),
        }
    }

    /// Whether the command has no name and holds nothing.
    pub open spec fn is_empty(self) -> bool {
        &&& self.name.len() == 0
        &&& self.usage.len() == 0
        &&& self.commands.len() == 0
        &&& self.args.len() == 0
        &&& self.flags.len() == 0
    }

    /// The usage line that follows from the name, the arguments and the
    /// flags of the command.
    pub open spec fn derived_usage(self) -> Seq<char> {
        usage_line(self.name, self.args, self.flags)
    }

    /// Whether there is anything to derive a usage line from: a name, an
    /// argument or a flag.
    pub open spec fn has_usage_parts(self) -> bool {
        self.name.len() > 0 || self.args.len() > 0 || self.flags.len() > 0
    }

    /// This command after it took over `other`: the subcommands of `other`
    /// are given to their keys in turn, each replacing whole the subcommand
    /// that had the key, and its arguments and flags come after those that
    /// were there.
    pub open spec fn merge(self, other: CommandModel) -> CommandModel {
        CommandModel {
            commands: inserted_all(self.commands, other.commands),
            args: self.args + other.args,
            flags: self.flags + other.flags,
            ..self
        }
    }

    /// This command with the tree below it annotated: a command without a
    /// usage line gets the one that follows from its name, flags and
    /// arguments, and every subcommand gets as its path the path of its
    /// parent followed by its own name. `ancestors` is the path of this
    /// command, whose own path is left as it is.
    pub open spec fn resolve(self, ancestors: Seq<Seq<char>>) -> CommandModel
        decreases self, 1nat,
    {
        CommandModel {
            usage: if self.usage.len() == 0 {
                self.derived_usage()
            } else {
                self.usage
            },
            commands: resolve_all(self.commands, ancestors),
            ..self
        }
    }

    /// Whether the paths below this command are right: every subcommand has
    /// as its path `ancestors` followed by its own name, and so on below it.
    pub open spec fn paths_from(self, ancestors: Seq<Seq<char>>) -> bool
        decreases self,
    {
        forall|i: int|
            0 <= i < self.commands.len() ==> {
                let child = (#[trigger] self.commands[i]).1;
                child.full_cmd == ancestors.push(child.name) && child.paths_from(
                    ancestors.push(child.name),
                )
            }
    }

    /// Whether this command and every command below it has a usage line,
    /// but for those that have neither a name nor an argument nor a flag.
    pub open spec fn usage_settled(self) -> bool
        decreases self,
    {
        &&& self.has_usage_parts() ==> self.usage.len() > 0
        &&& forall|i: int|
            0 <= i < self.commands.len() ==> (#[trigger] self.commands[i]).1.usage_settled()
    }

    /// A usage line is derived only from a name, arguments and flags; where
    /// there is one of them, the line is not empty.
    pub proof fn lemma_derived_usage_filled(self)
        requires
            self.has_usage_parts(),
        ensures
            self.derived_usage().len() > 0,
    {
        reveal_strlit(" [flags]");
        if self.args.len() > 0 {
            assert(args_usage(self.args).len() > 0);
        }
    }

    /// A command without a usage line gets, when the tree is annotated,
    /// the line that follows from its name, arguments and flags alone; that
    /// line is not empty where the command has a name, an argument or a
    /// flag. A command with a usage line keeps it.
    pub proof fn lemma_usage_default(self, ancestors: Seq<Seq<char>>)
        ensures
            self.usage.len() == 0 ==> self.resolve(ancestors).usage == usage_line(
                self.name,
                self.args,
                self.flags,
            ),
            self.usage.len() > 0 ==> self.resolve(ancestors).usage == self.usage,
            self.has_usage_parts() ==> self.resolve(ancestors).usage.len() > 0,
    {
        if self.has_usage_parts() {
            self.lemma_derived_usage_filled();
        }
    }

    /// When a tree is annotated, every command in it that has a name, an
    /// argument or a flag has a usage line.
    pub proof fn lemma_resolve_usage_settled(self, ancestors: Seq<Seq<char>>)
        ensures
            self.resolve(ancestors).usage_settled(),
        decreases self,
    {
        let out = self.resolve(ancestors);
        self.lemma_usage_default(ancestors);
        assert forall|i: int| 0 <= i < out.commands.len() implies (
        #[trigger] out.commands[i]).1.usage_settled() by {
            let child = self.commands[i].1;
            let path = ancestors.push(child.name);
            child.lemma_resolve_usage_settled(path);
            child.lemma_usage_default(path);
            let done = child.resolve(path);
            let placed = CommandModel { full_cmd: path, ..done };
            assert(out.commands[i].1 == placed);
            assert(placed.commands == done.commands);
            assert(done.usage_settled());
            assert(placed.usage_settled());
        }
    }

    /// When a tree is annotated, the path of every command below its root
    /// is the path of the command's parent followed by the command's own
    /// name.
    pub proof fn lemma_resolve_paths(self, ancestors: Seq<Seq<char>>)
        ensures
            self.resolve(ancestors).paths_from(ancestors),
            self.resolve(ancestors).full_cmd == self.full_cmd,
            self.resolve(ancestors).name == self.name,
        decreases self,
    {
        let out = self.resolve(ancestors);
        assert forall|i: int| 0 <= i < out.commands.len() implies {
            let child = (#[trigger] out.commands[i]).1;
            child.full_cmd == ancestors.push(child.name) && child.paths_from(
                ancestors.push(child.name),
            )
        } by {
            let child = self.commands[i].1;
            let path = ancestors.push(child.name);
            child.lemma_resolve_paths(path);
            let done = child.resolve(path);
            let placed = CommandModel { full_cmd: path, ..done };
            assert(out.commands[i].1 == placed);
            assert(placed.commands == done.commands);
            assert(done.paths_from(path));
            assert(placed.paths_from(path));
        }
    }

    /// The nodes that declare what this command holds: its flags, then its
    /// arguments, then its subcommands.
    pub open spec fn body_nodes(self) -> Seq<NodeModel>
        decreases self, 1nat,
    {
        flag_nodes(self.flags) + arg_nodes(self.args) + command_nodes(self.commands)
    }

    /// The entries of the `cmd` node that declares this command.
    pub open spec fn entries(self) -> Seq<EntryModel> {
        if self.hide {
            seq![EntryModel::argument(self.name), EntryModel::bool_property("hide"@, true)]
        } else {
            seq![EntryModel::argument(self.name)]
        }
    }

    /// The `cmd` node that declares this command. A command that holds
    /// nothing has no block.
    pub open spec fn node(self) -> NodeModel
        decreases self, 2nat,
    {
        NodeModel {
            name: "cmd"@,
            entries: self.entries(),
            children: if self.body_nodes().len() == 0 {
                None
            } else {
                Some(self.body_nodes())
            },
            span: Span::zero(),
        }
    }
}

/// Subcommands with the trees below them annotated, each under the path
/// `ancestors` followed by its name.
pub open spec fn resolve_all(
    children: Seq<(Seq<char>, CommandModel)>,
    ancestors: Seq<Seq<char>>,
) -> Seq<(Seq<char>, CommandModel)>
    decreases children, 0nat,
{
    Seq::new(
        children.len(),
        |i: int|
            if 0 <= i < children.len() {
                let path = ancestors.push(children[i].1.name);
                (children[i].0, CommandModel { full_cmd: path, ..children[i].1.resolve(path) })
            } else {
                arbitrary()
            },
    )
}

/// The `cmd` nodes that declare subcommands, in order.
pub open spec fn command_nodes(children: Seq<(Seq<char>, CommandModel)>) -> Seq<NodeModel>
    decreases children, 0nat,
{
    Seq::new(
        children.len(),
        |i: int|
            if 0 <= i < children.len() {
                children[i].1.node()
            } else {
                arbitrary()
            },
    )
}

/// A copy of a list of strings.
pub fn clone_strings(strings: &[String]) -> (r: Vec<String>)
    ensures
        strings_view(r@) == strings_view(strings@),
{
    let mut out: Vec<String> = Vec::new();
    let mut i: usize = 0;
    while i < strings.len()
        invariant
            i <= strings.len(),
            strings_view(out@) == strings_view(strings@).take(i as int),
        decreases strings.len() - i,
    {
        proof {
            assert(strings_view(out@.push(strings[i as int])) =~= strings_view(out@).push(
                strings[i as int]@,
            ));
            assert(strings_view(strings@).take(i + 1) =~= strings_view(strings@).take(
                i as int,
            ).push(strings[i as int]@));
        }
        out.push(strings[i].clone());
        i = i + 1;
    }
    proof {
        assert(strings_view(strings@).take(i as int) =~= strings_view(strings@));
    }
    out
}

impl Default for Command {
    /// The command without a name that holds nothing.
    fn default() -> (r: Command)
        ensures
            r@ == CommandModel::empty(),
    {
        let r = Command {
            name: String::new(),
            hide: false,
            full_cmd: Vec::new(),
            usage: String::new(),
            commands: CommandMap::new(),
            args: Vec::new(),
            flags: Vec::new(),
        };
        proof {
            assert(r@.full_cmd =~= Seq::<Seq<char>>::empty());
            assert(r@.args =~= Seq::<ArgModel>::empty());
            assert(r@.flags =~= Seq::<FlagModel>::empty());
        }
        r
    }
}

impl Command {
    /// Whether the command has no name and holds nothing.
    pub fn is_empty(&self) -> (r: bool)
        ensures
            r == self@.is_empty(),
    {
        self.name.as_str().is_empty() && self.usage.as_str().is_empty() && self.commands.is_empty()
            && self.args.len() == 0 && self.flags.len() == 0
    }

    /// The usage line that follows from the name, the flags and the
    /// arguments of the command.
    pub fn derived_usage(&self) -> (r: String)
        ensures
            r@ == self@.derived_usage(),
    {
        let mut out = self.name.clone();
        if self.flags.len() > 0 {
            out.append(" [flags]");
        }
        let ghost head = out@;
        let mut i: usize = 0;
        proof {
            assert(args_view(self.args@).take(0) =~= Seq::<ArgModel>::empty());
            assert(head + Seq::<char>::empty() =~= head);
            if self.flags.len() == 0 {
                assert(self.name@ + Seq::<char>::empty() =~= self.name@);
            }
        }
        while i < self.args.len()
            invariant
                i <= self.args.len(),
                out@ == head + args_usage(args_view(self.args@).take(i as int)),
            decreases self.args.len() - i,
        {
            proof {
                let all = args_view(self.args@);
                assert(all.take(i + 1).drop_last() =~= all.take(i as int));
                assert(all.take(i + 1).last() == self.args[i as int]@);
                reveal_strlit(" ");
                assert(" "@ =~= seq![' ']);
            }
            let ghost before = out@;
            out.append(" ");
            let text = self.args[i].usage();
            out.append(text.as_str());
            proof {
                assert(out@ =~= head + (args_usage(args_view(self.args@).take(i as int)) + seq![' ']
                    + text@));
            }
            i = i + 1;
        }
        proof {
            assert(args_view(self.args@).take(i as int) =~= args_view(self.args@));
        }
        out
    }

    /// The subcommand under the key `name`, if there is one.
    pub fn find(&self, name: &str) -> (r: Option<&Command>)
        ensures
            match r {
                Some(c) => has_key(self@.commands, name@) && c@ == self@.commands[position(
                    self@.commands,
                    name@,
                )].1,
                None => !has_key(self@.commands, name@),
            },
    {
        let n = self.commands.len();
        let mut i: usize = 0;
        proof {
            lemma_position(self@.commands, name@);
        }
        while i < n
            invariant
                i <= n,
                n == self@.commands.len(),
                forall|j: int| 0 <= j < i ==> (#[trigger] self@.commands[j]).0 != name@,
                0 <= position(self@.commands, name@) <= n,
                position(self@.commands, name@) < n ==> self@.commands[position(
                    self@.commands,
                    name@,
                )].0 == name@,
                forall|j: int|
                    0 <= j < position(self@.commands, name@) ==> (#[trigger] self@.commands[j]).0
                        != name@,
                position(self@.commands, name@) < n <==> has_key(self@.commands, name@),
            decreases n - i,
        {
            match self.commands.get_index(i) {
                Some((key, value)) => {
                    if str_eq(key.as_str(), name) {
                        return Some(value);
                    }
                },
                None => {},
            }
            i = i + 1;
        }
        None
    }

    /// Takes over `other`: its subcommands are given to their keys in turn,
    /// each replacing whole the subcommand that had the key, and its
    /// arguments and flags come after those that were there.
    pub fn merge(&mut self, other: Command)
        ensures
            final(self)@ == old(self)@.merge(other@),
    {
        let Command { commands, args, flags, .. } = other;
        let mut commands = commands;
        let mut args = args;
        let mut flags = flags;
        let ghost more = commands@;
        let ghost base = self@.commands;
        proof {
            assert(args_view(self.args@ + args@) =~= args_view(self.args@) + args_view(args@));
            assert(flags_view(self.flags@ + flags@) =~= flags_view(self.flags@) + flags_view(flags@));
        }
        self.args.append(&mut args);
        self.flags.append(&mut flags);
        let mut stack = commands.drain_reversed();
        let ghost total = stack.len();
        proof {
            assert(more.take(0) =~= Seq::<(Seq<char>, CommandModel)>::empty());
        }
        while stack.len() > 0
            invariant
                stack.len() <= total,
                total == more.len(),
                forall|j: int|
                    0 <= j < stack.len() ==> pair_view(#[trigger] stack[j]) == more[total - 1 - j],
                self@.commands == inserted_all(base, more.take(total - stack.len())),
                self@.name == old(self)@.name,
                self@.hide == old(self)@.hide,
                self@.full_cmd == old(self)@.full_cmd,
                self@.usage == old(self)@.usage,
                self@.args == old(self)@.args + other@.args,
                self@.flags == old(self)@.flags + other@.flags,
            decreases stack.len(),
        {
            let ghost done = total - stack.len();
            let ghost top = stack[stack.len() - 1];
            match stack.pop() {
                Some((key, value)) => {
                    proof {
                        assert(pair_view(top) == more[done]);
                        assert(more.take(done + 1).drop_last() =~= more.take(done));
                        assert(more.take(done + 1).last() == more[done]);
                    }
                    self.commands.insert(key, value);
                },
                None => {},
            }
        }
        proof {
            assert(more.take(total as int) =~= more);
        }
    }

    /// The nodes that declare what this command holds.
    pub fn body_nodes(&self) -> (r: Vec<Node>)
        ensures
            nodes_view(r@) == self@.body_nodes(),
        decreases self@, 1nat,
    {
        let mut out: Vec<Node> = Vec::new();
        let ghost of_flags = flag_nodes(self@.flags);
        let ghost of_args = arg_nodes(self@.args);
        let ghost of_commands = command_nodes(self@.commands);
        let mut i: usize = 0;
        proof {
            assert(nodes_view(out@) =~= of_flags.take(0));
        }
        while i < self.flags.len()
            invariant
                i <= self.flags.len(),
                of_flags == flag_nodes(self@.flags),
                nodes_view(out@) == of_flags.take(i as int),
            decreases self.flags.len() - i,
        {
            let n = self.flags[i].to_node();
            proof {
                assert(nodes_view(out@.push(n)) =~= nodes_view(out@).push(n@));
                assert(of_flags.take(i + 1) =~= of_flags.take(i as int).push(of_flags[i as int]));
            }
            out.push(n);
            i = i + 1;
        }
        proof {
            assert(of_flags.take(i as int) =~= of_flags);
            assert(of_flags + of_args.take(0) =~= of_flags);
        }
        i = 0;
        while i < self.args.len()
            invariant
                i <= self.args.len(),
                of_args == arg_nodes(self@.args),
                nodes_view(out@) == of_flags + of_args.take(i as int),
            decreases self.args.len() - i,
        {
            let n = self.args[i].to_node();
            proof {
                assert(nodes_view(out@.push(n)) =~= nodes_view(out@).push(n@));
                assert(of_flags + of_args.take(i + 1) =~= (of_flags + of_args.take(
                    i as int,
                )).push(of_args[i as int]));
            }
            out.push(n);
            i = i + 1;
        }
        proof {
            assert(of_args.take(i as int) =~= of_args);
            assert(of_flags + of_args + of_commands.take(0) =~= of_flags + of_args);
        }
        i = 0;
        let count = self.commands.len();
        while i < count
            invariant
                i <= count,
                count == self@.commands.len(),
                of_commands == command_nodes(self@.commands),
                nodes_view(out@) == of_flags + of_args + of_commands.take(i as int),
            decreases count - i,
        {
            match self.commands.get_index(i) {
                Some((_, child)) => {
                    proof {
                        assert(child@ == self@.commands[i as int].1);
                        assert(decreases_to!(self@ => self@.commands));
                        assert(decreases_to!(self@.commands => self@.commands[i as int]));
                        assert(decreases_to!(self@.commands[i as int] => self@.commands[i as int].1));
                    }
                    let n = child.to_node();
                    proof {
                        assert(nodes_view(out@.push(n)) =~= nodes_view(out@).push(n@));
                        assert(of_flags + of_args + of_commands.take(i + 1) =~= (of_flags
                            + of_args + of_commands.take(i as int)).push(of_commands[i as int]));
                    }
                    out.push(n);
                },
                None => {},
            }
            i = i + 1;
        }
        proof {
            assert(of_commands.take(i as int) =~= of_commands);
        }
        out
    }

    /// The `cmd` node that declares this command.
    pub fn to_node(&self) -> (r: Node)
        ensures
            r@ == self@.node(),
        decreases self@, 2nat,
    {
        let mut entries: Vec<Entry> = Vec::new();
        entries.push(Entry::argument(self.name.clone()));
        proof {
            assert(entries_view(entries@) =~= seq![EntryModel::argument(self@.name)]);
        }
        if self.hide {
            let e = Entry::bool_property("hide", true);
            proof {
                assert(entries_view(entries@.push(e)) =~= seq![
                    EntryModel::argument(self@.name),
                    EntryModel::bool_property("hide"@, true),
                ]);
            }
            entries.push(e);
        }
        let body = self.body_nodes();
        let children = if body.len() == 0 {
            None
        } else {
            Some(body)
        };
        Node { name: "cmd".to_owned(), entries, children, span: Span::empty() }
    }
}

/// Annotates the tree below a command: a command without a usage line gets
/// the one that follows from its name, flags and arguments, and every
/// subcommand gets as its path the path of its parent followed by its own
/// name. `ancestors` is the path of `cmd`, whose own path is left as it is.
pub fn set_subcommand_ancestors(cmd: &mut Command, ancestors: &[String])
    ensures
        final(cmd)@ == old(cmd)@.resolve(strings_view(ancestors@)),
        final(cmd)@.paths_from(strings_view(ancestors@)),
        final(cmd)@.usage_settled(),
    decreases old(cmd)@,
{
    proof {
        old(cmd)@.lemma_resolve_paths(strings_view(ancestors@));
        old(cmd)@.lemma_resolve_usage_settled(strings_view(ancestors@));
    }
    if cmd.usage.as_str().is_empty() {
        cmd.usage = cmd.derived_usage();
    }
    let ghost all = cmd@.commands;
    let ghost above = strings_view(ancestors@);
    let ghost want = resolve_all(all, above);
    let mut stack = cmd.commands.drain_reversed();
    let ghost total = stack.len();
    proof {
        assert(cmd@.commands =~= want.take(0));
    }
    while stack.len() > 0
        invariant
            stack.len() <= total,
            total == all.len(),
            all == old(cmd)@.commands,
            above == strings_view(ancestors@),
            want == resolve_all(all, above),
            keys_unique(all),
            forall|j: int|
                0 <= j < stack.len() ==> pair_view(#[trigger] stack[j]) == all[total - 1 - j],
            cmd@.commands == want.take(total - stack.len()),
            cmd@.name == old(cmd)@.name,
            cmd@.hide == old(cmd)@.hide,
            cmd@.full_cmd == old(cmd)@.full_cmd,
            cmd@.usage == old(cmd)@.resolve(above).usage,
            cmd@.args == old(cmd)@.args,
            cmd@.flags == old(cmd)@.flags,
        decreases stack.len(),
    {
        let ghost done = total - stack.len();
        let ghost top = stack[stack.len() - 1];
        match stack.pop() {
            Some((key, child)) => {
                let mut child = child;
                let mut path = clone_strings(ancestors);
                proof {
                    assert(pair_view(top) == all[done]);
                    assert(strings_view(path@.push(child.name)) =~= above.push(child.name@));
                    assert(decreases_to!(old(cmd)@ => old(cmd)@.commands));
                    assert(decreases_to!(all => all[done]));
                    assert(decreases_to!(all[done] => all[done].1));
                }
                path.push(child.name.clone());
                set_subcommand_ancestors(&mut child, path.as_slice());
                child.full_cmd = path;
                proof {
                    let front = want.take(done);
                    if has_key(front, key@) {
                        let i = choose|i: int| 0 <= i < front.len() && (#[trigger] front[i]).0 == key@;
                        assert(front[i] == want[i]);
                        assert(all[i].0 == all[done].0);
                        assert(false);
                    }
                    lemma_inserted_new(front, key@, child@);
                    assert(want[done] == (key@, child@));
                    assert(front.push((key@, child@)) =~= want.take(done + 1));
                }
                cmd.commands.insert(key, child);
            },
            None => {},
        }
    }
    proof {
        assert(want.take(total as int) =~= want);
    }
}

} // verus!

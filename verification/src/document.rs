//! Documents as text: reading a tree of nodes from text and writing one out,
//! both through the `kdl` crate.
//!
//! Verus looks into none of that crate's types. What a document, a node and
//! an entry of it hold is given a name here, and the contracts of the small
//! functions that call into the crate say, over those names, what each call
//! hands back. Those contracts are taken on trust; everything built on them
//! is proved.
//!
//! The crate's parser does not return on every text: where it meets a
//! reserved word as a type annotation, it reports the error by a stretch of
//! text after the word, and there may be none. A text is therefore scanned
//! before it is handed to the parser, and one in which that could happen is
//! a syntax error of its own. The scan steps over strings and comments, in
//! which a parenthesis opens nothing; in plain text a parenthesis opens a
//! type annotation, and a reserved word is no type, so a text that the
//! scan refuses is no document.
use vstd::prelude::*;
use vstd::utf8::{encode_utf8, encode_utf8_valid_utf8, is_char_boundary};
use kdl::KdlValue;
use crate::context::ParsingContext;
use crate::error::{Span, UsageErr, UsageErrModel};
use crate::node::{entries_view, nodes_view, Entry, EntryModel, Node, NodeModel, Value, ValueModel};

verus! {

/// `kdl::KdlDocument`: a document of the crate.
#[verifier::external_type_specification]
#[verifier::external_body]
pub struct ExKdlDocument(kdl::KdlDocument);

/// `kdl::KdlNode`: a node of the crate.
#[verifier::external_type_specification]
#[verifier::external_body]
pub struct ExKdlNode(kdl::KdlNode);

/// `kdl::KdlEntry`: an entry of the crate.
#[verifier::external_type_specification]
#[verifier::external_body]
pub struct ExKdlEntry(kdl::KdlEntry);

/// `kdl::KdlError`: the error of the crate's parser.
#[verifier::external_type_specification]
#[verifier::external_body]
pub struct ExKdlError(kdl::KdlError);

/// The nodes that a document of the `kdl` crate holds, in order.
pub uninterp spec fn document_nodes(d: kdl::KdlDocument) -> Seq<NodeModel>;

/// What a node of the `kdl` crate holds: its name, its entries in order, its
/// block of children if it has one, and its place in the source.
pub uninterp spec fn node_model(n: kdl::KdlNode) -> NodeModel;

/// What an entry of the `kdl` crate holds: its key if it has one, its value
/// and its place in the source.
pub uninterp spec fn entry_model(e: kdl::KdlEntry) -> EntryModel;

/// What an error of the crate's parser holds: the place where the parser
/// gave up, and its message.
pub uninterp spec fn error_model(e: kdl::KdlError) -> (Span, Seq<char>);

/// What the `kdl` crate reads from a text: the nodes of the document, or,
/// where it rejects the text, the place and the message of its error.
pub uninterp spec fn parsed_document(text: Seq<char>) -> Result<Seq<NodeModel>, (Span, Seq<char>)>;

/// Whether an entry of the `kdl` crate holds nothing beyond its key and its
/// value: no type annotation, no text before or after it, no spelling of
/// its own for the key or the value, and as value a boolean or a string
/// that is not a raw one.
pub uninterp spec fn plain_entry(e: kdl::KdlEntry) -> bool;

/// Whether a node of the `kdl` crate holds nothing beyond its name, its
/// entries and its block: no type annotation, no text before or after it or
/// before its block, no spelling of its own for the name; its entries are
/// plain, and so is its block if it has one.
pub uninterp spec fn plain_node(n: kdl::KdlNode) -> bool;

/// Whether a document of the `kdl` crate holds nothing beyond its nodes: no
/// text before or after them, and only plain nodes.
pub uninterp spec fn plain_document(d: kdl::KdlDocument) -> bool;

/// The text that the `kdl` crate writes for a plain document that holds
/// the given nodes.
pub uninterp spec fn written(nodes: Seq<NodeModel>) -> Seq<char>;

/// Whether the word `true` stands at byte `at`.
pub open spec fn true_at(bytes: Seq<u8>, at: int) -> bool {
    &&& 0 <= at
    &&& at + 4 <= bytes.len()
    &&& bytes[at] == 0x74
    &&& bytes[at + 1] == 0x72
    &&& bytes[at + 2] == 0x75
    &&& bytes[at + 3] == 0x65
}

/// Whether the word `false` stands at byte `at`.
pub open spec fn false_at(bytes: Seq<u8>, at: int) -> bool {
    &&& 0 <= at
    &&& at + 5 <= bytes.len()
    &&& bytes[at] == 0x66
    &&& bytes[at + 1] == 0x61
    &&& bytes[at + 2] == 0x6c
    &&& bytes[at + 3] == 0x73
    &&& bytes[at + 4] == 0x65
}

/// Whether the word `null` stands at byte `at`.
pub open spec fn null_at(bytes: Seq<u8>, at: int) -> bool {
    &&& 0 <= at
    &&& at + 4 <= bytes.len()
    &&& bytes[at] == 0x6e
    &&& bytes[at + 1] == 0x75
    &&& bytes[at + 2] == 0x6c
    &&& bytes[at + 3] == 0x6c
}

/// The length of the reserved word, `true`, `false` or `null`, that stands
/// at byte `at`, if one does.
pub open spec fn reserved_at(bytes: Seq<u8>, at: int) -> Option<int> {
    if true_at(bytes, at) {
        Some(4)
    } else if false_at(bytes, at) {
        Some(5)
    } else if null_at(bytes, at) {
        Some(4)
    } else {
        None
    }
}

/// Whether the byte `b` stands at `at`.
pub open spec fn byte_at(bytes: Seq<u8>, at: int, b: u8) -> bool {
    0 <= at < bytes.len() && bytes[at] == b
}

/// Whether a character that cannot stand in a bare word begins at `at` and
/// takes more than one byte: one of the wide blanks and line breaks.
pub open spec fn wide_break_at(bytes: Seq<u8>, at: int) -> bool {
    ||| byte_at(bytes, at, 0xc2) && (byte_at(bytes, at + 1, 0x85) || byte_at(bytes, at + 1, 0xa0))
    ||| byte_at(bytes, at, 0xe1) && byte_at(bytes, at + 1, 0x9a) && byte_at(bytes, at + 2, 0x80)
    ||| byte_at(bytes, at, 0xe2) && byte_at(bytes, at + 1, 0x80) && at + 2 < bytes.len() && (0x80
        <= bytes[at + 2] <= 0x8a || bytes[at + 2] == 0xa8 || bytes[at + 2] == 0xa9 || bytes[at + 2]
        == 0xaf)
    ||| byte_at(bytes, at, 0xe2) && byte_at(bytes, at + 1, 0x81) && byte_at(bytes, at + 2, 0x9f)
    ||| byte_at(bytes, at, 0xe3) && byte_at(bytes, at + 1, 0x80) && byte_at(bytes, at + 2, 0x80)
    ||| byte_at(bytes, at, 0xef) && byte_at(bytes, at + 1, 0xbb) && byte_at(bytes, at + 2, 0xbf)
}

/// Whether a bare word that reaches up to `at` ends there: the text ends,
/// or a character stands there that cannot stand in a bare word (a control
/// character, a blank, a line break, or one of
/// `\ / ( ) { } < > ; [ ] = , "`).
pub open spec fn word_ends_at(bytes: Seq<u8>, at: int) -> bool {
    if at < 0 || at >= bytes.len() {
        true
    } else {
        let b = bytes[at];
        ||| b <= 0x20
        ||| b == 0x22
        ||| b == 0x28
        ||| b == 0x29
        ||| b == 0x2c
        ||| b == 0x2f
        ||| b == 0x3b
        ||| b == 0x3c
        ||| b == 0x3d
        ||| b == 0x3e
        ||| b == 0x5b
        ||| b == 0x5c
        ||| b == 0x5d
        ||| b == 0x7b
        ||| b == 0x7d
        ||| wide_break_at(bytes, at)
    }
}

/// Whether the parser of the `kdl` crate could get stuck at byte `i`: an
/// opening parenthesis stands there, directly followed by a reserved word
/// that ends there, and as many bytes after the word as the word has, no
/// character ends.
///
/// Outside strings and comments a parenthesis opens a type annotation. The
/// parser reports a reserved word in a type annotation by the stretch of
/// the word's length after the word, and does not return where there is no
/// such stretch.
pub open spec fn stuck_at(bytes: Seq<u8>, i: int) -> bool {
    &&& byte_at(bytes, i, 0x28)
    &&& match reserved_at(bytes, i + 1) {
        Some(n) => word_ends_at(bytes, i + 1 + n) && !is_char_boundary(bytes, i + 1 + 2 * n),
        None => false,
    }
}

/// What a place of a text lies in: plain text, a quoted string, a raw
/// string that ends with a quote and the given number of hashes, a comment
/// up to the end of the line, or block comments nested to the given depth.
pub enum Lex {
    Plain,
    Quoted,
    Raw(int),
    Line,
    Block(int),
}

/// How many hashes stand in a row from `at` on.
pub open spec fn hash_run(bytes: Seq<u8>, at: int) -> int
    decreases bytes.len() - at,
{
    if byte_at(bytes, at, 0x23) {
        1 + hash_run(bytes, at + 1)
    } else {
        0
    }
}

/// Whether a raw string opens at `at`: an `r`, hashes, and a quote.
pub open spec fn raw_opens_at(bytes: Seq<u8>, at: int) -> bool {
    byte_at(bytes, at, 0x72) && byte_at(bytes, at + 1 + hash_run(bytes, at + 1), 0x22)
}

/// Whether a raw string with the given number of hashes closes at `at`: a
/// quote, followed by at least that many hashes.
pub open spec fn raw_closes_at(bytes: Seq<u8>, at: int, hashes: int) -> bool {
    byte_at(bytes, at, 0x22) && hash_run(bytes, at + 1) >= hashes
}

/// Whether a line break begins at `at`.
pub open spec fn line_break_at(bytes: Seq<u8>, at: int) -> bool {
    ||| byte_at(bytes, at, 0x0a)
    ||| byte_at(bytes, at, 0x0c)
    ||| byte_at(bytes, at, 0x0d)
    ||| byte_at(bytes, at, 0xc2) && byte_at(bytes, at + 1, 0x85)
    ||| byte_at(bytes, at, 0xe2) && byte_at(bytes, at + 1, 0x80) && (byte_at(bytes, at + 2, 0xa8)
        || byte_at(bytes, at + 2, 0xa9))
}

/// One step through a text: from the place `at`, which lies in `lex`, to
/// the next place and what that lies in.
///
/// In plain text a quote opens a string, `r` with hashes and a quote a raw
/// string, `//` a comment to the end of the line and `/*` a block comment.
/// A string ends at the next quote that no backslash stands before, a raw
/// string at the next quote with its hashes, a line comment at the next
/// line break, and a block comment at the `*/` that matches its `/*`.
pub open spec fn lex_step(bytes: Seq<u8>, at: int, lex: Lex) -> (int, Lex) {
    match lex {
        Lex::Plain => if byte_at(bytes, at, 0x22) {
            (at + 1, Lex::Quoted)
        } else if raw_opens_at(bytes, at) {
            (at + 2 + hash_run(bytes, at + 1), Lex::Raw(hash_run(bytes, at + 1)))
        } else if byte_at(bytes, at, 0x2f) && byte_at(bytes, at + 1, 0x2f) {
            (at + 2, Lex::Line)
        } else if byte_at(bytes, at, 0x2f) && byte_at(bytes, at + 1, 0x2a) {
            (at + 2, Lex::Block(1))
        } else {
            (at + 1, Lex::Plain)
        },
        Lex::Quoted => if byte_at(bytes, at, 0x5c) {
            (at + 2, Lex::Quoted)
        } else if byte_at(bytes, at, 0x22) {
            (at + 1, Lex::Plain)
        } else {
            (at + 1, Lex::Quoted)
        },
        Lex::Raw(hashes) => if raw_closes_at(bytes, at, hashes) {
            (at + 1 + hashes, Lex::Plain)
        } else {
            (at + 1, Lex::Raw(hashes))
        },
        Lex::Line => if line_break_at(bytes, at) {
            (at + 1, Lex::Plain)
        } else {
            (at + 1, Lex::Line)
        },
        Lex::Block(depth) => if byte_at(bytes, at, 0x2a) && byte_at(bytes, at + 1, 0x2f) {
            (at + 2, if depth <= 1 {
                Lex::Plain
            } else {
                Lex::Block(depth - 1)
            })
        } else if byte_at(bytes, at, 0x2f) && byte_at(bytes, at + 1, 0x2a) {
            (at + 2, Lex::Block(depth + 1))
        } else {
            (at + 1, Lex::Block(depth))
        },
    }
}

/// The first byte at or after `at` that lies in plain text and where the
/// parser could get stuck, or the length of the text where there is none;
/// the place `at` lies in `lex`.
pub open spec fn first_stuck(bytes: Seq<u8>, at: int, lex: Lex) -> int
    decreases bytes.len() - at,
{
    if at < 0 || at >= bytes.len() {
        bytes.len() as int
    } else if lex is Plain && stuck_at(bytes, at) {
        at
    } else if at < lex_step(bytes, at, lex).0 < bytes.len() {
        first_stuck(bytes, lex_step(bytes, at, lex).0, lex_step(bytes, at, lex).1)
    } else {
        bytes.len() as int
    }
}

/// The first place of a text where the parser could get stuck: the
/// parenthesis and the reserved word after it.
pub open spec fn stuck_place(text: Seq<char>) -> Option<Span> {
    let bytes = encode_utf8(text);
    let i = first_stuck(bytes, 0, Lex::Plain);
    if i < bytes.len() {
        Some(Span { offset: i as usize, len: (reserved_at(bytes, i + 1)->0 + 1) as usize })
    } else {
        None
    }
}

/// Whether a text can be handed to the parser of the `kdl` crate: there is
/// no place in its plain text where the parser could get stuck.
pub open spec fn readable(text: Seq<char>) -> bool {
    stuck_place(text) is None
}

/// What is said of a text that is not readable.
pub open spec fn stuck_message() -> Seq<char> {
    "a reserved word after '(' needs more text after it"@
}

/// What is read from a text: the nodes of the document, or the place and
/// the message of a syntax error. A text that is not readable is an error
/// at the first place where the parser could get stuck; of any other text,
/// the `kdl` crate says what it holds.
pub open spec fn document_of(text: Seq<char>) -> Result<Seq<NodeModel>, (Span, Seq<char>)> {
    match stuck_place(text) {
        Some(place) => Err((place, stuck_message())),
        None => parsed_document(text),
    }
}

/// Of a readable text, what is read is what the `kdl` crate reads.
pub proof fn lemma_readable_document(text: Seq<char>)
    requires
        readable(text),
    ensures
        document_of(text) == parsed_document(text),
{
}

/// The error for a text that is no document, in the file `file`.
pub open spec fn syntax_error(file: Seq<char>, found: (Span, Seq<char>)) -> UsageErrModel {
    UsageErrModel::DocumentSyntax { file, span: found.0, message: found.1 }
}

/// `str::parse` for `kdl::KdlDocument`: the crate's parser. Whether it
/// accepts a text, the nodes it then reads and the error it otherwise gives
/// depend on the text alone.
///
/// The parser reads a type annotation only in plain text, at a parenthesis,
/// and reads strings, raw strings and comments as the scan steps over
/// them. Where the annotation is a reserved word, it reports the stretch of
/// the word's length after the word, and does not return where the text
/// has no such stretch. A readable text has no such place.
#[verifier::external_body]
fn parse_document(text: &str) -> (r: Result<kdl::KdlDocument, kdl::KdlError>)
    requires
        readable(text@),
    ensures
        match r {
            Ok(d) => parsed_document(text@) == Ok::<Seq<NodeModel>, (Span, Seq<char>)>(
                document_nodes(d),
            ),
            Err(e) => parsed_document(text@) == Err::<Seq<NodeModel>, (Span, Seq<char>)>(
                error_model(e),
            ),
        },
{
    text.parse::<kdl::KdlDocument>()
}

/// The field `span` of `kdl::KdlError`: where the parser gave up.
#[verifier::external_body]
fn error_span(e: &kdl::KdlError) -> (r: Span)
    ensures
        r == error_model(*e).0,
{
    Span { offset: e.span.offset(), len: e.span.len() }
}

/// `to_string` of `kdl::KdlError`: the parser's message.
#[verifier::external_body]
fn error_message(e: &kdl::KdlError) -> (r: String)
    ensures
        r@ == error_model(*e).1,
{
    e.to_string()
}

/// `KdlDocument::nodes`: the nodes of the document, in order.
#[verifier::external_body]
fn document_items(d: &kdl::KdlDocument) -> (r: &[kdl::KdlNode])
    ensures
        r@.len() == document_nodes(*d).len(),
        forall|i: int| 0 <= i < r@.len() ==> node_model(#[trigger] r@[i]) == document_nodes(*d)[i],
{
    d.nodes()
}

/// `KdlNode::name`: the name of the node, without its quotes.
#[verifier::external_body]
fn node_name(n: &kdl::KdlNode) -> (r: String)
    ensures
        r@ == node_model(*n).name,
{
    n.name().value().to_string()
}

/// `KdlNode::span`: the place of the node in the source.
#[verifier::external_body]
fn node_span(n: &kdl::KdlNode) -> (r: Span)
    ensures
        r == node_model(*n).span,
{
    Span { offset: n.span().offset(), len: n.span().len() }
}

/// `KdlNode::entries`: the entries of the node, in order.
#[verifier::external_body]
fn node_entries(n: &kdl::KdlNode) -> (r: &[kdl::KdlEntry])
    ensures
        r@.len() == node_model(*n).entries.len(),
        forall|i: int|
            0 <= i < r@.len() ==> entry_model(#[trigger] r@[i]) == node_model(*n).entries[i],
{
    n.entries()
}

/// `KdlNode::children`: the block of children, if the node has one.
#[verifier::external_body]
fn node_children(n: &kdl::KdlNode) -> (r: Option<&kdl::KdlDocument>)
    ensures
        match r {
            Some(d) => node_model(*n).children == Some(document_nodes(*d)),
            None => node_model(*n).children is None,
        },
{
    n.children()
}

/// `KdlEntry::name`: the key of a property, without its quotes; an argument
/// has none.
#[verifier::external_body]
fn entry_name(e: &kdl::KdlEntry) -> (r: Option<String>)
    ensures
        match r {
            Some(k) => entry_model(*e).name == Some(k@),
            None => entry_model(*e).name is None,
        },
{
    match e.name() {
        Some(k) => Some(k.value().to_string()),
        None => None,
    }
}

/// `KdlEntry::value`: the value of the entry. The two kinds of string are one
/// here, and so are the four bases of integer; of a floating-point number
/// only the kind is kept.
#[verifier::external_body]
fn entry_value(e: &kdl::KdlEntry) -> (r: Value)
    ensures
        r@ == entry_model(*e).value,
{
    match e.value() {
        KdlValue::RawString(s) => Value::String(s.clone()),
        KdlValue::String(s) => Value::String(s.clone()),
        KdlValue::Base2(i) => Value::Integer(*i),
        KdlValue::Base8(i) => Value::Integer(*i),
        KdlValue::Base10(i) => Value::Integer(*i),
        KdlValue::Base10Float(_) => Value::Float,
        KdlValue::Base16(i) => Value::Integer(*i),
        KdlValue::Bool(b) => Value::Boolean(*b),
        KdlValue::Null => Value::Null,
    }
}

/// `KdlEntry::span`: the place of the entry in the source.
#[verifier::external_body]
fn entry_span(e: &kdl::KdlEntry) -> (r: Span)
    ensures
        r == entry_model(*e).span,
{
    Span { offset: e.span().offset(), len: e.span().len() }
}

/// `KdlDocument::new`: a plain document without nodes.
#[verifier::external_body]
fn new_document() -> (r: kdl::KdlDocument)
    ensures
        document_nodes(r) == Seq::<NodeModel>::empty(),
        plain_document(r),
{
    kdl::KdlDocument::new()
}

/// `KdlDocument::nodes_mut`, pushed to: the node becomes the last of the
/// document, and nothing else changes.
#[verifier::external_body]
fn push_node(d: &mut kdl::KdlDocument, n: kdl::KdlNode)
    ensures
        document_nodes(*final(d)) == document_nodes(*old(d)).push(node_model(n)),
        plain_document(*old(d)) && plain_node(n) ==> plain_document(*final(d)),
{
    d.nodes_mut().push(n)
}

/// `KdlNode::new`: a plain node of the given name, without entries or
/// children, placed at the start of the source.
#[verifier::external_body]
fn new_node(name: &str) -> (r: kdl::KdlNode)
    ensures
        node_model(r) == (NodeModel {
            name: name@,
            entries: Seq::empty(),
            children: None,
            span: Span::zero(),
        }),
        plain_node(r),
{
    kdl::KdlNode::new(name)
}

/// `KdlNode::push`: the entry becomes the last of the node, and nothing else
/// changes.
#[verifier::external_body]
fn push_entry(n: &mut kdl::KdlNode, e: kdl::KdlEntry)
    ensures
        node_model(*final(n)) == (NodeModel {
            entries: node_model(*old(n)).entries.push(entry_model(e)),
            ..node_model(*old(n))
        }),
        plain_node(*old(n)) && plain_entry(e) ==> plain_node(*final(n)),
{
    n.push(e)
}

/// `KdlNode::set_children`: the document becomes the node's block, and
/// nothing else changes.
#[verifier::external_body]
fn set_children(n: &mut kdl::KdlNode, d: kdl::KdlDocument)
    ensures
        node_model(*final(n)) == (NodeModel {
            children: Some(document_nodes(d)),
            ..node_model(*old(n))
        }),
        plain_node(*old(n)) && plain_document(d) ==> plain_node(*final(n)),
{
    n.set_children(d)
}

/// `KdlEntry::new` on a string: a plain argument with that text.
#[verifier::external_body]
fn new_string_argument(value: &str) -> (r: kdl::KdlEntry)
    ensures
        entry_model(r) == (EntryModel {
            name: None,
            value: ValueModel::String(value@),
            span: Span::zero(),
        }),
        plain_entry(r),
{
    kdl::KdlEntry::new(value)
}

/// `KdlEntry::new_prop` on a string: a plain property with that key and
/// text.
#[verifier::external_body]
fn new_string_property(key: &str, value: &str) -> (r: kdl::KdlEntry)
    ensures
        entry_model(r) == (EntryModel {
            name: Some(key@),
            value: ValueModel::String(value@),
            span: Span::zero(),
        }),
        plain_entry(r),
{
    kdl::KdlEntry::new_prop(key, value)
}

/// `KdlEntry::new_prop` on a boolean: a plain property with that key and
/// truth value.
#[verifier::external_body]
fn new_bool_property(key: &str, value: bool) -> (r: kdl::KdlEntry)
    ensures
        entry_model(r) == (EntryModel {
            name: Some(key@),
            value: ValueModel::Boolean(value),
            span: Span::zero(),
        }),
        plain_entry(r),
{
    kdl::KdlEntry::new_prop(key, value)
}

/// `to_string` of `kdl::KdlDocument`: the text of the document. For a
/// plain document the text follows from the nodes alone: each node on a
/// line of its own, a block indented by four blanks.
#[verifier::external_body]
fn document_text(d: &kdl::KdlDocument) -> (r: String)
    requires
        plain_document(*d),
    ensures
        r@ == written(document_nodes(*d)),
{
    d.to_string()
}

/// The entry of the library that holds what an entry of the crate holds.
fn lift_entry(e: &kdl::KdlEntry) -> (r: Entry)
    ensures
        r@ == entry_model(*e),
{
    Entry { name: entry_name(e), value: entry_value(e), span: entry_span(e) }
}

/// The node of the library that holds what a node of the crate holds.
fn lift_node(n: &kdl::KdlNode) -> (r: Node)
    ensures
        r@ == node_model(*n),
    decreases node_model(*n),
{
    let items = node_entries(n);
    let count = items.len();
    let mut entries: Vec<Entry> = Vec::new();
    let mut i: usize = 0;
    while i < count
        invariant
            i <= count,
            count == items@.len(),
            count == node_model(*n).entries.len(),
            forall|j: int|
                0 <= j < items@.len() ==> entry_model(#[trigger] items@[j]) == node_model(
                    *n,
                ).entries[j],
            entries_view(entries@) == node_model(*n).entries.take(i as int),
        decreases count - i,
    {
        let e = lift_entry(&items[i]);
        proof {
            let before = entries_view(entries@);
            assert(entries_view(entries@.push(e)) =~= before.push(e@));
            assert(node_model(*n).entries.take(i + 1) =~= node_model(*n).entries.take(i as int).push(
                node_model(*n).entries[i as int],
            ));
        }
        entries.push(e);
        i = i + 1;
    }
    proof {
        assert(node_model(*n).entries.take(count as int) =~= node_model(*n).entries);
    }
    let children = match node_children(n) {
        Some(d) => {
            proof {
                let m = node_model(*n);
                assert(m.children == Some(document_nodes(*d)));
                assert(decreases_to!(m => m.children));
                assert(decreases_to!(m.children => m.children->0));
            }
            Some(lift_document(d))
        },
        None => None,
    };
    Node { name: node_name(n), entries, children, span: node_span(n) }
}

/// The nodes of the library that hold what a document of the crate holds.
fn lift_document(d: &kdl::KdlDocument) -> (r: Vec<Node>)
    ensures
        nodes_view(r@) == document_nodes(*d),
    decreases document_nodes(*d),
{
    let items = document_items(d);
    let count = items.len();
    let mut nodes: Vec<Node> = Vec::new();
    let mut i: usize = 0;
    while i < count
        invariant
            i <= count,
            count == items@.len(),
            count == document_nodes(*d).len(),
            forall|j: int|
                0 <= j < items@.len() ==> node_model(#[trigger] items@[j]) == document_nodes(*d)[j],
            nodes_view(nodes@) == document_nodes(*d).take(i as int),
        decreases count - i,
    {
        proof {
            assert(node_model(items@[i as int]) == document_nodes(*d)[i as int]);
        }
        let n = lift_node(&items[i]);
        proof {
            assert(nodes_view(nodes@.push(n)) =~= nodes_view(nodes@).push(n@));
            assert(document_nodes(*d).take(i + 1) =~= document_nodes(*d).take(i as int).push(
                document_nodes(*d)[i as int],
            ));
        }
        nodes.push(n);
        i = i + 1;
    }
    proof {
        assert(document_nodes(*d).take(count as int) =~= document_nodes(*d));
    }
    nodes
}

/// An entry that can be written out: an argument that holds a string, or a
/// property that holds a string or a boolean; it claims no place in a
/// source.
pub open spec fn entry_writable(e: EntryModel) -> bool {
    &&& e.span == Span::zero()
    &&& (e.value is String || (e.value is Boolean && e.name is Some))
}

/// A node that can be written out: it claims no place in a source, and its
/// entries and children can be written out.
pub open spec fn node_writable(n: NodeModel) -> bool
    decreases n, 1nat,
{
    &&& n.span == Span::zero()
    &&& forall|i: int| 0 <= i < n.entries.len() ==> entry_writable(#[trigger] n.entries[i])
    &&& match n.children {
        Some(c) => nodes_writable(c),
        None => true,
    }
}

/// Nodes that can all be written out.
pub open spec fn nodes_writable(nodes: Seq<NodeModel>) -> bool
    decreases nodes, 0nat,
{
    forall|i: int| 0 <= i < nodes.len() ==> node_writable(#[trigger] nodes[i])
}

/// The entry of the crate that holds what an entry of the library holds.
fn build_entry(e: &Entry) -> (r: kdl::KdlEntry)
    requires
        entry_writable(e@),
    ensures
        entry_model(r) == e@,
        plain_entry(r),
{
    match (&e.name, &e.value) {
        (None, Value::String(s)) => new_string_argument(s.as_str()),
        (Some(k), Value::String(s)) => new_string_property(k.as_str(), s.as_str()),
        (Some(k), Value::Boolean(b)) => new_bool_property(k.as_str(), *b),
        _ => vstd::pervasive::unreached(),
    }
}

/// The node of the crate that holds what a node of the library holds.
fn build_node(n: &Node) -> (r: kdl::KdlNode)
    requires
        node_writable(n@),
    ensures
        node_model(r) == n@,
        plain_node(r),
    decreases n@,
{
    let mut out = new_node(n.name.as_str());
    let mut i: usize = 0;
    proof {
        assert(n@.entries.take(0) =~= Seq::<EntryModel>::empty());
    }
    while i < n.entries.len()
        invariant
            i <= n.entries.len(),
            node_writable(n@),
            plain_node(out),
            node_model(out) == (NodeModel {
                name: n@.name,
                entries: n@.entries.take(i as int),
                children: None,
                span: Span::zero(),
            }),
        decreases n.entries.len() - i,
    {
        proof {
            assert(n@.entries[i as int] == n.entries[i as int]@);
            assert(n@.entries.take(i + 1) =~= n@.entries.take(i as int).push(n@.entries[i as int]));
        }
        let e = build_entry(&n.entries[i]);
        push_entry(&mut out, e);
        i = i + 1;
    }
    proof {
        assert(n@.entries.take(i as int) =~= n@.entries);
    }
    match &n.children {
        Some(c) => {
            proof {
                assert(decreases_to!(n@ => n@.children));
                assert(decreases_to!(n@.children => n@.children->0));
            }
            let d = build_document(c.as_slice());
            set_children(&mut out, d);
        },
        None => {},
    }
    out
}

/// The document of the crate that holds the given nodes.
fn build_document(nodes: &[Node]) -> (r: kdl::KdlDocument)
    requires
        nodes_writable(nodes_view(nodes@)),
    ensures
        document_nodes(r) == nodes_view(nodes@),
        plain_document(r),
    decreases nodes_view(nodes@),
{
    let mut out = new_document();
    let mut i: usize = 0;
    while i < nodes.len()
        invariant
            i <= nodes.len(),
            nodes_writable(nodes_view(nodes@)),
            plain_document(out),
            document_nodes(out) == nodes_view(nodes@).take(i as int),
        decreases nodes.len() - i,
    {
        proof {
            assert(nodes_view(nodes@)[i as int] == nodes[i as int]@);
            assert(nodes_view(nodes@).take(i + 1) =~= nodes_view(nodes@).take(i as int).push(
                nodes[i as int]@,
            ));
        }
        let n = build_node(&nodes[i]);
        push_node(&mut out, n);
        i = i + 1;
    }
    proof {
        assert(nodes_view(nodes@).take(i as int) =~= nodes_view(nodes@));
    }
    out
}

/// The length of the reserved word that stands at byte `at`, if one does.
fn reserved_word_at(bytes: &[u8], at: usize) -> (r: Option<usize>)
    ensures
        match r {
            Some(n) => reserved_at(bytes@, at as int) == Some(n as int),
            None => reserved_at(bytes@, at as int) is None,
        },
{
    let len = bytes.len();
    if at > len {
        return None;
    }
    let left = len - at;
    if left >= 4 && bytes[at] == 0x74 && bytes[at + 1] == 0x72 && bytes[at + 2] == 0x75 && bytes[at
        + 3] == 0x65 {
        Some(4)
    } else if left >= 5 && bytes[at] == 0x66 && bytes[at + 1] == 0x61 && bytes[at + 2] == 0x6c
        && bytes[at + 3] == 0x73 && bytes[at + 4] == 0x65 {
        Some(5)
    } else if left >= 4 && bytes[at] == 0x6e && bytes[at + 1] == 0x75 && bytes[at + 2] == 0x6c
        && bytes[at + 3] == 0x6c {
        Some(4)
    } else {
        None
    }
}

/// What a place of a text lies in, as the scan keeps it.
#[derive(Debug, Clone, Copy)]
pub enum Lexing {
    Plain,
    Quoted,
    Raw(usize),
    Line,
    Block(usize),
}

impl View for Lexing {
    type V = Lex;

    open spec fn view(&self) -> Lex {
        match *self {
            Lexing::Plain => Lex::Plain,
            Lexing::Quoted => Lex::Quoted,
            Lexing::Raw(hashes) => Lex::Raw(hashes as int),
            Lexing::Line => Lex::Line,
            Lexing::Block(depth) => Lex::Block(depth as int),
        }
    }
}

/// Whether the byte `b` stands at `at`.
fn has_byte(bytes: &[u8], at: usize, b: u8) -> (r: bool)
    ensures
        r == byte_at(bytes@, at as int, b),
{
    at < bytes.len() && bytes[at] == b
}

/// Whether the byte `b` stands `ahead` bytes after `at`.
fn has_byte_after(bytes: &[u8], at: usize, ahead: usize, b: u8) -> (r: bool)
    requires
        at < bytes.len(),
    ensures
        r == byte_at(bytes@, at + ahead, b),
{
    bytes.len() - at > ahead && bytes[at + ahead] == b
}

/// Counts the hashes that stand in a row from `at` on.
fn count_hashes(bytes: &[u8], at: usize) -> (n: usize)
    ensures
        n == hash_run(bytes@, at as int),
        at <= bytes.len() ==> at + n <= bytes.len(),
{
    if at >= bytes.len() {
        return 0;
    }
    let mut j: usize = at;
    while j < bytes.len() && bytes[j] == 0x23
        invariant
            at <= j <= bytes.len(),
            hash_run(bytes@, at as int) == (j - at) + hash_run(bytes@, j as int),
        decreases bytes.len() - j,
    {
        j = j + 1;
    }
    j - at
}

/// Whether a bare word that reaches up to `at` ends there.
fn word_ends(bytes: &[u8], at: usize) -> (r: bool)
    ensures
        r == word_ends_at(bytes@, at as int),
{
    if at >= bytes.len() {
        return true;
    }
    let b = bytes[at];
    if b <= 0x20 || b == 0x22 || b == 0x28 || b == 0x29 || b == 0x2c || b == 0x2f || b == 0x3b || b
        == 0x3c || b == 0x3d || b == 0x3e || b == 0x5b || b == 0x5c || b == 0x5d || b == 0x7b || b
        == 0x7d {
        return true;
    }
    if b == 0xc2 {
        has_byte_after(bytes, at, 1, 0x85) || has_byte_after(bytes, at, 1, 0xa0)
    } else if b == 0xe1 {
        has_byte_after(bytes, at, 1, 0x9a) && has_byte_after(bytes, at, 2, 0x80)
    } else if b == 0xe2 {
        if has_byte_after(bytes, at, 1, 0x80) {
            bytes.len() - at > 2 && (0x80 <= bytes[at + 2] && bytes[at + 2] <= 0x8a || bytes[at + 2]
                == 0xa8 || bytes[at + 2] == 0xa9 || bytes[at + 2] == 0xaf)
        } else {
            has_byte_after(bytes, at, 1, 0x81) && has_byte_after(bytes, at, 2, 0x9f)
        }
    } else if b == 0xe3 {
        has_byte_after(bytes, at, 1, 0x80) && has_byte_after(bytes, at, 2, 0x80)
    } else if b == 0xef {
        has_byte_after(bytes, at, 1, 0xbb) && has_byte_after(bytes, at, 2, 0xbf)
    } else {
        false
    }
}

/// Whether a line break begins at `at`.
fn line_breaks(bytes: &[u8], at: usize) -> (r: bool)
    requires
        at < bytes.len(),
    ensures
        r == line_break_at(bytes@, at as int),
{
    let b = bytes[at];
    if b == 0x0a || b == 0x0c || b == 0x0d {
        true
    } else if b == 0xc2 {
        has_byte_after(bytes, at, 1, 0x85)
    } else if b == 0xe2 {
        has_byte_after(bytes, at, 1, 0x80) && (has_byte_after(bytes, at, 2, 0xa8) || has_byte_after(
            bytes,
            at,
            2,
            0xa9,
        ))
    } else {
        false
    }
}

/// The reserved word after the parenthesis at `at`, if the parser could
/// get stuck there: the place of both.
fn stuck(text: &str, bytes: &[u8], at: usize) -> (r: Option<Span>)
    requires
        bytes@ == encode_utf8(text@),
        at < bytes.len(),
    ensures
        match r {
            Some(place) => stuck_at(bytes@, at as int) && place.offset == at && place.len
                == reserved_at(bytes@, at + 1)->0 + 1,
            None => !stuck_at(bytes@, at as int),
        },
{
    if bytes[at] != 0x28 {
        return None;
    }
    match reserved_word_at(bytes, at + 1) {
        Some(n) => {
            let after = at + 1 + n;
            if !word_ends(bytes, after) {
                return None;
            }
            let ends = bytes.len() - after >= n && text.is_char_boundary(after + n);
            if ends {
                None
            } else {
                proof {
                    encode_utf8_valid_utf8(text@);
                }
                Some(Span { offset: at, len: n + 1 })
            }
        },
        None => None,
    }
}

/// One step of the scan: the next place, not past the end of the text, and
/// what it lies in.
fn step(bytes: &[u8], at: usize, lex: Lexing) -> (r: (usize, Lexing))
    requires
        at < bytes.len(),
        lex matches Lexing::Block(depth) ==> depth <= at,
        lex matches Lexing::Raw(hashes) ==> hashes <= at,
    ensures
        at < r.0 <= bytes.len(),
        lex_step(bytes@, at as int, lex@).0 > at,
        r.0 == lex_step(bytes@, at as int, lex@).0 || (r.0 == bytes.len() && lex_step(
            bytes@,
            at as int,
            lex@,
        ).0 >= bytes.len()),
        r.0 < bytes.len() ==> r.1@ == lex_step(bytes@, at as int, lex@).1,
        r.1 matches Lexing::Block(depth) ==> depth <= r.0,
        r.1 matches Lexing::Raw(hashes) ==> hashes <= r.0,
{
    let len = bytes.len();
    let left = len - at;
    let two = if left >= 2 {
        at + 2
    } else {
        len
    };
    match lex {
        Lexing::Plain => {
            if bytes[at] == 0x22 {
                (at + 1, Lexing::Quoted)
            } else if bytes[at] == 0x72 {
                let hashes = count_hashes(bytes, at + 1);
                if has_byte_after(bytes, at, 1 + hashes, 0x22) {
                    (at + 2 + hashes, Lexing::Raw(hashes))
                } else {
                    (at + 1, Lexing::Plain)
                }
            } else if bytes[at] == 0x2f && has_byte_after(bytes, at, 1, 0x2f) {
                (at + 2, Lexing::Line)
            } else if bytes[at] == 0x2f && has_byte_after(bytes, at, 1, 0x2a) {
                (at + 2, Lexing::Block(1))
            } else {
                (at + 1, Lexing::Plain)
            }
        },
        Lexing::Quoted => {
            if bytes[at] == 0x5c {
                (two, Lexing::Quoted)
            } else if bytes[at] == 0x22 {
                (at + 1, Lexing::Plain)
            } else {
                (at + 1, Lexing::Quoted)
            }
        },
        Lexing::Raw(hashes) => {
            if bytes[at] == 0x22 && count_hashes(bytes, at + 1) >= hashes {
                (at + 1 + hashes, Lexing::Plain)
            } else {
                (at + 1, Lexing::Raw(hashes))
            }
        },
        Lexing::Line => {
            if line_breaks(bytes, at) {
                (at + 1, Lexing::Plain)
            } else {
                (at + 1, Lexing::Line)
            }
        },
        Lexing::Block(depth) => {
            if bytes[at] == 0x2a && has_byte_after(bytes, at, 1, 0x2f) {
                if depth <= 1 {
                    (at + 2, Lexing::Plain)
                } else {
                    (at + 2, Lexing::Block(depth - 1))
                }
            } else if bytes[at] == 0x2f && has_byte_after(bytes, at, 1, 0x2a) {
                (at + 2, Lexing::Block(depth + 1))
            } else {
                (at + 1, Lexing::Block(depth))
            }
        },
    }
}

/// Looks for the first place of a text where the parser could get stuck:
/// the text is gone through once, and strings and comments are stepped
/// over.
pub fn find_stuck(text: &str) -> (r: Option<Span>)
    ensures
        r == stuck_place(text@),
{
    let bytes = text.as_bytes();
    let len = bytes.len();
    let mut at: usize = 0;
    let mut lex = Lexing::Plain;
    while at < len
        invariant
            at <= len,
            len == bytes@.len(),
            bytes@ == encode_utf8(text@),
            lex matches Lexing::Block(depth) ==> depth <= at,
            lex matches Lexing::Raw(hashes) ==> hashes <= at,
            first_stuck(bytes@, 0, Lex::Plain) == first_stuck(bytes@, at as int, lex@),
        decreases len - at,
    {
        match lex {
            Lexing::Plain => {
                match stuck(text, bytes, at) {
                    Some(place) => {
                        return Some(place);
                    },
                    None => {},
                }
            },
            _ => {},
        }
        let (to, then) = step(bytes, at, lex);
        at = to;
        lex = then;
    }
    None
}

/// Reads the nodes of a document from its text.
///
/// A text in which the parser of the `kdl` crate could get stuck is a
/// syntax error at the first such place. Of any other text the parser
/// decides whether it is a document and which nodes it holds; the result is
/// the same tree in the library's own types, or a syntax error with the
/// place and the message that the parser gives.
pub fn read_nodes(ctx: &ParsingContext, text: &str) -> (r: Result<Vec<Node>, UsageErr>)
    ensures
        match r {
            Ok(nodes) => document_of(text@) == Ok::<Seq<NodeModel>, (Span, Seq<char>)>(
                nodes_view(nodes@),
            ),
            Err(e) => document_of(text@) is Err && e@ == syntax_error(
                ctx.file@,
                document_of(text@)->Err_0,
            ),
        },
{
    match find_stuck(text) {
        Some(place) => Err(
            UsageErr::DocumentSyntax {
                file: ctx.file.clone(),
                span: place,
                message: "a reserved word after '(' needs more text after it".to_owned(),
            },
        ),
        None => match parse_document(text) {
            Ok(d) => Ok(lift_document(&d)),
            Err(e) => Err(
                UsageErr::DocumentSyntax {
                    file: ctx.file.clone(),
                    span: error_span(&e),
                    message: error_message(&e),
                },
            ),
        },
    }
}

/// Writes nodes out as the text of a document: the text that the `kdl` crate
/// gives for a plain document that holds exactly these nodes.
pub(crate) fn write_nodes(nodes: &[Node]) -> (r: String)
    requires
        nodes_writable(nodes_view(nodes@)),
    ensures
        r@ == written(nodes_view(nodes@)),
{
    let d = build_document(nodes);
    document_text(&d)
}

} // verus!

//! Specification files: a document, optionally under a first line that
//! names the interpreter, and optionally followed by the body of a script.
use vstd::prelude::*;
use std::path::Path;
use crate::context::ParsingContext;
use crate::error::{UsageErr, UsageErrModel};
use crate::node::result_view;
use crate::parse::all_compiled;
use crate::spec::{specs_view, SpecModel, Spec_old};
use crate::text::{slice, str_eq, strings_view, to_chars};

verus! {

/// Whether a character is white space: one of the characters with the
/// Unicode property `White_Space`.
pub open spec fn white_space(c: char) -> bool {
    let code = c as u32;
    ||| 0x09 <= code <= 0x0d
    ||| code == 0x20
    ||| code == 0x85
    ||| code == 0xa0
    ||| code == 0x1680
    ||| 0x2000 <= code <= 0x200a
    ||| code == 0x2028
    ||| code == 0x2029
    ||| code == 0x202f
    ||| code == 0x205f
    ||| code == 0x3000
}

/// `char::is_whitespace` of the standard library: whether the character has
/// the Unicode property `White_Space`.
#[verifier::external_body]
fn is_white_space(c: char) -> (r: bool)
    ensures
        r == white_space(c),
{
    c.is_whitespace()
}

/// `Path::file_name` of the standard library: the last part of a path, if
/// it has one. Nothing is claimed of it: what the parts of a path are
/// depends on the platform.
#[verifier::external_body]
fn path_file_name(path: &str) -> Option<String> {
    match Path::new(path).file_name() {
        Some(name) => Some(name.to_string_lossy().into_owned()),
        None => None,
    }
}

/// `Path::is_relative` of the standard library: whether a path does not
/// start at a root. Nothing is claimed of it: what a root is depends on the
/// platform.
#[verifier::external_body]
fn path_is_relative(path: &str) -> bool {
    Path::new(path).is_relative()
}

/// `Path::parent` of the standard library: the path without its last part,
/// if there is such a path. Nothing is claimed of it.
#[verifier::external_body]
fn path_parent(path: &str) -> Option<String> {
    match Path::new(path).parent() {
        Some(dir) => Some(dir.to_string_lossy().into_owned()),
        None => None,
    }
}

/// `Path::join` of the standard library: `path` as seen from the directory
/// `dir`. Nothing is claimed of it.
#[verifier::external_body]
fn path_join(dir: &str, path: &str) -> String {
    Path::new(dir).join(path).to_string_lossy().into_owned()
}

/// The first line of a file that names the interpreter.
pub open spec fn interpreter_line() -> Seq<char> {
    "#!/usr/bin/env usage\n"@
}

/// Whether `text` begins with `prefix`.
pub open spec fn starts_with(text: Seq<char>, prefix: Seq<char>) -> bool {
    prefix.len() <= text.len() && text.subrange(0, prefix.len() as int) == prefix
}

/// Whether the marker of a script body, a line break followed by `#!`,
/// stands at position `i` of `text`.
pub open spec fn marker_at(text: Seq<char>, i: int) -> bool {
    &&& 0 <= i
    &&& i + 3 <= text.len()
    &&& text[i] == '\n'
    &&& text[i + 1] == '#'
    &&& text[i + 2] == '!'
}

/// The position of the first marker at or after `from`, or the length of
/// the text where there is none.
pub open spec fn first_marker(text: Seq<char>, from: int) -> int
    decreases text.len() - from,
{
    if from < 0 || from + 3 > text.len() {
        text.len() as int
    } else if marker_at(text, from) {
        from
    } else {
        first_marker(text, from + 1)
    }
}

/// The first position at or after `from` that holds no white space, or the
/// length of the text.
pub open spec fn content_start(text: Seq<char>, from: int) -> int
    decreases text.len() - from,
{
    if 0 <= from < text.len() && white_space(text[from]) {
        content_start(text, from + 1)
    } else {
        from
    }
}

/// The end of the last stretch before `to` that holds no white space, not
/// below `low`.
pub open spec fn content_end(text: Seq<char>, low: int, to: int) -> int
    decreases to,
{
    if 0 <= low < to <= text.len() && white_space(text[to - 1]) {
        content_end(text, low, to - 1)
    } else {
        to
    }
}

/// The text without the white space at its start and at its end.
pub open spec fn trimmed(text: Seq<char>) -> Seq<char> {
    let start = content_start(text, 0);
    text.subrange(start, content_end(text, start, text.len() as int))
}

/// The document and the script body of a file.
///
/// The line that names the interpreter, where the file begins with it, is
/// left out. The document is what stands before the first marker, without
/// the white space around it. The body is `#!` followed by what stands
/// after that marker; a file without a marker has the body `#!`.
pub open spec fn split(full: Seq<char>) -> (Seq<char>, Seq<char>) {
    let text = if starts_with(full, interpreter_line()) {
        full.skip(interpreter_line().len() as int)
    } else {
        full
    };
    let at = first_marker(text, 0);
    (
        trimmed(text.take(at)),
        "#!"@ + (if at < text.len() {
            text.skip(at + 3)
        } else {
            Seq::empty()
        }),
    )
}

/// Whether the characters from `from` on begin with `prefix`.
fn begins_with(chars: &Vec<char>, prefix: &Vec<char>) -> (r: bool)
    ensures
        r == starts_with(chars@, prefix@),
{
    if prefix.len() > chars.len() {
        return false;
    }
    let mut i: usize = 0;
    while i < prefix.len()
        invariant
            i <= prefix.len(),
            prefix.len() <= chars.len(),
            forall|j: int| 0 <= j < i ==> chars@[j] == prefix@[j],
        decreases prefix.len() - i,
    {
        if chars[i] != prefix[i] {
            proof {
                assert(chars@.subrange(0, prefix.len() as int)[i as int] == chars@[i as int]);
            }
            return false;
        }
        i = i + 1;
    }
    proof {
        assert(chars@.subrange(0, prefix.len() as int) =~= prefix@);
    }
    true
}

/// Splits the text of a file into its document and its script body.
pub fn split_script(full: &str) -> (r: (String, String))
    ensures
        (r.0@, r.1@) == split(full@),
{
    let chars = to_chars(full);
    let line = to_chars("#!/usr/bin/env usage\n");
    let n = chars.len();
    let skipped: usize = if begins_with(&chars, &line) {
        line.len()
    } else {
        0
    };
    let ghost text = full@.skip(skipped as int);
    // the marker
    let mut at: usize = skipped;
    while n - at >= 3 && !(chars[at] == '\n' && chars[at + 1] == '#' && chars[at + 2] == '!')
        invariant
            skipped <= at <= n,
            n == chars.len(),
            chars@ == full@,
            text == full@.skip(skipped as int),
            first_marker(text, 0) == first_marker(text, at - skipped),
        decreases n - at,
    {
        proof {
            assert(text[at - skipped] == full@[at as int]);
            assert(text[at - skipped + 1] == full@[at + 1]);
            assert(text[at - skipped + 2] == full@[at + 2]);
        }
        at = at + 1;
    }
    let found = n - at >= 3;
    proof {
        if found {
            assert(text[at - skipped] == full@[at as int]);
            assert(text[at - skipped + 1] == full@[at + 1]);
            assert(text[at - skipped + 2] == full@[at + 2]);
            assert(first_marker(text, 0) == at - skipped);
        } else {
            assert(first_marker(text, 0) == text.len());
        }
    }
    let end: usize = if found {
        at
    } else {
        n
    };
    let ghost head = text.take(end - skipped);
    // the white space around the document
    let mut start: usize = skipped;
    while start < end && is_white_space(chars[start])
        invariant
            skipped <= start <= end <= n,
            n == chars.len(),
            chars@ == full@,
            text == full@.skip(skipped as int),
            head == text.take(end - skipped),
            content_start(head, 0) == content_start(head, start - skipped),
        decreases end - start,
    {
        proof {
            assert(head[start - skipped] == full@[start as int]);
        }
        start = start + 1;
    }
    proof {
        if start < end {
            assert(head[start - skipped] == full@[start as int]);
        }
        assert(content_start(head, 0) == start - skipped);
    }
    let mut stop: usize = end;
    while start < stop && is_white_space(chars[stop - 1])
        invariant
            skipped <= start <= stop <= end <= n,
            n == chars.len(),
            chars@ == full@,
            text == full@.skip(skipped as int),
            head == text.take(end - skipped),
            content_end(head, start - skipped, head.len() as int) == content_end(
                head,
                start - skipped,
                stop - skipped,
            ),
        decreases stop,
    {
        proof {
            assert(head[stop - skipped - 1] == full@[stop - 1]);
        }
        stop = stop - 1;
    }
    proof {
        if start < stop {
            assert(head[stop - skipped - 1] == full@[stop - 1]);
        }
        assert(content_end(head, start - skipped, head.len() as int) == stop - skipped);
    }
    let document = slice(full, start, stop);
    let rest = if found {
        slice(full, at + 3, n)
    } else {
        String::new()
    };
    let mut body = "#!".to_owned();
    body.append(rest.as_str());
    proof {
        assert(document@ =~= head.subrange(start - skipped, stop - skipped));
        if found {
            assert(rest@ =~= text.skip(at - skipped + 3));
        }
        assert(full@.skip(0) =~= full@);
        let whole = if starts_with(full@, interpreter_line()) {
            full@.skip(interpreter_line().len() as int)
        } else {
            full@
        };
        assert(text == whole);
        assert(first_marker(text, 0) == end - skipped);
        assert(document@ == trimmed(head));
        assert(document@ == split(full@).0);
        assert(body@ == split(full@).1);
    }
    (document, body)
}

impl SpecModel {
    /// What the text of a specification file declares: its document
    /// compiled, with the defaults that the name of the file gives, and its
    /// script body.
    pub open spec fn compile_file(
        file: Seq<char>,
        file_name: Seq<char>,
        full: Seq<char>,
        inc: Seq<SpecModel>,
    ) -> Result<(SpecModel, Seq<char>), UsageErrModel> {
        match SpecModel::compile(file, split(full).0, inc) {
            Ok(s) => Ok((s.with_file_defaults(file_name), split(full).1)),
            Err(x) => Err(x),
        }
    }

    /// The specification with the defaults that the name of its file
    /// gives: a tool without a name for its executable has the file's name
    /// for it, and a tool without a name has that of its executable.
    pub open spec fn with_file_defaults(self, file_name: Seq<char>) -> SpecModel {
        let bin = if self.bin.len() == 0 {
            file_name
        } else {
            self.bin
        };
        SpecModel {
            bin,
            name: if self.name.len() == 0 {
                bin
            } else {
                self.name
            },
            ..self
        }
    }
}

impl Spec_old {
    /// The specification with the defaults that the name of its file
    /// gives.
    pub fn with_file_defaults(self, file_name: &str) -> (r: Spec_old)
        ensures
            r@ == self@.with_file_defaults(file_name@),
    {
        let mut spec = self;
        if spec.bin.as_str().is_empty() {
            spec.bin = file_name.to_owned();
        }
        if spec.name.as_str().is_empty() {
            spec.name = spec.bin.clone();
        }
        spec
    }

    /// Compiles the text of a specification file.
    ///
    /// `file` is the path of the file, for the errors that point into it;
    /// `file_name` is the last part of that path; `included` holds the
    /// compiled specifications of the files that this one refers to, in the
    /// order of the references. The text is split into its document and
    /// its script body, the document is compiled, and the defaults that the
    /// file's name gives are filled in. The body comes back beside the
    /// specification.
    pub fn parse_file_text(file: &str, file_name: &str, full: &str, included: Vec<Spec_old>) -> (r:
        Result<(Spec_old, String), UsageErr>)
        ensures
            match r {
                Ok((spec, body)) => SpecModel::compile_file(
                    file@,
                    file_name@,
                    full@,
                    specs_view(included@),
                ) == Ok::<(SpecModel, Seq<char>), UsageErrModel>((spec@, body@)),
                Err(x) => SpecModel::compile_file(
                    file@,
                    file_name@,
                    full@,
                    specs_view(included@),
                ) == Err::<(SpecModel, Seq<char>), UsageErrModel>(x@),
            },
            r is Ok ==> r->Ok_0.0@.annotated(),
            all_compiled(specs_view(included@)) && r is Ok ==> r->Ok_0.0@.compiled(),
            r is Ok && file_name@.len() > 0 ==> r->Ok_0.0@.bin.len() > 0 && r->Ok_0.0@.name.len()
                > 0,
    {
        let (document, body) = split_script(full);
        let ctx = ParsingContext::new(file, document.as_str());
        match Spec_old::parse_with(&ctx, document.as_str(), included) {
            Ok(spec) => Ok((spec.with_file_defaults(file_name), body)),
            Err(x) => Err(x),
        }
    }

    /// Compiles the text of the specification file at `file`.
    ///
    /// This is `parse_file_text` with the name of the file taken from its
    /// path, as the platform reads paths. A specification that comes out of
    /// it names its tool and its executable: where neither the document nor
    /// the path gives a name for the executable, the result is an error.
    pub fn parse_file_content(file: &str, full: &str, included: Vec<Spec_old>) -> (r: Result<
        (Spec_old, String),
        UsageErr,
    >)
        ensures
            match SpecModel::compile(file@, split(full@).0, specs_view(included@)) {
                Ok(s) => match r {
                    Ok((spec, body)) => body@ == split(full@).1 && exists|name: Seq<char>|
                        spec@ == #[trigger] s.with_file_defaults(name),
                    Err(x) => s.bin.len() == 0 && x@ == (UsageErrModel::Io {
                        file: file@,
                        message: "no file name"@,
                    }),
                },
                Err(x) => r is Err && r->Err_0@ == x,
            },
            match SpecModel::compile(file@, split(full@).0, specs_view(included@)) {
                Ok(s) => s.bin.len() > 0 ==> r is Ok && r->Ok_0.0@ == s.with_file_defaults(
                    Seq::empty(),
                ),
                Err(_) => true,
            },
            r is Ok ==> r->Ok_0.0@.bin.len() > 0 && r->Ok_0.0@.name.len() > 0,
            r is Ok ==> r->Ok_0.0@.annotated(),
            all_compiled(specs_view(included@)) && r is Ok ==> r->Ok_0.0@.compiled(),
    {
        let name = match path_file_name(file) {
            Some(name) => name,
            None => String::new(),
        };
        match Spec_old::parse_file_text(file, name.as_str(), full, included) {
            Ok((spec, body)) => {
                if spec.bin.as_str().is_empty() {
                    Err(UsageErr::Io { file: file.to_owned(), message: "no file name".to_owned() })
                } else {
                    Ok((spec, body))
                }
            },
            Err(x) => Err(x),
        }
    }

    /// Compiles the text of a specification file that another file refers
    /// to. The text is split as that of any file, and its document is
    /// compiled; the name of the file gives no defaults, which are for the
    /// file that is compiled first, and the script body is left aside.
    pub fn parse_referred_text(file: &str, full: &str, included: Vec<Spec_old>) -> (r: Result<
        Spec_old,
        UsageErr,
    >)
        ensures
            result_view(r) == SpecModel::compile(file@, split(full@).0, specs_view(included@)),
            r is Ok ==> r->Ok_0@.annotated(),
            all_compiled(specs_view(included@)) && r is Ok ==> r->Ok_0@.compiled(),
    {
        let (document, _) = split_script(full);
        let ctx = ParsingContext::new(file, document.as_str());
        Spec_old::parse_with(&ctx, document.as_str(), included)
    }
}

/// The error for a file that cannot be found from where it is referred to.
pub open spec fn not_found(path: Seq<char>) -> UsageErrModel {
    UsageErrModel::Io { file: path, message: "no directory to look in"@ }
}

/// The path under which a file that was referred to is read, given what the
/// platform says of the paths: a path that is not relative is taken as it
/// is; a relative one is taken from the directory of the file that refers
/// to it, and cannot be found where that file has no directory.
pub open spec fn chosen_path(path: Seq<char>, relative: bool, from_directory: Option<Seq<char>>) -> Result<
    Seq<char>,
    UsageErrModel,
> {
    if !relative {
        Ok(path)
    } else {
        match from_directory {
            Some(p) => Ok(p),
            None => Err(not_found(path)),
        }
    }
}

/// Chooses the path under which a file that was referred to is read.
///
/// `relative` says whether `path` is relative, and `from_directory` is
/// `path` as seen from the directory of the file that refers to it, if that
/// file has a directory.
pub fn choose_path(path: &str, relative: bool, from_directory: Option<String>) -> (r: Result<
    String,
    UsageErr,
>)
    ensures
        result_view(r) == chosen_path(
            path@,
            relative,
            match from_directory {
                Some(p) => Some(p@),
                None => None,
            },
        ),
{
    if !relative {
        Ok(path.to_owned())
    } else {
        match from_directory {
            Some(p) => Ok(p),
            None => Err(
                UsageErr::Io { file: path.to_owned(), message: "no directory to look in".to_owned() },
            ),
        }
    }
}

/// The path under which the file is read that the file `including` refers
/// to as `path`. What is relative, and what the directory of a file is, the
/// platform says; whatever it says, the path is chosen as `choose_path`
/// does.
pub fn referred_file(including: &str, path: &str) -> (r: Result<String, UsageErr>)
    ensures
        exists|relative: bool, from_directory: Option<Seq<char>>|
            result_view(r) == #[trigger] chosen_path(path@, relative, from_directory),
{
    let relative = path_is_relative(path);
    let from_directory = match path_parent(including) {
        Some(dir) => Some(path_join(dir.as_str(), path)),
        None => None,
    };
    let ghost seen = crate::text::option_view(from_directory);
    let r = choose_path(path, relative, from_directory);
    assert(result_view(r) == chosen_path(path@, relative, seen));
    r
}

/// Refuses a file that is being compiled already.
///
/// `active` holds the paths of the files that are being compiled, from the
/// first down to the one that refers to `path`. A file that refers,
/// directly or through others, to itself would be compiled without end.
pub fn check_chain(active: &Vec<String>, path: &str) -> (r: Result<(), UsageErr>)
    ensures
        match r {
            Ok(_) => !strings_view(active@).contains(path@),
            Err(x) => strings_view(active@).contains(path@) && x@ == (
            UsageErrModel::CircularInclude { file: path@ }),
        },
{
    let mut i: usize = 0;
    while i < active.len()
        invariant
            i <= active.len(),
            forall|j: int| 0 <= j < i ==> strings_view(active@)[j] != path@,
        decreases active.len() - i,
    {
        if str_eq(active[i].as_str(), path) {
            proof {
                assert(strings_view(active@)[i as int] == path@);
            }
            return Err(UsageErr::CircularInclude { file: path.to_owned() });
        }
        i = i + 1;
    }
    Ok(())
}

} // verus!

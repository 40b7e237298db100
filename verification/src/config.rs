//! The build configuration: one text made of a file and of the files that it
//! names in include directives, each put in the place of its directive.
//!
//! The library reads no file. Its caller hands it the files read so far; the
//! library flattens them, or names the next file that it needs.

use vstd::prelude::*;
use vstd::slice::slice_subrange;
use vstd::string::StringExecFns;
use crate::error::{failure, ErrorKind, Failure, FailureView};
use crate::text::{from_chars, position_of, texts_of, to_chars};

verus! {

/// A file of the build configuration, as the caller found it.
#[derive(Debug)]
pub struct SourceFile {
    /// The path of the file whose directive names this file; empty for the
    /// file that the configuration starts with.
    pub base: String,
    /// The file's path as the directive gives it.
    pub target: String,
    /// Whether the file could be found and read.
    pub readable: bool,
    /// The file's own path with all links resolved; a path given in one of
    /// its directives is relative to the directory of this path.
    pub path: String,
    /// The file's content.
    pub content: String,
}

/// What a `SourceFile` stands for.
pub struct Source {
    pub base: Seq<char>,
    pub target: Seq<char>,
    pub readable: bool,
    pub path: Seq<char>,
    pub content: Seq<char>,
}

impl View for SourceFile {
    type V = Source;

    open spec fn view(&self) -> Source {
        Source {
            base: self.base@,
            target: self.target@,
            readable: self.readable,
            path: self.path@,
            content: self.content@,
        }
    }
}

/// The files that a table of `SourceFile` stands for.
pub open spec fn sources_of(table: Seq<SourceFile>) -> Seq<Source> {
    Seq::new(table.len(), |i: int| table[i]@)
}

/// A file that the configuration needs and the caller has not handed over.
#[derive(Debug)]
pub struct IncludeRequest {
    /// The path of the file whose directive names the file; empty for the
    /// file that the configuration starts with.
    pub base: String,
    /// The file's path as the directive gives it.
    pub target: String,
}

/// Why a configuration is not flattened.
#[derive(Debug)]
pub enum Unresolved {
    /// A file is needed that the table does not hold.
    Needs(IncludeRequest),
    /// The configuration is faulty.
    Failed(Failure),
}

/// What an `Unresolved` stands for.
pub enum Halt {
    Needs { base: Seq<char>, target: Seq<char> },
    Failed(FailureView),
}

impl View for Unresolved {
    type V = Halt;

    open spec fn view(&self) -> Halt {
        match self {
            Unresolved::Needs(request) => Halt::Needs {
                base: request.base@,
                target: request.target@,
            },
            Unresolved::Failed(e) => Halt::Failed(e@),
        }
    }
}

/// Whether a character is white space: one of the code points with the
/// Unicode property White_Space.
pub open spec fn white_space(c: char) -> bool {
    let u = c as u32;
    ||| 0x09 <= u <= 0x0d
    ||| u == 0x20
    ||| u == 0x85
    ||| u == 0xa0
    ||| u == 0x1680
    ||| 0x2000 <= u <= 0x200a
    ||| u == 0x2028
    ||| u == 0x2029
    ||| u == 0x202f
    ||| u == 0x205f
    ||| u == 0x3000
}

/// Tests whether a character is white space.
pub fn is_whitespace(c: char) -> (r: bool)
    ensures
        r == white_space(c),
{
    let u: u32 = c as u32;
    (0x09 <= u && u <= 0x0d) || u == 0x20 || u == 0x85 || u == 0xa0 || u == 0x1680 || (0x2000 <= u
        && u <= 0x200a) || u == 0x2028 || u == 0x2029 || u == 0x202f || u == 0x205f || u == 0x3000
}

/// `s` without the white space at its start.
pub open spec fn trim_start(s: Seq<char>) -> Seq<char>
    decreases s.len(),
{
    if s.len() > 0 && white_space(s[0]) {
        trim_start(s.skip(1))
    } else {
        s
    }
}

/// `s` without the white space at its end.
pub open spec fn trim_end(s: Seq<char>) -> Seq<char>
    decreases s.len(),
{
    if s.len() > 0 && white_space(s.last()) {
        trim_end(s.drop_last())
    } else {
        s
    }
}

/// `s` without the white space at its start and at its end.
pub open spec fn trimmed(s: Seq<char>) -> Seq<char> {
    trim_end(trim_start(s))
}

/// A line without the carriage return at its end, if it has one.
pub open spec fn without_cr(line: Seq<char>) -> Seq<char> {
    if line.len() > 0 && line.last() == '\r' {
        line.drop_last()
    } else {
        line
    }
}

/// The lines of a text. A line ends with a line feed, or with a carriage
/// return and a line feed, neither of which belongs to the line; the last
/// line may end with the text.
pub open spec fn lines(text: Seq<char>) -> Seq<Seq<char>>
    decreases text.len(),
{
    if text.len() == 0 {
        Seq::empty()
    } else {
        match text.index_of_first('\n') {
            Some(end) => {
                proof {
                    text.index_of_first_ensures('\n');
                }
                seq![without_cr(text.take(end))] + lines(text.skip(end + 1))
            },
            None => seq![text],
        }
    }
}

/// A line is an include directive if it begins with the keyword `@include`,
/// in small or capital letters.
pub open spec fn is_directive(line: Seq<char>) -> bool {
    &&& line.len() >= 8
    &&& forall|i: int|
        0 <= i < 8 ==> line[i] == #[trigger] "@include"@[i] || line[i] == "@INCLUDE"@[i]
}

/// The path that an include directive names: what follows the first `=` of
/// the line, without the white space around it.
pub open spec fn operand(line: Seq<char>) -> Option<Seq<char>> {
    match line.index_of_first('=') {
        Some(at) => Some(trimmed(line.skip(at + 1))),
        None => None,
    }
}

/// The keys of the files in a table: by whom each is named, and how.
pub open spec fn keys(table: Seq<Source>) -> Seq<(Seq<char>, Seq<char>)> {
    Seq::new(table.len(), |i: int| (table[i].base, table[i].target))
}

/// A failure of the configuration, with the given text.
pub open spec fn config_failure(detail: Seq<char>) -> FailureView {
    failure(ErrorKind::Configuration, detail)
}

/// `text` in front of an outcome: in front of its text where there is one.
pub open spec fn after(text: Seq<char>, outcome: Result<Seq<char>, Halt>) -> Result<
    Seq<char>,
    Halt,
> {
    match outcome {
        Ok(rest) => Ok(text + rest),
        Err(halt) => Err(halt),
    }
}

/// The flattened text of the file that `base` names as `target`.
///
/// `chain` holds the paths of the files that are being flattened around this
/// one: a file that names one of them, itself included, closes a cycle.
/// `depth` is the number of files that may still be opened one inside the
/// other.
pub open spec fn flatten_file(
    table: Seq<Source>,
    base: Seq<char>,
    target: Seq<char>,
    chain: Seq<Seq<char>>,
    depth: nat,
) -> Result<Seq<char>, Halt>
    decreases depth, 0nat,
{
    match keys(table).index_of_first((base, target)) {
        None => Err(Halt::Needs { base, target }),
        Some(i) => {
            let file = table[i];
            if !file.readable {
                Err(Halt::Failed(config_failure("failed to read file"@ + ": "@ + target)))
            } else if chain.contains(file.path) || depth == 0 {
                Err(Halt::Failed(config_failure("include cycle"@ + ": "@ + file.path)))
            } else {
                flatten_lines(
                    table,
                    file.path,
                    lines(file.content),
                    chain.push(file.path),
                    (depth - 1) as nat,
                )
            }
        },
    }
}

/// The flattened text of some lines of the file at `own`: every line that is
/// no directive followed by a line feed, and in the place of every directive
/// the flattened text of the file that it names, followed by a line feed.
pub open spec fn flatten_lines(
    table: Seq<Source>,
    own: Seq<char>,
    rest: Seq<Seq<char>>,
    chain: Seq<Seq<char>>,
    depth: nat,
) -> Result<Seq<char>, Halt>
    decreases depth, 1 + rest.len(),
{
    if rest.len() == 0 {
        Ok(Seq::empty())
    } else {
        match flatten_line(table, own, rest[0], chain, depth) {
            Ok(text) => after(text, flatten_lines(table, own, rest.skip(1), chain, depth)),
            Err(halt) => Err(halt),
        }
    }
}

/// The flattened text of one line of the file at `own`.
pub open spec fn flatten_line(
    table: Seq<Source>,
    own: Seq<char>,
    line: Seq<char>,
    chain: Seq<Seq<char>>,
    depth: nat,
) -> Result<Seq<char>, Halt>
    decreases depth, 1nat,
{
    if !is_directive(line) {
        Ok(line.push('\n'))
    } else {
        match operand(line) {
            None => Err(Halt::Failed(config_failure("Doxyfile is missing `=`"@))),
            Some(target) => match flatten_file(table, own, target, chain, depth) {
                Ok(text) => Ok(text.push('\n')),
                Err(halt) => Err(halt),
            },
        }
    }
}

/// The lines, each followed by one line feed.
pub open spec fn joined(rest: Seq<Seq<char>>) -> Seq<char>
    decreases rest.len(),
{
    if rest.len() == 0 {
        Seq::empty()
    } else {
        rest[0].push('\n') + joined(rest.skip(1))
    }
}

/// A configuration with the setting of the output directory behind it.
pub open spec fn with_output_directory(config: Seq<char>, dir: Seq<char>) -> Seq<char> {
    config + "\nOUTPUT_DIRECTORY = "@ + dir
}

/// The flattened configuration that starts with the file `root`. No more
/// files are opened one inside the other than the table holds: a longer chain
/// names some file twice.
pub open spec fn flattened(table: Seq<Source>, root: Seq<char>) -> Result<Seq<char>, Halt> {
    flatten_file(table, Seq::empty(), root, Seq::empty(), table.len())
}

/// Tests whether a line is an include directive.
fn is_directive_line(line: &[char]) -> (r: bool)
    ensures
        r == is_directive(line@),
{
    let small = to_chars("@include");
    let capital = to_chars("@INCLUDE");
    proof {
        reveal_strlit("@include");
        reveal_strlit("@INCLUDE");
    }
    if line.len() < 8 {
        return false;
    }
    let mut i: usize = 0;
    while i < 8
        invariant
            i <= 8 <= line@.len(),
            small@ == "@include"@,
            capital@ == "@INCLUDE"@,
            small@.len() == 8,
            capital@.len() == 8,
            forall|k: int|
                0 <= k < i ==> line@[k] == #[trigger] "@include"@[k] || line@[k] == "@INCLUDE"@[k],
        decreases 8 - i,
    {
        if line[i] != small[i] && line[i] != capital[i] {
            return false;
        }
        i += 1;
    }
    true
}

/// The part of `s` between the white space at its start and at its end.
fn trim(s: &[char]) -> (r: &[char])
    ensures
        r@ == trimmed(s@),
{
    let n: usize = s.len();
    let mut from: usize = 0;
    assert(s@.skip(0) =~= s@);
    while from < n && is_whitespace(s[from])
        invariant
            from <= n == s@.len(),
            trim_start(s@) == trim_start(s@.skip(from as int)),
        decreases n - from,
    {
        assert(s@.skip(from as int).skip(1) =~= s@.skip(from + 1));
        from += 1;
    }
    assert(trim_start(s@) =~= s@.skip(from as int));
    let mut to: usize = n;
    while to > from && is_whitespace(s[to - 1])
        invariant
            from <= to <= n == s@.len(),
            trim_end(s@.skip(from as int)) == trim_end(s@.subrange(from as int, to as int)),
        decreases to - from,
    {
        assert(s@.subrange(from as int, to as int).drop_last() =~= s@.subrange(
            from as int,
            to - 1,
        ));
        to -= 1;
    }
    slice_subrange(s, from, to)
}

/// The path that a directive names.
fn operand_of(line: &[char]) -> (r: Option<String>)
    ensures
        match r {
            Some(target) => operand(line@) == Some(target@),
            None => operand(line@) is None,
        },
{
    let n: usize = line.len();
    match position_of(line, '=') {
        Some(at) => {
            let rhs = slice_subrange(line, at + 1, n);
            Some(from_chars(trim(rhs)))
        },
        None => None,
    }
}

/// The offset of the first line feed at or after `from`, or the length of
/// `text` where there is none.
fn line_end(text: &[char], from: usize) -> (end: usize)
    requires
        from <= text@.len(),
    ensures
        from <= end <= text@.len(),
        forall|k: int| from <= k < end ==> text@[k] != '\n',
        end < text@.len() ==> text@[end as int] == '\n',
{
    let mut end: usize = from;
    while end < text.len() && text[end] != '\n'
        invariant
            from <= end <= text@.len(),
            forall|k: int| from <= k < end ==> text@[k] != '\n',
        decreases text@.len() - end,
    {
        end += 1;
    }
    end
}

/// The lines from `from` on are the line up to the next line feed and the
/// lines behind that line feed.
proof fn lemma_lines_step(text: Seq<char>, from: int, end: int)
    requires
        0 <= from <= end <= text.len(),
        from < text.len(),
        forall|k: int| from <= k < end ==> text[k] != '\n',
        end < text.len() ==> text[end] == '\n',
    ensures
        lines(text.skip(from)) == seq![
            if end < text.len() {
                without_cr(text.subrange(from, end))
            } else {
                text.subrange(from, end)
            },
        ] + (if end < text.len() {
            lines(text.skip(end + 1))
        } else {
            Seq::<Seq<char>>::empty()
        }),
{
    let s = text.skip(from);
    s.index_of_first_ensures('\n');
    if end < text.len() {
        assert(s[end - from] == '\n');
        assert(s.take(end - from) =~= text.subrange(from, end));
        assert(s.skip(end - from + 1) =~= text.skip(end + 1));
    }
}

/// The position in the table of the file that `base` names as `target`.
fn find_source(table: &Vec<SourceFile>, base: &String, target: &String) -> (r: Option<usize>)
    ensures
        match r {
            Some(i) => keys(sources_of(table@)).index_of_first((base@, target@)) == Some(i as int)
                && i < table@.len(),
            None => keys(sources_of(table@)).index_of_first((base@, target@)) is None,
        },
{
    let mut i: usize = 0;
    while i < table.len()
        invariant
            i <= table@.len(),
            forall|k: int| 0 <= k < i ==> keys(sources_of(table@))[k] != (base@, target@),
        decreases table@.len() - i,
    {
        if table[i].base == *base && table[i].target == *target {
            proof {
                assert(keys(sources_of(table@))[i as int] == (base@, target@));
                keys(sources_of(table@)).index_of_first_ensures((base@, target@));
            }
            return Some(i);
        }
        i += 1;
    }
    proof {
        keys(sources_of(table@)).index_of_first_ensures((base@, target@));
    }
    None
}

/// Tests whether `list` holds `text`.
fn holds(list: &Vec<String>, text: &String) -> (r: bool)
    ensures
        r == texts_of(list@).contains(text@),
{
    let mut i: usize = 0;
    while i < list.len()
        invariant
            i <= list@.len(),
            forall|k: int| 0 <= k < i ==> texts_of(list@)[k] != text@,
        decreases list@.len() - i,
    {
        if list[i] == *text {
            assert(texts_of(list@)[i as int] == text@);
            return true;
        }
        i += 1;
    }
    false
}

/// `list` with `text` behind it.
fn extended(list: &Vec<String>, text: &String) -> (r: Vec<String>)
    ensures
        texts_of(r@) == texts_of(list@).push(text@),
{
    let mut r: Vec<String> = Vec::new();
    let mut i: usize = 0;
    while i < list.len()
        invariant
            i <= list@.len(),
            r@.len() == i,
            forall|k: int| 0 <= k < i ==> r@[k]@ == list@[k]@,
        decreases list@.len() - i,
    {
        r.push(list[i].clone());
        i += 1;
    }
    r.push(text.clone());
    r
}

/// Appends to `out` the flattened text of the file that `base` names as
/// `target`.
fn resolve_file(
    table: &Vec<SourceFile>,
    base: &String,
    target: &String,
    chain: &Vec<String>,
    depth: usize,
    out: &mut Vec<char>,
) -> (r: Result<(), Unresolved>)
    ensures
        match r {
            Ok(done) => flatten_file(
                sources_of(table@),
                base@,
                target@,
                texts_of(chain@),
                depth as nat,
            ) matches Ok(text) && final(out)@ == old(out)@ + text,
            Err(halt) => flatten_file(
                sources_of(table@),
                base@,
                target@,
                texts_of(chain@),
                depth as nat,
            ) == Err::<Seq<char>, Halt>(halt@),
        },
    decreases depth, 0nat,
{
    match find_source(table, base, target) {
        None => Err(
            Unresolved::Needs(IncludeRequest { base: base.clone(), target: target.clone() }),
        ),
        Some(i) => {
            let file = &table[i];
            if !file.readable {
                Err(
                    Unresolved::Failed(
                        Failure::with_cause(
                            ErrorKind::Configuration,
                            "failed to read file",
                            target.as_str(),
                        ),
                    ),
                )
            } else if holds(chain, &file.path) || depth == 0 {
                Err(
                    Unresolved::Failed(
                        Failure::with_cause(
                            ErrorKind::Configuration,
                            "include cycle",
                            file.path.as_str(),
                        ),
                    ),
                )
            } else {
                let deeper = extended(chain, &file.path);
                let text = to_chars(file.content.as_str());
                resolve_text(table, &file.path, text.as_slice(), &deeper, depth - 1, out)
            }
        },
    }
}

/// Appends to `out` the flattened text of the lines of `text`, which is the
/// content of the file at `own`.
fn resolve_text(
    table: &Vec<SourceFile>,
    own: &String,
    text: &[char],
    chain: &Vec<String>,
    depth: usize,
    out: &mut Vec<char>,
) -> (r: Result<(), Unresolved>)
    ensures
        match r {
            Ok(done) => flatten_lines(
                sources_of(table@),
                own@,
                lines(text@),
                texts_of(chain@),
                depth as nat,
            ) matches Ok(flat) && final(out)@ == old(out)@ + flat,
            Err(halt) => flatten_lines(
                sources_of(table@),
                own@,
                lines(text@),
                texts_of(chain@),
                depth as nat,
            ) == Err::<Seq<char>, Halt>(halt@),
        },
    decreases depth, 1nat,
{
    let ghost files = sources_of(table@);
    let ghost around = texts_of(chain@);
    let ghost whole = flatten_lines(files, own@, lines(text@), around, depth as nat);
    let n: usize = text.len();
    let mut pos: usize = 0;
    let ghost mut done: Seq<char> = Seq::empty();
    proof {
        assert(text@.skip(0) =~= text@);
        lemma_after_nothing(whole);
    }
    while pos < n
        invariant
            pos <= n == text@.len(),
            files == sources_of(table@),
            around == texts_of(chain@),
            whole == flatten_lines(files, own@, lines(text@), around, depth as nat),
            out@ == old(out)@ + done,
            whole == after(
                done,
                flatten_lines(files, own@, lines(text@.skip(pos as int)), around, depth as nat),
            ),
        decreases n - pos,
    {
        let end = line_end(text, pos);
        let stop: usize = if end < n && end > pos && text[end - 1] == '\r' {
            end - 1
        } else {
            end
        };
        let line = slice_subrange(text, pos, stop);
        let ghost later = if end < n {
            lines(text@.skip(end + 1))
        } else {
            Seq::<Seq<char>>::empty()
        };
        proof {
            lemma_lines_step(text@, pos as int, end as int);
            let here = lines(text@.skip(pos as int));
            assert(here[0] == line@);
            assert(here.skip(1) =~= later);
        }
        let ghost before = done;
        if !is_directive_line(line) {
            out.extend_from_slice(line);
            out.push('\n');
            proof {
                done = done + line@.push('\n');
            }
        } else {
            match operand_of(line) {
                None => {
                    return Err(
                        Unresolved::Failed(
                            Failure::new(ErrorKind::Configuration, "Doxyfile is missing `=`"),
                        ),
                    );
                },
                Some(target) => {
                    match resolve_file(table, own, &target, chain, depth, out) {
                        Ok(_) => {
                            out.push('\n');
                            proof {
                                let inner = flatten_file(
                                    files,
                                    own@,
                                    target@,
                                    around,
                                    depth as nat,
                                )->Ok_0;
                                done = done + inner.push('\n');
                            }
                        },
                        Err(halt) => {
                            return Err(halt);
                        },
                    }
                },
            }
        }
        proof {
            let step = flatten_line(files, own@, line@, around, depth as nat)->Ok_0;
            lemma_after_after(
                before,
                step,
                flatten_lines(files, own@, later, around, depth as nat),
            );
        }
        if end < n {
            pos = end + 1;
        } else {
            pos = end;
        }
    }
    Ok(())
}

/// Nothing in front of an outcome leaves the outcome as it is.
proof fn lemma_after_nothing(outcome: Result<Seq<char>, Halt>)
    ensures
        after(Seq::empty(), outcome) == outcome,
{
}

/// Two texts in front of an outcome, one after the other, are their
/// concatenation in front of it.
proof fn lemma_after_after(first: Seq<char>, second: Seq<char>, outcome: Result<Seq<char>, Halt>)
    ensures
        after(first, after(second, outcome)) == after(first + second, outcome),
{
    match outcome {
        Ok(rest) => {
            assert(first + (second + rest) =~= (first + second) + rest);
        },
        Err(_) => {},
    }
}

/// A file that the table holds is not asked for: every file that the caller
/// adds on request brings the configuration further.
pub proof fn lemma_known_file_is_not_asked_for(
    table: Seq<Source>,
    base: Seq<char>,
    target: Seq<char>,
    chain: Seq<Seq<char>>,
    depth: nat,
    known: (Seq<char>, Seq<char>),
)
    requires
        keys(table).contains(known),
    ensures
        flatten_file(table, base, target, chain, depth) != Err::<Seq<char>, Halt>(
            Halt::Needs { base: known.0, target: known.1 },
        ),
    decreases depth, 0nat,
{
    keys(table).index_of_first_ensures((base, target));
    match keys(table).index_of_first((base, target)) {
        None => {},
        Some(i) => {
            let file = table[i];
            if file.readable && !chain.contains(file.path) && depth > 0 {
                lemma_known_file_is_not_asked_for_in_lines(
                    table,
                    file.path,
                    lines(file.content),
                    chain.push(file.path),
                    (depth - 1) as nat,
                    known,
                );
            }
        },
    }
}

/// The same for a run of lines.
proof fn lemma_known_file_is_not_asked_for_in_lines(
    table: Seq<Source>,
    own: Seq<char>,
    rest: Seq<Seq<char>>,
    chain: Seq<Seq<char>>,
    depth: nat,
    known: (Seq<char>, Seq<char>),
)
    requires
        keys(table).contains(known),
    ensures
        flatten_lines(table, own, rest, chain, depth) != Err::<Seq<char>, Halt>(
            Halt::Needs { base: known.0, target: known.1 },
        ),
    decreases depth, 1 + rest.len(),
{
    if rest.len() > 0 {
        let line = rest[0];
        if is_directive(line) {
            match operand(line) {
                Some(target) => {
                    lemma_known_file_is_not_asked_for(table, own, target, chain, depth, known);
                },
                None => {},
            }
        }
        lemma_known_file_is_not_asked_for_in_lines(table, own, rest.skip(1), chain, depth, known);
        let wanted = Err::<Seq<char>, Halt>(Halt::Needs { base: known.0, target: known.1 });
        assert(flatten_line(table, own, line, chain, depth) != wanted);
    }
}

/// The paths of the files in a table.
pub open spec fn paths(table: Seq<Source>) -> Seq<Seq<char>> {
    Seq::new(table.len(), |i: int| table[i].path)
}

/// `chain` is a chain of files of the table that are open one inside the
/// other: no path stands in it twice, and each is the path of a file in the
/// table.
pub open spec fn open_chain(table: Seq<Source>, chain: Seq<Seq<char>>) -> bool {
    &&& chain.no_duplicates()
    &&& forall|i: int| 0 <= i < chain.len() ==> paths(table).contains(#[trigger] chain[i])
}

/// A chain of files that are open one inside the other is no longer than the
/// table.
proof fn lemma_chain_fits(table: Seq<Source>, chain: Seq<Seq<char>>)
    requires
        open_chain(table, chain),
    ensures
        chain.len() <= table.len(),
{
    let all = paths(table);
    assert(chain.to_set().subset_of(all.to_set())) by {
        assert forall|p: Seq<char>| chain.to_set().contains(p) implies all.to_set().contains(p) by {
            let i = choose|i: int| 0 <= i < chain.len() && chain[i] == p;
            assert(all.contains(chain[i]));
        }
    }
    vstd::seq_lib::seq_to_set_is_finite(all);
    vstd::set_lib::lemma_len_subset(chain.to_set(), all.to_set());
    chain.unique_seq_to_set();
    all.lemma_cardinality_of_set();
}

/// The bound on the files that are open one inside the other is never met
/// by a configuration without a cycle: from the number of files in the table
/// on, a greater bound gives the same text, the same request and the same
/// failure.
pub proof fn lemma_depth_is_enough(
    table: Seq<Source>,
    base: Seq<char>,
    target: Seq<char>,
    chain: Seq<Seq<char>>,
    depth: nat,
)
    requires
        open_chain(table, chain),
        depth + chain.len() >= table.len(),
    ensures
        flatten_file(table, base, target, chain, depth) == flatten_file(
            table,
            base,
            target,
            chain,
            depth + 1,
        ),
    decreases depth, 0nat,
{
    match keys(table).index_of_first((base, target)) {
        None => {},
        Some(i) => {
            keys(table).index_of_first_ensures((base, target));
            let file = table[i];
            if file.readable && !chain.contains(file.path) {
                let deeper = chain.push(file.path);
                assert(paths(table)[i] == file.path);
                assert(open_chain(table, deeper)) by {
                    assert forall|k: int| 0 <= k < deeper.len() implies paths(table).contains(
                        #[trigger] deeper[k],
                    ) by {}
                }
                lemma_chain_fits(table, deeper);
                lemma_depth_is_enough_for_lines(
                    table,
                    file.path,
                    lines(file.content),
                    deeper,
                    (depth - 1) as nat,
                );
            }
        },
    }
}

/// The same for a run of lines.
proof fn lemma_depth_is_enough_for_lines(
    table: Seq<Source>,
    own: Seq<char>,
    rest: Seq<Seq<char>>,
    chain: Seq<Seq<char>>,
    depth: nat,
)
    requires
        open_chain(table, chain),
        depth + chain.len() >= table.len(),
    ensures
        flatten_lines(table, own, rest, chain, depth) == flatten_lines(
            table,
            own,
            rest,
            chain,
            depth + 1,
        ),
    decreases depth, 1 + rest.len(),
{
    if rest.len() > 0 {
        let line = rest[0];
        if is_directive(line) {
            match operand(line) {
                Some(target) => {
                    lemma_depth_is_enough(table, own, target, chain, depth);
                },
                None => {},
            }
        }
        assert(flatten_line(table, own, line, chain, depth) == flatten_line(
            table,
            own,
            line,
            chain,
            depth + 1,
        ));
        lemma_depth_is_enough_for_lines(table, own, rest.skip(1), chain, depth);
    }
}

/// The flattened configuration is what any greater bound on the files that
/// are open one inside the other gives as well.
pub proof fn lemma_flattened_needs_no_bound(table: Seq<Source>, root: Seq<char>, depth: nat)
    requires
        depth >= table.len(),
    ensures
        flatten_file(table, Seq::empty(), root, Seq::empty(), depth) == flattened(table, root),
    decreases depth,
{
    if depth > table.len() {
        lemma_flattened_needs_no_bound(table, root, (depth - 1) as nat);
        lemma_depth_is_enough(table, Seq::empty(), root, Seq::empty(), (depth - 1) as nat);
    }
}

/// The flattened text of the file that `base` names as `target`, taken by
/// itself.
pub open spec fn text_of(table: Seq<Source>, base: Seq<char>, target: Seq<char>) -> Result<
    Seq<char>,
    Halt,
> {
    flatten_file(table, base, target, Seq::empty(), table.len())
}

/// The position in the table of the file that `base` names as `target`.
pub open spec fn place_of(table: Seq<Source>, base: Seq<char>, target: Seq<char>) -> int {
    match keys(table).index_of_first((base, target)) {
        Some(i) => i,
        None => 0,
    }
}

/// Some lines of the file at `own` with the text of every file that they
/// name in the place of its directive: each line that is no directive and
/// each such text followed by one line feed, in the order of the lines.
pub open spec fn spliced(table: Seq<Source>, own: Seq<char>, rest: Seq<Seq<char>>) -> Seq<char>
    decreases rest.len(),
{
    if rest.len() == 0 {
        Seq::empty()
    } else {
        let line = rest[0];
        let text = if is_directive(line) {
            match operand(line) {
                Some(target) => match text_of(table, own, target) {
                    Ok(inner) => inner,
                    Err(_) => Seq::empty(),
                },
                None => Seq::empty(),
            }
        } else {
            line
        };
        text.push('\n') + spliced(table, own, rest.skip(1))
    }
}

/// The line `k` of the file at the place `i` is without fault: if it is a
/// directive, it has its `=`, the table holds the file that it names, and
/// that file stands lower in `rank` than the file of the line.
pub open spec fn sound_line(
    table: Seq<Source>,
    rank: spec_fn(Seq<char>) -> nat,
    i: int,
    k: int,
) -> bool {
    let own = table[i].path;
    let line = lines(table[i].content)[k];
    is_directive(line) ==> match operand(line) {
        Some(target) => keys(table).contains((own, target)) && rank(
            table[place_of(table, own, target)].path,
        ) < rank(own),
        None => false,
    }
}

/// A table without fault: every file of it could be read, and every line of
/// every file is without fault. That each file named stands lower in `rank`
/// than the file that names it says that no file names itself, through
/// whatever number of files.
pub open spec fn faultless(table: Seq<Source>, rank: spec_fn(Seq<char>) -> nat) -> bool {
    &&& forall|i: int| 0 <= i < table.len() ==> (#[trigger] table[i]).readable
    &&& forall|i: int, k: int|
        0 <= i < table.len() && 0 <= k < lines(table[i].content).len() ==> #[trigger] sound_line(
            table,
            rank,
            i,
            k,
        )
}

/// In a table without fault every file that the table holds flattens with
/// success, whatever files are open around it: to its lines with the text
/// of every file that they name in the place of its directive.
pub proof fn lemma_faultless_file_flattens(
    table: Seq<Source>,
    rank: spec_fn(Seq<char>) -> nat,
    base: Seq<char>,
    target: Seq<char>,
    chain: Seq<Seq<char>>,
    depth: nat,
)
    requires
        faultless(table, rank),
        keys(table).contains((base, target)),
        open_chain(table, chain),
        depth + chain.len() >= table.len(),
        forall|c: int|
            0 <= c < chain.len() ==> rank(#[trigger] chain[c]) > rank(
                table[place_of(table, base, target)].path,
            ),
    ensures
        flatten_file(table, base, target, chain, depth) == Ok::<Seq<char>, Halt>(
            spliced(
                table,
                table[place_of(table, base, target)].path,
                lines(table[place_of(table, base, target)].content),
            ),
        ),
    decreases
            rank(table[place_of(table, base, target)].path),
            lines(table[place_of(table, base, target)].content).len() + 2,
{
    keys(table).index_of_first_ensures((base, target));
    let j = place_of(table, base, target);
    let file = table[j];
    assert(file.readable);
    assert(!chain.contains(file.path));
    let deeper = chain.push(file.path);
    assert(paths(table)[j] == file.path);
    assert(open_chain(table, deeper)) by {
        assert forall|k: int| 0 <= k < deeper.len() implies paths(table).contains(
            #[trigger] deeper[k],
        ) by {}
    }
    lemma_chain_fits(table, deeper);
    assert(lines(file.content).skip(0) =~= lines(file.content));
    lemma_faultless_lines_flatten(table, rank, j, 0, deeper, (depth - 1) as nat);
}

/// The same for the lines of the file at the place `i`, from the line `k`
/// on.
proof fn lemma_faultless_lines_flatten(
    table: Seq<Source>,
    rank: spec_fn(Seq<char>) -> nat,
    i: int,
    k: int,
    chain: Seq<Seq<char>>,
    depth: nat,
)
    requires
        faultless(table, rank),
        0 <= i < table.len(),
        0 <= k <= lines(table[i].content).len(),
        open_chain(table, chain),
        depth + chain.len() >= table.len(),
        forall|c: int| 0 <= c < chain.len() ==> rank(#[trigger] chain[c]) >= rank(table[i].path),
    ensures
        flatten_lines(table, table[i].path, lines(table[i].content).skip(k), chain, depth) == Ok::<
            Seq<char>,
            Halt,
        >(spliced(table, table[i].path, lines(table[i].content).skip(k))),
    decreases rank(table[i].path), lines(table[i].content).len() - k + 1,
{
    let own = table[i].path;
    let all = lines(table[i].content);
    let rest = all.skip(k);
    if k < all.len() {
        let line = all[k];
        assert(rest[0] == line);
        assert(rest.skip(1) =~= all.skip(k + 1));
        assert(sound_line(table, rank, i, k));
        let head = if is_directive(line) {
            let target = operand(line)->0;
            lemma_faultless_file_flattens(table, rank, own, target, chain, depth);
            assert(open_chain(table, Seq::empty()));
            lemma_faultless_file_flattens(table, rank, own, target, Seq::empty(), table.len());
            text_of(table, own, target)->Ok_0.push('\n')
        } else {
            line.push('\n')
        };
        assert(flatten_line(table, own, line, chain, depth) == Ok::<Seq<char>, Halt>(head));
        lemma_faultless_lines_flatten(table, rank, i, k + 1, chain, depth);
        assert(flatten_lines(table, own, rest, chain, depth) == after(
            head,
            flatten_lines(table, own, rest.skip(1), chain, depth),
        ));
        assert(spliced(table, own, rest) == head + spliced(table, own, rest.skip(1)));
    }
}

/// A configuration without fault flattens with success: where every file
/// that is reached from the first one stands in the table and could be read,
/// every directive has its `=` and no file names itself, the flattened
/// configuration is the text of the first file, which holds the text of
/// every file named in the place of its directive, and so on through the
/// files named by those.
pub proof fn lemma_faultless_configuration_flattens(
    table: Seq<Source>,
    root: Seq<char>,
    rank: spec_fn(Seq<char>) -> nat,
)
    requires
        faultless(table, rank),
        keys(table).contains((Seq::<char>::empty(), root)),
    ensures
        flattened(table, root) == Ok::<Seq<char>, Halt>(
            spliced(
                table,
                table[place_of(table, Seq::empty(), root)].path,
                lines(table[place_of(table, Seq::empty(), root)].content),
            ),
        ),
{
    assert(open_chain(table, Seq::empty()));
    lemma_faultless_file_flattens(table, rank, Seq::empty(), root, Seq::empty(), table.len());
}

/// The flattened text of a run of lines followed by another is the flattened
/// text of the first run followed by that of the second: the lines and what
/// stands for the directives come in the order of the file, and a fault in an
/// earlier line is met before one in a later line.
pub proof fn lemma_flatten_in_document_order(
    table: Seq<Source>,
    own: Seq<char>,
    first: Seq<Seq<char>>,
    second: Seq<Seq<char>>,
    chain: Seq<Seq<char>>,
    depth: nat,
)
    ensures
        flatten_lines(table, own, first + second, chain, depth) == match flatten_lines(
            table,
            own,
            first,
            chain,
            depth,
        ) {
            Ok(text) => after(text, flatten_lines(table, own, second, chain, depth)),
            Err(halt) => Err(halt),
        },
    decreases first.len(),
{
    let tail = flatten_lines(table, own, second, chain, depth);
    if first.len() == 0 {
        lemma_after_nothing(tail);
    } else {
        let all = first + second;
        assert(all.skip(1) =~= first.skip(1) + second);
        lemma_flatten_in_document_order(table, own, first.skip(1), second, chain, depth);
        match flatten_line(table, own, first[0], chain, depth) {
            Ok(head) => {
                match flatten_lines(table, own, first.skip(1), chain, depth) {
                    Ok(middle) => {
                        lemma_after_after(head, middle, tail);
                    },
                    Err(_) => {},
                }
            },
            Err(_) => {},
        }
    }
}

/// A file without directives flattens to its lines, each followed by one
/// line feed.
pub proof fn lemma_flatten_plain_lines(
    table: Seq<Source>,
    own: Seq<char>,
    rest: Seq<Seq<char>>,
    chain: Seq<Seq<char>>,
    depth: nat,
)
    requires
        forall|i: int| 0 <= i < rest.len() ==> !is_directive(#[trigger] rest[i]),
    ensures
        flatten_lines(table, own, rest, chain, depth) == Ok::<Seq<char>, Halt>(joined(rest)),
    decreases rest.len(),
{
    if rest.len() > 0 {
        assert forall|i: int| 0 <= i < rest.skip(1).len() implies !is_directive(
            #[trigger] rest.skip(1)[i],
        ) by {}
        lemma_flatten_plain_lines(table, own, rest.skip(1), chain, depth);
        assert(flatten_line(table, own, rest[0], chain, depth) == Ok::<Seq<char>, Halt>(
            rest[0].push('\n'),
        ));
    }
}

/// Where the directive of a line names a file that flattens to `inner`, the
/// line flattens to `inner` followed by one line feed: the file's text stands
/// in the place of the directive, however many files it took to make it.
pub proof fn lemma_directive_is_replaced(
    table: Seq<Source>,
    own: Seq<char>,
    line: Seq<char>,
    chain: Seq<Seq<char>>,
    depth: nat,
    inner: Seq<char>,
)
    requires
        is_directive(line),
        operand(line) matches Some(target) && flatten_file(table, own, target, chain, depth)
            == Ok::<Seq<char>, Halt>(inner),
    ensures
        flatten_line(table, own, line, chain, depth) == Ok::<Seq<char>, Halt>(inner.push('\n')),
{
}

/// The build configuration for one reference: the flattened configuration
/// and, on a line of its own behind it, the setting that sends the
/// documentation to `dir`.
pub fn local_config(config: &str, dir: &str) -> (r: String)
    ensures
        r@ == with_output_directory(config@, dir@),
{
    let mut r = config.to_owned();
    r.append("\nOUTPUT_DIRECTORY = ");
    r.append(dir);
    r
}

/// Flattens the build configuration that starts with the file `root`, from
/// the files in `table`.
///
/// Where a file is missing from the table, the result names it: the caller
/// reads it, adds it to the table and asks again.
pub fn load_doxyfile(table: &Vec<SourceFile>, root: &str) -> (r: Result<String, Unresolved>)
    ensures
        match r {
            Ok(text) => flattened(sources_of(table@), root@) == Ok::<Seq<char>, Halt>(text@),
            Err(halt) => flattened(sources_of(table@), root@) == Err::<Seq<char>, Halt>(halt@),
        },
{
    let base = String::new();
    let target = root.to_owned();
    let chain: Vec<String> = Vec::new();
    let mut out: Vec<char> = Vec::new();
    assert(texts_of(chain@) =~= Seq::<Seq<char>>::empty());
    match resolve_file(table, &base, &target, &chain, table.len(), &mut out) {
        Ok(_) => {
            Ok(from_chars(out.as_slice()))
        },
        Err(halt) => Err(halt),
    }
}

} // verus!

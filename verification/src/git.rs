//! The git repository as the run uses it: the two commands it is asked to
//! run, and what their outcome means.
//!
//! The library starts no process. It says which command is to be run and
//! reads what came of it.

use vstd::prelude::*;
use vstd::slice::slice_subrange;
use vstd::string::StringSliceAdditionalSpecFns;
use vstd::utf8::{decode_utf8, encode_utf8_decode_utf8, valid_utf8};
use crate::error::{failure, ErrorKind, Failure, FailureView};
use crate::text::texts_of;

verus! {

/// A command for the caller to run.
#[derive(Debug)]
pub struct Invocation {
    /// The program.
    pub program: String,
    /// The directory to run it in.
    pub dir: String,
    /// Its arguments.
    pub args: Vec<String>,
    /// What to write to its standard input, if anything.
    pub input: Option<String>,
}

/// What an `Invocation` stands for.
pub struct InvocationView {
    pub program: Seq<char>,
    pub dir: Seq<char>,
    pub args: Seq<Seq<char>>,
    pub input: Option<Seq<char>>,
}

impl View for Invocation {
    type V = InvocationView;

    open spec fn view(&self) -> InvocationView {
        InvocationView {
            program: self.program@,
            dir: self.dir@,
            args: texts_of(self.args@),
            input: match self.input {
                Some(text) => Some(text@),
                None => None,
            },
        }
    }
}

/// What came of running a command.
#[derive(Debug)]
pub enum CommandResult {
    /// The program could not be started.
    NotLaunched,
    /// The program ran and ended.
    Exited {
        /// It ended with status zero.
        success: bool,
        /// What it wrote to its standard output.
        stdout: Vec<u8>,
        /// What it wrote to its standard error.
        stderr: Vec<u8>,
    },
}

/// What a `CommandResult` stands for.
pub enum CommandOutcome {
    NotLaunched,
    Exited { success: bool, stdout: Seq<u8>, stderr: Seq<u8> },
}

impl View for CommandResult {
    type V = CommandOutcome;

    open spec fn view(&self) -> CommandOutcome {
        match self {
            CommandResult::NotLaunched => CommandOutcome::NotLaunched,
            CommandResult::Exited { success, stdout, stderr } => CommandOutcome::Exited {
                success: *success,
                stdout: stdout@,
                stderr: stderr@,
            },
        }
    }
}

/// The git command with the given arguments, to be run in `dir`.
pub open spec fn git_command(dir: Seq<char>, args: Seq<Seq<char>>) -> InvocationView {
    InvocationView { program: "git"@, dir, args, input: None }
}

/// The non-empty runs of bytes between the line feeds of `bytes`, in order.
pub open spec fn records(bytes: Seq<u8>) -> Seq<Seq<u8>>
    decreases bytes.len(),
{
    if bytes.len() == 0 {
        Seq::empty()
    } else {
        match bytes.index_of_first(0x0a) {
            Some(end) => {
                proof {
                    bytes.index_of_first_ensures(0x0a);
                }
                let rest = records(bytes.skip(end + 1));
                if end == 0 {
                    rest
                } else {
                    seq![bytes.take(end)] + rest
                }
            },
            None => seq![bytes],
        }
    }
}

/// Every one of `pieces` is valid UTF-8.
pub open spec fn all_utf8(pieces: Seq<Seq<u8>>) -> bool {
    forall|i: int| 0 <= i < pieces.len() ==> valid_utf8(#[trigger] pieces[i])
}

/// The texts that `pieces` encode.
pub open spec fn decoded(pieces: Seq<Seq<u8>>) -> Seq<Seq<char>> {
    Seq::new(pieces.len(), |i: int| decode_utf8(pieces[i]))
}

/// The failure of a git command, with the given text.
pub open spec fn vcs_failure(detail: Seq<char>) -> FailureView {
    failure(ErrorKind::Vcs, detail)
}

/// What the outcome of the listing command means: the full names of the
/// references, in the order in which git gave them, or the failure.
pub open spec fn listed(outcome: CommandOutcome) -> Result<Seq<Seq<char>>, FailureView> {
    match outcome {
        CommandOutcome::NotLaunched => Err(vcs_failure("failed to run git"@)),
        CommandOutcome::Exited { success, stdout, stderr } => {
            if !success {
                if valid_utf8(stderr) {
                    Err(vcs_failure("git branch failed"@ + ": "@ + decode_utf8(stderr)))
                } else {
                    Err(vcs_failure("git created non-UTF8 output"@))
                }
            } else if all_utf8(records(stdout)) {
                Ok(decoded(records(stdout)))
            } else {
                Err(vcs_failure("git created non-UTF8 output"@))
            }
        },
    }
}

/// What the outcome of a checkout command means: the working tree holds the
/// reference only where git ran and ended with status zero.
pub open spec fn checked_out(outcome: CommandOutcome) -> Result<(), FailureView> {
    match outcome {
        CommandOutcome::NotLaunched => Err(vcs_failure("failed to checkout reference"@)),
        CommandOutcome::Exited { success, stdout, stderr } => {
            if success {
                Ok(())
            } else {
                Err(vcs_failure("failed to checkout reference"@ + ": "@ + diagnostic(stderr)))
            }
        },
    }
}

/// What a program wrote to its standard error, as text.
pub open spec fn diagnostic(stderr: Seq<u8>) -> Seq<char> {
    if valid_utf8(stderr) {
        decode_utf8(stderr)
    } else {
        "<non utf-8>"@
    }
}

/// `std::str::from_utf8`: the bytes as a string slice where they are valid
/// UTF-8, and nothing where they are not. The slice holds the same bytes.
#[verifier::external_body]
fn utf8_str(raw: &[u8]) -> (r: Option<&str>)
    ensures
        r is Some <==> valid_utf8(raw@),
        r matches Some(s) ==> s.spec_bytes() == raw@,
{
    std::str::from_utf8(raw).ok()
}

/// Reads the output of git as text.
pub fn conv_output(raw: &[u8]) -> (r: Result<&str, Failure>)
    ensures
        r is Ok <==> valid_utf8(raw@),
        r matches Ok(s) ==> s@ == decode_utf8(raw@),
        r matches Err(e) ==> e@ == vcs_failure("git created non-UTF8 output"@),
{
    match utf8_str(raw) {
        Some(s) => {
            proof {
                encode_utf8_decode_utf8(s@);
            }
            Ok(s)
        },
        None => Err(Failure::new(ErrorKind::Vcs, "git created non-UTF8 output")),
    }
}

/// What a program wrote to its standard error, as text for a failure.
pub fn diagnostic_text(stderr: &[u8]) -> (r: String)
    ensures
        r@ == diagnostic(stderr@),
{
    match utf8_str(stderr) {
        Some(s) => {
            proof {
                encode_utf8_decode_utf8(s@);
            }
            s.to_owned()
        },
        None => "<non utf-8>".to_owned(),
    }
}

/// The offset of the first line feed at or after `from`, or the length of
/// `data` where there is none.
fn line_end(data: &[u8], from: usize) -> (end: usize)
    requires
        from <= data@.len(),
    ensures
        from <= end <= data@.len(),
        forall|k: int| from <= k < end ==> data@[k] != 0x0a,
        end < data@.len() ==> data@[end as int] == 0x0a,
{
    let mut end: usize = from;
    while end < data.len() && data[end] != 0x0a
        invariant
            from <= end <= data@.len(),
            forall|k: int| from <= k < end ==> data@[k] != 0x0a,
        decreases data@.len() - end,
    {
        end += 1;
    }
    end
}

/// The records from `from` on are the run up to the next line feed, unless it
/// is empty, and the records behind that line feed.
proof fn lemma_records_step(bytes: Seq<u8>, from: int, end: int)
    requires
        0 <= from <= end <= bytes.len(),
        from < bytes.len(),
        forall|k: int| from <= k < end ==> bytes[k] != 0x0a,
        end < bytes.len() ==> bytes[end] == 0x0a,
    ensures
        records(bytes.skip(from)) == (if end == from {
            Seq::<Seq<u8>>::empty()
        } else {
            seq![bytes.subrange(from, end)]
        }) + (if end < bytes.len() {
            records(bytes.skip(end + 1))
        } else {
            Seq::<Seq<u8>>::empty()
        }),
{
    let s = bytes.skip(from);
    s.index_of_first_ensures(0x0a);
    if end < bytes.len() {
        assert(s[end - from] == 0x0a);
        assert(s.take(end - from) =~= bytes.subrange(from, end));
        assert(s.skip(end - from + 1) =~= bytes.skip(end + 1));
    }
}

/// Reads the names that git listed, one on each line.
fn parse_names(data: &[u8]) -> (r: Result<Vec<String>, Failure>)
    ensures
        match r {
            Ok(names) => all_utf8(records(data@)) && texts_of(names@) == decoded(records(data@)),
            Err(e) => !all_utf8(records(data@)) && e@ == vcs_failure(
                "git created non-UTF8 output"@,
            ),
        },
{
    let n: usize = data.len();
    let mut names: Vec<String> = Vec::new();
    let mut pos: usize = 0;
    let ghost mut done: Seq<Seq<u8>> = Seq::empty();
    assert(data@.skip(0) =~= data@);
    while pos < n
        invariant
            pos <= n == data@.len(),
            records(data@) == done + records(data@.skip(pos as int)),
            all_utf8(done),
            texts_of(names@) == decoded(done),
        decreases n - pos,
    {
        let end = line_end(data, pos);
        proof {
            lemma_records_step(data@, pos as int, end as int);
        }
        if end > pos {
            let piece = slice_subrange(data, pos, end);
            match conv_output(piece) {
                Ok(name) => {
                    let ghost earlier = names@;
                    names.push(name.to_owned());
                    proof {
                        let before = done;
                        done = done.push(piece@);
                        assert(texts_of(earlier).len() == decoded(before).len());
                        assert forall|k: int| 0 <= k < done.len() implies texts_of(names@)[k]
                            == decoded(done)[k] by {
                            if k < before.len() {
                                assert(texts_of(earlier)[k] == decoded(before)[k]);
                            }
                        }
                    }
                },
                Err(e) => {
                    assert(records(data@)[done.len() as int] == piece@);
                    return Err(e);
                },
            }
        }
        if end < n {
            pos = end + 1;
        } else {
            pos = end;
        }
    }
    Ok(names)
}

/// A git repository with a working tree.
#[derive(Debug)]
pub struct Repo {
    path: String,
}

impl View for Repo {
    type V = Seq<char>;

    closed spec fn view(&self) -> Seq<char> {
        self.path@
    }
}

impl Repo {
    /// The repository at the given path.
    pub fn new(path: &str) -> (r: Repo)
        ensures
            r@ == path@,
    {
        Repo { path: path.to_owned() }
    }

    /// The path of the repository.
    pub fn path(&self) -> (r: &str)
        ensures
            r@ == self@,
    {
        self.path.as_str()
    }

    /// A git command in this repository.
    fn git(&self, args: Vec<String>) -> (c: Invocation)
        ensures
            c@ == git_command(self@, texts_of(args@)),
    {
        Invocation { program: "git".to_owned(), dir: self.path.clone(), args, input: None }
    }

    /// The command that lists all references of the repository, branches and
    /// tags alike, one full name on each line.
    pub fn refs_command(&self) -> (c: Invocation)
        ensures
            c@ == git_command(self@, seq!["for-each-ref"@, "--format"@, "%(refname)"@]),
    {
        let mut args: Vec<String> = Vec::new();
        args.push("for-each-ref".to_owned());
        args.push("--format".to_owned());
        args.push("%(refname)".to_owned());
        assert(texts_of(args@) =~= seq!["for-each-ref"@, "--format"@, "%(refname)"@]);
        self.git(args)
    }

    /// The command that checks out the given reference in the working tree.
    pub fn checkout_command(&self, git_ref: &str) -> (c: Invocation)
        ensures
            c@ == git_command(self@, seq!["checkout"@, git_ref@]),
    {
        let mut args: Vec<String> = Vec::new();
        args.push("checkout".to_owned());
        args.push(git_ref.to_owned());
        assert(texts_of(args@) =~= seq!["checkout"@, git_ref@]);
        self.git(args)
    }

    /// Reads the outcome of the listing command: the full names of all
    /// references, in the order in which git gave them.
    pub fn refs(&self, result: &CommandResult) -> (r: Result<Vec<String>, Failure>)
        ensures
            match r {
                Ok(names) => listed(result@) == Ok::<Seq<Seq<char>>, FailureView>(texts_of(names@)),
                Err(e) => listed(result@) == Err::<Seq<Seq<char>>, FailureView>(e@),
            },
    {
        match result {
            CommandResult::NotLaunched => Err(Failure::new(ErrorKind::Vcs, "failed to run git")),
            CommandResult::Exited { success, stdout, stderr } => {
                if !*success {
                    match conv_output(stderr.as_slice()) {
                        Ok(text) => Err(
                            Failure::with_cause(ErrorKind::Vcs, "git branch failed", text),
                        ),
                        Err(e) => Err(e),
                    }
                } else {
                    parse_names(stdout.as_slice())
                }
            },
        }
    }

    /// Checks the outcome of a checkout command.
    pub fn checkout(&self, result: &CommandResult) -> (r: Result<(), Failure>)
        ensures
            match r {
                Ok(done) => checked_out(result@) == Ok::<(), FailureView>(done),
                Err(e) => checked_out(result@) == Err::<(), FailureView>(e@),
            },
    {
        match result {
            CommandResult::NotLaunched => Err(
                Failure::new(ErrorKind::Vcs, "failed to checkout reference"),
            ),
            CommandResult::Exited { success, stdout, stderr } => {
                if *success {
                    Ok(())
                } else {
                    let cause = diagnostic_text(stderr.as_slice());
                    Err(
                        Failure::with_cause(
                            ErrorKind::Vcs,
                            "failed to checkout reference",
                            cause.as_str(),
                        ),
                    )
                }
            },
        }
    }
}

} // verus!

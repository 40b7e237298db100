//! The run as a state machine: from the state of a run and the outcome of
//! the action it asked for to its next state and the next action.
//!
//! The order of a run: the root of the output tree is made; the reference
//! that holds the build configuration is checked out and the configuration
//! is flattened; the references are listed and those that no pattern matches
//! are dropped; for each of the others its directory is made, the reference
//! is checked out, its documentation is generated and the reference is
//! entered into the index; the primary reference is checked out again; the
//! index page, the static files and the JSON snapshot are written and the
//! generated pages are post-processed. Any failure ends the run. Where the
//! working tree may have left the primary reference, the run first asks for
//! that reference to be checked out again, whatever comes of it.

use vstd::prelude::*;
use crate::config::{
    flattened, keys, lemma_known_file_is_not_asked_for, with_output_directory, Halt, Source,
};
use crate::error::{failure, ErrorKind, FailureView};
use crate::filter::{regex_valid, selected, selector, selects};
use crate::git::{checked_out, diagnostic, git_command, listed, CommandOutcome, InvocationView};
use crate::refname::{short_name, slug};
use crate::render::{index_page, json_document, page_of, shows};
use crate::state::{Outcome, Phase, SettingsView, Step};
use crate::version_index::{
    entry_of, groups, index_of, lemma_dir_taken_index_of, lemma_index_groups_references,
    lemma_index_holds_each_reference_once, Entry, VersionIndex,
};

verus! {

/// The state of a run.
pub struct RunState {
    /// What the user asked for.
    pub settings: SettingsView,
    /// How far the run has come.
    pub phase: Phase,
    /// The files of the build configuration read so far.
    pub table: Seq<Source>,
    /// The file of the build configuration that the run has asked for last:
    /// by whom it is named, and how.
    pub wanted: (Seq<char>, Seq<char>),
    /// The flattened build configuration, once it is resolved.
    pub config: Seq<char>,
    /// The references to build, in the order in which they are built.
    pub queue: Seq<Seq<char>>,
    /// How many references of the queue are built.
    pub built: nat,
    /// The absolute path of the directory of the reference at work.
    pub dir: Seq<char>,
    /// The version index of the references built.
    pub index: VersionIndex,
    /// Why the run failed, once it has.
    pub failure: Option<FailureView>,
}

/// The primary reference: the working tree is left on it.
pub open spec fn primary_ref() -> Seq<char> {
    "master"@
}

/// The reference from which the build configuration is read.
pub open spec fn config_ref(settings: SettingsView) -> Seq<char> {
    match settings.config_ref {
        Some(name) => name,
        None => primary_ref(),
    }
}

/// The action that checks out the reference `name`.
pub open spec fn checkout_of(settings: SettingsView, name: Seq<char>) -> Step {
    Step::Run(git_command(settings.repo, seq!["checkout"@, name]))
}

/// The action that lists the references.
pub open spec fn listing_of(settings: SettingsView) -> Step {
    Step::Run(git_command(settings.repo, seq!["for-each-ref"@, "--format"@, "%(refname)"@]))
}

/// The generator's command: it runs in the working tree and reads its
/// configuration from its standard input.
pub open spec fn generator(repo: Seq<char>, input: Seq<char>) -> InvocationView {
    InvocationView { program: "doxygen"@, dir: repo, args: seq!["-"@], input: Some(input) }
}

/// The names in the order in which they are built.
pub open spec fn ordered(names: Seq<Seq<char>>, reverse: bool) -> Seq<Seq<char>> {
    if reverse {
        names.reverse()
    } else {
        names
    }
}

/// Whether the working tree may hold another reference than the primary one
/// while the run is in this phase.
pub open spec fn tree_moved(phase: Phase) -> bool {
    phase == Phase::SwitchingToConfig || phase == Phase::ReadingConfig || phase
        == Phase::ConfigResolved || phase == Phase::Enumerated || phase == Phase::Checkout || phase
        == Phase::Building
}

/// Whether a reference is at work while the run is in this phase.
pub open spec fn at_work(phase: Phase) -> bool {
    phase == Phase::Enumerated || phase == Phase::Checkout || phase == Phase::Building
}

/// Whether the references are all built and the run is at its last steps
/// while it is in this phase.
pub open spec fn finishing(phase: Phase) -> bool {
    phase == Phase::Restoring || phase == Phase::Restored || phase == Phase::IndexRendered
        || phase == Phase::AssetsPlaced || phase == Phase::PostProcessing || phase == Phase::Done
}

/// The failure of a caller that answers with the outcome of another action.
pub open spec fn stray_event() -> FailureView {
    failure(ErrorKind::Protocol, "unexpected event"@)
}

impl RunState {
    /// The state of a run that has not begun.
    pub open spec fn initial(settings: SettingsView) -> RunState {
        RunState {
            settings,
            phase: Phase::Init,
            table: Seq::empty(),
            wanted: (Seq::empty(), Seq::empty()),
            config: Seq::empty(),
            queue: Seq::empty(),
            built: 0,
            dir: Seq::empty(),
            index: VersionIndex::empty(),
            failure: None,
        }
    }

    /// What holds of the state of every run: while a reference is at work
    /// the queue holds it, the run turns to the index files only with all
    /// references of the queue built, the references are listed only with
    /// the patterns found valid, and a failure is recorded exactly once the
    /// run has failed.
    pub open spec fn wf(self) -> bool {
        &&& self.built <= self.queue.len()
        &&& at_work(self.phase) ==> self.built < self.queue.len()
        &&& finishing(self.phase) ==> self.built == self.queue.len()
        &&& self.phase == Phase::ConfigResolved ==> regex_valid(self.settings.patterns)
        &&& self.failure is Some <==> (self.phase == Phase::Recovering || self.phase
            == Phase::Failed)
        &&& self.isolated()
    }

    /// The references built so far, as the index shows them.
    pub open spec fn built_entries(self) -> Seq<Entry> {
        Seq::new(self.built, |i: int| entry_of(self.queue[i]))
    }

    /// The output of every build stands alone: the index holds the
    /// references built so far and no others, each once; no two of them lie
    /// in the same directory, nor does the reference at work lie in the
    /// directory of one of them; and every reference of the queue is one
    /// that a pattern matches.
    pub open spec fn isolated(self) -> bool {
        &&& self.index == index_of(self.built_entries())
        &&& forall|i: int, j: int|
            0 <= i < j < self.built ==> (#[trigger] self.built_entries()[i]).dir != (
            #[trigger] self.built_entries()[j]).dir
        &&& at_work(self.phase) ==> !self.index.dir_taken(slug(short_name(self.current())))
        &&& forall|i: int|
            0 <= i < self.queue.len() ==> selects(self.settings.patterns, #[trigger] self.queue[i])
    }

    /// The run waits for the outcome of `step` in the phase `phase`.
    pub open spec fn wait(self, phase: Phase, step: Step) -> (RunState, Step) {
        (RunState { phase, ..self }, step)
    }

    /// The run ends with the failure `f`.
    pub open spec fn abort(self, f: FailureView) -> (RunState, Step) {
        (RunState { phase: Phase::Failed, failure: Some(f), ..self }, Step::Abort(f))
    }

    /// The run has failed with `f`: it ends, after the primary reference has
    /// been asked for where the working tree may have left it.
    pub open spec fn fail(self, f: FailureView) -> (RunState, Step) {
        if tree_moved(self.phase) {
            (
                RunState { phase: Phase::Recovering, failure: Some(f), ..self },
                checkout_of(self.settings, primary_ref()),
            )
        } else {
            self.abort(f)
        }
    }

    /// The failure that the run ended with.
    pub open spec fn cause(self) -> FailureView {
        match self.failure {
            Some(f) => f,
            None => stray_event(),
        }
    }

    /// The full name of the reference at work.
    pub open spec fn current(self) -> Seq<char> {
        self.queue[self.built as int]
    }

    /// The table with the file that the run has asked for last behind it, as
    /// the caller found it.
    pub open spec fn with_file(self, readable: bool, path: Seq<char>, content: Seq<char>) -> RunState {
        RunState {
            table: self.table.push(
                Source { base: self.wanted.0, target: self.wanted.1, readable, path, content },
            ),
            ..self
        }
    }

    /// The files read so far are put together: the run asks for the file
    /// that is missing, or goes on to list the references once the
    /// configuration is whole and the patterns are found valid.
    pub open spec fn resolve(self) -> (RunState, Step) {
        match flattened(self.table, self.settings.doxyfile) {
            Ok(text) => {
                if regex_valid(self.settings.patterns) {
                    RunState { config: text, ..self }.wait(
                        Phase::ConfigResolved,
                        listing_of(self.settings),
                    )
                } else {
                    self.fail(
                        failure(ErrorKind::Pattern, "failed to parse regular expression"@),
                    )
                }
            },
            Err(Halt::Needs { base, target }) => RunState { wanted: (base, target), ..self }.wait(
                Phase::ReadingConfig,
                Step::ReadFile { base, target },
            ),
            Err(Halt::Failed(f)) => self.fail(f),
        }
    }

    /// The run turns to the next reference of the queue: its directory is
    /// asked for, unless a reference built before lies in a directory of
    /// that name. With the queue at its end the primary reference is asked
    /// for.
    pub open spec fn advance(self) -> (RunState, Step) {
        if self.built < self.queue.len() {
            let name = slug(short_name(self.current()));
            if self.index.dir_taken(name) {
                self.fail(
                    failure(
                        ErrorKind::Filesystem,
                        "output directory already exists"@ + ": "@ + name,
                    ),
                )
            } else {
                self.wait(
                    Phase::Enumerated,
                    Step::CreateDir { git_ref: self.current(), slug: name },
                )
            }
        } else {
            self.wait(Phase::Restoring, checkout_of(self.settings, primary_ref()))
        }
    }

    /// The reference at work is built: it is entered into the index, and the
    /// run turns to the next one.
    pub open spec fn classify(self) -> (RunState, Step) {
        RunState {
            index: self.index.insert(entry_of(self.current())),
            built: self.built + 1,
            ..self
        }.advance()
    }

    /// The working tree is restored: the index page is rendered and asked to
    /// be written.
    pub open spec fn render(self) -> (RunState, Step) {
        match index_page(self.index) {
            Ok(page) => self.wait(
                Phase::Restored,
                Step::WriteFile { name: "index.html"@, content: page },
            ),
            Err(f) => self.abort(f),
        }
    }
}

/// The next state of a run and the next action, from its state and the
/// outcome of the action that it asked for last.
pub open spec fn next(s: RunState, e: Outcome) -> (RunState, Step) {
    match s.phase {
        Phase::Init => match e {
            Outcome::Start => s.wait(Phase::CreatingRoot, Step::CreateRoot),
            _ => s.fail(stray_event()),
        },
        Phase::CreatingRoot => match e {
            Outcome::Done => s.wait(
                Phase::SwitchingToConfig,
                checkout_of(s.settings, config_ref(s.settings)),
            ),
            Outcome::Failed { detail } => s.fail(failure(ErrorKind::Filesystem, detail)),
            _ => s.fail(stray_event()),
        },
        Phase::SwitchingToConfig => match e {
            Outcome::Ran(outcome) => match checked_out(outcome) {
                Ok(_) => s.resolve(),
                Err(f) => s.fail(f),
            },
            _ => s.fail(stray_event()),
        },
        Phase::ReadingConfig => match e {
            Outcome::Read { path, content } => s.with_file(true, path, content).resolve(),
            Outcome::Missing => s.with_file(false, Seq::empty(), Seq::empty()).resolve(),
            Outcome::Failed { detail } => s.fail(failure(ErrorKind::Configuration, detail)),
            _ => s.fail(stray_event()),
        },
        Phase::ConfigResolved => match e {
            Outcome::Ran(outcome) => match listed(outcome) {
                Ok(names) => RunState {
                    queue: ordered(selected(s.settings.patterns, names), s.settings.reverse),
                    built: 0,
                    index: VersionIndex::empty(),
                    ..s
                }.advance(),
                Err(f) => s.fail(f),
            },
            _ => s.fail(stray_event()),
        },
        Phase::Enumerated => match e {
            Outcome::Created { path } => RunState { dir: path, ..s }.wait(
                Phase::Checkout,
                checkout_of(s.settings, s.current()),
            ),
            Outcome::Failed { detail } => s.fail(failure(ErrorKind::Filesystem, detail)),
            _ => s.fail(stray_event()),
        },
        Phase::Checkout => match e {
            Outcome::Ran(outcome) => match checked_out(outcome) {
                Ok(_) => s.wait(
                    Phase::Building,
                    Step::Run(generator(s.settings.repo, with_output_directory(s.config, s.dir))),
                ),
                Err(f) => s.fail(f),
            },
            _ => s.fail(stray_event()),
        },
        Phase::Building => match e {
            Outcome::Ran(CommandOutcome::Exited { success, stdout, stderr }) => {
                if success {
                    s.classify()
                } else {
                    s.fail(
                        failure(ErrorKind::Build, "doxygen failed"@ + ": "@ + diagnostic(stderr)),
                    )
                }
            },
            Outcome::Ran(CommandOutcome::NotLaunched) => s.fail(
                failure(ErrorKind::Build, "failed to run doxygen"@),
            ),
            _ => s.fail(stray_event()),
        },
        Phase::Restoring => match e {
            Outcome::Ran(outcome) => match checked_out(outcome) {
                Ok(_) => s.render(),
                Err(f) => s.fail(f),
            },
            _ => s.fail(stray_event()),
        },
        Phase::Restored => match e {
            Outcome::Done => s.wait(Phase::IndexRendered, Step::PlaceAssets),
            Outcome::Failed { detail } => s.fail(failure(ErrorKind::Filesystem, detail)),
            _ => s.fail(stray_event()),
        },
        Phase::IndexRendered => match e {
            Outcome::Done => s.wait(
                Phase::AssetsPlaced,
                Step::WriteFile { name: "versions.json"@, content: json_document(s.index) },
            ),
            Outcome::Failed { detail } => s.fail(failure(ErrorKind::Filesystem, detail)),
            _ => s.fail(stray_event()),
        },
        Phase::AssetsPlaced => match e {
            Outcome::Done => s.wait(Phase::PostProcessing, Step::PostProcess),
            Outcome::Failed { detail } => s.fail(failure(ErrorKind::Filesystem, detail)),
            _ => s.fail(stray_event()),
        },
        Phase::PostProcessing => match e {
            Outcome::Done => s.wait(Phase::Done, Step::Finish),
            Outcome::Failed { detail } => s.fail(failure(ErrorKind::Filesystem, detail)),
            _ => s.fail(stray_event()),
        },
        Phase::Recovering => s.abort(s.cause()),
        Phase::Done => (s, Step::Finish),
        Phase::Failed => (s, Step::Abort(s.cause())),
    }
}

/// A state that only changes its phase, its failure, its configuration, its
/// table or its directory, and in which no reference is at work, is as
/// isolated as it was.
proof fn lemma_idle_keeps_isolated(s: RunState, t: RunState)
    requires
        s.isolated(),
        !at_work(t.phase),
        t.queue == s.queue,
        t.built == s.built,
        t.index == s.index,
        t.settings == s.settings,
    ensures
        t.isolated(),
{
}

/// Failing leaves a well-formed state well formed.
proof fn lemma_fail_keeps_wf(s: RunState, f: FailureView)
    requires
        s.built <= s.queue.len(),
        s.isolated(),
    ensures
        s.fail(f).0.wf(),
        s.abort(f).0.wf(),
{
    lemma_idle_keeps_isolated(s, s.fail(f).0);
    lemma_idle_keeps_isolated(s, s.abort(f).0);
}

/// Turning to the next reference leaves a state well formed that is well
/// formed but for the reference at work.
proof fn lemma_advance_keeps_wf(s: RunState)
    requires
        s.built <= s.queue.len(),
        s.failure is None,
        s.index == index_of(s.built_entries()),
        forall|i: int, j: int|
            0 <= i < j < s.built ==> (#[trigger] s.built_entries()[i]).dir != (
            #[trigger] s.built_entries()[j]).dir,
        forall|i: int| 0 <= i < s.queue.len() ==> selects(s.settings.patterns, #[trigger] s.queue[i]),
    ensures
        s.advance().0.wf(),
{
}

/// A step of a run leaves its state well formed.
pub proof fn lemma_next_keeps_wf(s: RunState, e: Outcome)
    requires
        s.wf(),
    ensures
        next(s, e).0.wf(),
{
    let t = next(s, e).0;
    lemma_fail_keeps_wf(s, stray_event());
    match s.phase {
        Phase::Init => {
            lemma_idle_keeps_isolated(s, s.wait(Phase::CreatingRoot, Step::CreateRoot).0);
        },
        Phase::CreatingRoot => {
            match e {
                Outcome::Failed { detail } => {
                    lemma_fail_keeps_wf(s, failure(ErrorKind::Filesystem, detail));
                },
                _ => {
                    lemma_idle_keeps_isolated(s, RunState { phase: Phase::SwitchingToConfig, ..s });
                },
            }
        },
        Phase::SwitchingToConfig => {
            lemma_resolve_keeps_wf(s);
            match e {
                Outcome::Ran(outcome) => match checked_out(outcome) {
                    Err(f) => {
                        lemma_fail_keeps_wf(s, f);
                    },
                    _ => {},
                },
                _ => {},
            }
        },
        Phase::ReadingConfig => {
            match e {
                Outcome::Read { path, content } => {
                    let r = s.with_file(true, path, content);
                    lemma_resolve_keeps_wf(r);
                },
                Outcome::Missing => {
                    let r = s.with_file(false, Seq::empty(), Seq::empty());
                    lemma_resolve_keeps_wf(r);
                },
                Outcome::Failed { detail } => {
                    lemma_fail_keeps_wf(s, failure(ErrorKind::Configuration, detail));
                },
                _ => {},
            }
        },
        Phase::ConfigResolved => {
            match e {
                Outcome::Ran(outcome) => match listed(outcome) {
                    Ok(names) => {
                        let chosen = selected(s.settings.patterns, names);
                        let queue = ordered(chosen, s.settings.reverse);
                        let r = RunState { queue, built: 0, index: VersionIndex::empty(), ..s };
                        assert forall|i: int| 0 <= i < queue.len() implies selects(
                            s.settings.patterns,
                            #[trigger] queue[i],
                        ) by {
                            let k = if s.settings.reverse {
                                chosen.len() - 1 - i
                            } else {
                                i
                            };
                            names.lemma_filter_pred(selector(s.settings.patterns), k);
                        }
                        lemma_advance_keeps_wf(r);
                    },
                    Err(f) => {
                        lemma_fail_keeps_wf(s, f);
                    },
                },
                _ => {},
            }
        },
        Phase::Enumerated => {
            match e {
                Outcome::Failed { detail } => {
                    lemma_fail_keeps_wf(s, failure(ErrorKind::Filesystem, detail));
                },
                _ => {},
            }
        },
        Phase::Checkout => {
            match e {
                Outcome::Ran(outcome) => match checked_out(outcome) {
                    Err(f) => {
                        lemma_fail_keeps_wf(s, f);
                    },
                    _ => {},
                },
                _ => {},
            }
        },
        Phase::Building => {
            match e {
                Outcome::Ran(CommandOutcome::Exited { success, stdout, stderr }) => {
                    if success {
                        lemma_classify_keeps_wf(s);
                    } else {
                        lemma_fail_keeps_wf(
                            s,
                            failure(ErrorKind::Build, "doxygen failed"@ + ": "@ + diagnostic(stderr)),
                        );
                    }
                },
                Outcome::Ran(CommandOutcome::NotLaunched) => {
                    lemma_fail_keeps_wf(s, failure(ErrorKind::Build, "failed to run doxygen"@));
                },
                _ => {},
            }
        },
        Phase::Restoring => {
            match e {
                Outcome::Ran(outcome) => match checked_out(outcome) {
                    Ok(_) => {
                        match index_page(s.index) {
                            Ok(page) => {
                                lemma_idle_keeps_isolated(s, t);
                            },
                            Err(f) => {
                                lemma_fail_keeps_wf(s, f);
                            },
                        }
                    },
                    Err(f) => {
                        lemma_fail_keeps_wf(s, f);
                    },
                },
                _ => {},
            }
        },
        Phase::Restored | Phase::IndexRendered | Phase::AssetsPlaced | Phase::PostProcessing => {
            match e {
                Outcome::Done => {
                    lemma_idle_keeps_isolated(s, t);
                },
                Outcome::Failed { detail } => {
                    lemma_fail_keeps_wf(s, failure(ErrorKind::Filesystem, detail));
                },
                _ => {},
            }
        },
        Phase::Recovering => {
            lemma_fail_keeps_wf(s, s.cause());
        },
        Phase::Done => {},
        Phase::Failed => {},
    }
}

/// Putting the configuration together leaves a well-formed state well
/// formed.
proof fn lemma_resolve_keeps_wf(s: RunState)
    requires
        s.built <= s.queue.len(),
        s.failure is None,
        s.isolated(),
        !at_work(s.phase),
    ensures
        s.resolve().0.wf(),
{
    let t = s.resolve().0;
    match flattened(s.table, s.settings.doxyfile) {
        Ok(text) => {
            if regex_valid(s.settings.patterns) {
                lemma_idle_keeps_isolated(s, t);
            } else {
                lemma_fail_keeps_wf(
                    s,
                    failure(ErrorKind::Pattern, "failed to parse regular expression"@),
                );
            }
        },
        Err(Halt::Needs { base, target }) => {
            lemma_idle_keeps_isolated(s, t);
        },
        Err(Halt::Failed(f)) => {
            lemma_fail_keeps_wf(s, f);
        },
    }
}

/// Entering the reference at work into the index leaves a well-formed state
/// well formed.
proof fn lemma_classify_keeps_wf(s: RunState)
    requires
        s.wf(),
        s.phase == Phase::Building,
    ensures
        s.classify().0.wf(),
{
    let e = entry_of(s.current());
    let r = RunState { index: s.index.insert(e), built: s.built + 1, ..s };
    let before = s.built_entries();
    let grown = r.built_entries();
    assert(grown =~= before.push(e));
    assert(grown.drop_last() =~= before);
    lemma_dir_taken_index_of(before, e.dir);
    lemma_advance_keeps_wf(r);
}

/// The actions that a run in the state `s` asks for, one after the other,
/// as the outcomes `events` come in.
pub open spec fn actions(s: RunState, events: Seq<Outcome>) -> Seq<Step>
    decreases events.len(),
{
    if events.len() == 0 {
        Seq::empty()
    } else {
        seq![next(s, events[0]).1] + actions(next(s, events[0]).0, events.skip(1))
    }
}

/// A run asks for one action on each outcome; what it asks for after the
/// first outcome is what the run in its next state asks for.
pub proof fn lemma_actions_unfold(s: RunState, events: Seq<Outcome>)
    ensures
        actions(s, events).len() == events.len(),
        events.len() > 0 ==> actions(s, events)[0] == next(s, events[0]).1,
        forall|i: int|
            1 <= i < events.len() ==> #[trigger] actions(s, events)[i] == actions(
                next(s, events[0]).0,
                events.skip(1),
            )[i - 1],
    decreases events.len(),
{
    if events.len() > 0 {
        lemma_actions_unfold(next(s, events[0]).0, events.skip(1));
    }
}

/// A run that has failed asks for nothing more: whatever comes in, it says
/// again that it has failed, and why.
pub proof fn lemma_nothing_follows_failure(s: RunState, events: Seq<Outcome>)
    requires
        s.failure is Some,
        s.phase == Phase::Recovering || s.phase == Phase::Failed,
    ensures
        forall|i: int|
            0 <= i < events.len() ==> #[trigger] actions(s, events)[i] == Step::Abort(s.cause()),
    decreases events.len(),
{
    lemma_actions_unfold(s, events);
    if events.len() > 0 {
        lemma_nothing_follows_failure(next(s, events[0]).0, events.skip(1));
    }
}

/// Where a step lets the run fail, the run asks at most for the primary
/// reference to be checked out again, and the index stays as it was: with
/// the law above, nothing is built or written after a failure.
pub proof fn lemma_failure_is_fatal(s: RunState, e: Outcome)
    requires
        s.wf(),
        s.failure is None,
        next(s, e).0.failure is Some,
    ensures
        next(s, e).1 == Step::Abort(next(s, e).0.cause()) || next(s, e).1 == checkout_of(
            s.settings,
            primary_ref(),
        ),
        next(s, e).1 is Run ==> tree_moved(s.phase),
        next(s, e).0.phase == Phase::Recovering || next(s, e).0.phase == Phase::Failed,
{
}

/// Where the root of the output tree cannot be made, as when it exists
/// already, the run ends there: it has asked for the root and asks for
/// nothing else, so no command is run and the working tree stays as it was.
pub proof fn lemma_existing_root_ends_run(settings: SettingsView, events: Seq<Outcome>)
    requires
        events.len() >= 2,
        events[0] == Outcome::Start,
        events[1] is Failed,
    ensures
        actions(RunState::initial(settings), events)[0] == Step::CreateRoot,
        forall|i: int|
            1 <= i < events.len() ==> #[trigger] actions(RunState::initial(settings), events)[i]
                == Step::Abort(failure(ErrorKind::Filesystem, events[1]->detail)),
{
    let s0 = RunState::initial(settings);
    let s1 = next(s0, events[0]).0;
    let s2 = next(s1, events[1]).0;
    let rest = events.skip(1);
    lemma_actions_unfold(s0, events);
    lemma_actions_unfold(s1, rest);
    lemma_nothing_follows_failure(s2, rest.skip(1));
}

/// Where the generator does not end with status zero, or cannot be started,
/// the run fails with a build failure: the reference is not entered into the
/// index, the primary reference is asked for, and then the run only says
/// that it has failed.
pub proof fn lemma_failed_build_ends_run(s: RunState, result: CommandOutcome, rest: Seq<Outcome>)
    requires
        s.wf(),
        s.phase == Phase::Building,
        !(result matches CommandOutcome::Exited { success, .. } && success),
    ensures
        ({
            let (t, a) = next(s, Outcome::Ran(result));
            &&& a == checkout_of(s.settings, primary_ref())
            &&& t.failure matches Some(f) && f.kind == ErrorKind::Build
            &&& t.index == s.index
            &&& t.built == s.built
            &&& forall|i: int|
                0 <= i < rest.len() ==> #[trigger] actions(t, rest)[i] == Step::Abort(t.cause())
        }),
{
    let t = next(s, Outcome::Ran(result)).0;
    lemma_nothing_follows_failure(t, rest);
}

/// A directory is asked for only for a reference that one of the patterns
/// matches, under the name of its slug, and only where no reference built
/// before lies in a directory of that name.
pub proof fn lemma_only_matched_references_are_built(s: RunState, e: Outcome)
    requires
        s.wf(),
    ensures
        next(s, e).1 matches Step::CreateDir { git_ref, slug: name } ==> selects(
            s.settings.patterns,
            git_ref,
        ) && name == slug(short_name(git_ref)) && !next(s, e).0.index.dir_taken(name) && git_ref
            == next(s, e).0.current(),
{
    lemma_next_keeps_wf(s, e);
}

/// The run does not ask twice for a file of the build configuration: what
/// it asks for after the caller has answered is another file.
pub proof fn lemma_no_file_is_asked_for_twice(s: RunState, e: Outcome)
    requires
        s.phase == Phase::ReadingConfig,
        e is Read || e is Missing,
    ensures
        next(s, e).1 != (Step::ReadFile { base: s.wanted.0, target: s.wanted.1 }),
{
    let r = match e {
        Outcome::Read { path, content } => s.with_file(true, path, content),
        _ => s.with_file(false, Seq::empty(), Seq::empty()),
    };
    assert(keys(r.table)[s.table.len() as int] == s.wanted);
    lemma_known_file_is_not_asked_for(
        r.table,
        Seq::empty(),
        r.settings.doxyfile,
        Seq::empty(),
        r.table.len(),
        s.wanted,
    );
}

/// The index files, the static files and the post-processing are asked for
/// only once every reference of the queue is built and the primary reference
/// is checked out again, and never by a run that has failed.
pub proof fn lemma_index_follows_the_builds(s: RunState, e: Outcome)
    requires
        s.wf(),
        next(s, e).1 is WriteFile || next(s, e).1 is PlaceAssets || next(s, e).1 is PostProcess
            || next(s, e).1 is Finish,
    ensures
        finishing(s.phase),
        s.built == s.queue.len(),
        s.index == index_of(Seq::new(s.queue.len(), |i: int| entry_of(s.queue[i]))),
        s.failure is None,
        next(s, e).0.failure is None,
        s.phase == Phase::Restoring ==> (e matches Outcome::Ran(outcome) && checked_out(outcome)
            is Ok),
{
}

/// The two index files are made from one index: when the run asks for the
/// index page to be written, it goes on to ask for the static files and then
/// for the JSON snapshot, and the page is the page of that snapshot.
pub proof fn lemma_page_shows_the_snapshot(s: RunState, e: Outcome)
    requires
        s.phase == Phase::Restoring,
        next(s, e).1 is WriteFile,
    ensures
        ({
            let (t, first) = next(s, e);
            let (u, second) = next(t, Outcome::Done);
            let (v, third) = next(u, Outcome::Done);
            &&& first matches Step::WriteFile { name, content: page }
            &&& name == "index.html"@
            &&& second == Step::PlaceAssets
            &&& third == Step::WriteFile {
                name: "versions.json"@,
                content: json_document(s.index),
            }
            &&& page_of(json_document(s.index)) == Ok::<Seq<char>, FailureView>(page)
            &&& shows(page, s.index)
        }),
{
}

/// The index of a run holds the references built so far and groups them:
/// every one of them stands in exactly one place.
pub proof fn lemma_index_holds_what_is_built(s: RunState)
    requires
        s.wf(),
    ensures
        groups(s.index, s.built_entries()),
        s.index.count() == s.built,
{
    lemma_index_groups_references(s.built_entries());
    lemma_index_holds_each_reference_once(s.built_entries());
}

} // verus!

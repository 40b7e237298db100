//! The run itself: it takes the outcome of the action that it asked for and
//! says what is to be done next. Its caller carries the actions out.

use vstd::prelude::*;
use crate::config::{
    load_doxyfile, local_config, sources_of, IncludeRequest, SourceFile, Unresolved,
};
use crate::error::{ErrorKind, Failure};
use crate::filter::{select_refs, valid_patterns};
use crate::git::{diagnostic_text, CommandResult, Invocation, Repo};
use crate::refname::{short_ref_name, slug_of};
use crate::render::{render_index, to_json};
use crate::state::{Action, Event, Phase, Settings};
use crate::text::texts_of;
use crate::transition::{
    checkout_of, generator, lemma_next_keeps_wf, next, stray_event, RunState,
};
use crate::version_index::{IndexContext, IndexRef};

verus! {

/// A run.
#[derive(Debug)]
pub struct Orchestrator {
    settings: Settings,
    phase: Phase,
    table: Vec<SourceFile>,
    wanted: IncludeRequest,
    config: String,
    queue: Vec<String>,
    built: usize,
    dir: String,
    index: IndexContext,
    failure: Option<Failure>,
}

impl View for Orchestrator {
    type V = RunState;

    closed spec fn view(&self) -> RunState {
        RunState {
            settings: self.settings@,
            phase: self.phase,
            table: sources_of(self.table@),
            wanted: (self.wanted.base@, self.wanted.target@),
            config: self.config@,
            queue: texts_of(self.queue@),
            built: self.built as nat,
            dir: self.dir@,
            index: self.index@,
            failure: match self.failure {
                Some(f) => Some(f@),
                None => None,
            },
        }
    }
}

/// The names in the reverse of their order.
fn reversed(names: Vec<String>) -> (r: Vec<String>)
    ensures
        texts_of(r@) == texts_of(names@).reverse(),
{
    let mut r: Vec<String> = Vec::new();
    let mut i: usize = names.len();
    while i > 0
        invariant
            i <= names@.len(),
            r@.len() == names@.len() - i,
            forall|k: int| 0 <= k < r@.len() ==> r@[k]@ == names@[names@.len() - 1 - k]@,
        decreases i,
    {
        i -= 1;
        r.push(names[i].clone());
    }
    r
}

/// The command of the generator.
fn generator_command(repo: &str, input: String) -> (c: Invocation)
    ensures
        c@ == generator(repo@, input@),
{
    let mut args: Vec<String> = Vec::new();
    args.push("-".to_owned());
    assert(texts_of(args@) =~= seq!["-"@]);
    Invocation { program: "doxygen".to_owned(), dir: repo.to_owned(), args, input: Some(input) }
}

impl Orchestrator {
    /// A run that has not begun.
    pub fn new(settings: Settings) -> (r: Orchestrator)
        ensures
            r@ == RunState::initial(settings@),
            r@.wf(),
    {
        let r = Orchestrator {
            settings,
            phase: Phase::Init,
            table: Vec::new(),
            wanted: IncludeRequest { base: String::new(), target: String::new() },
            config: String::new(),
            queue: Vec::new(),
            built: 0,
            dir: String::new(),
            index: IndexContext::new(),
            failure: None,
        };
        assert(r@.table =~= Seq::empty());
        assert(r@.queue =~= Seq::empty());
        r
    }

    /// How far the run has come.
    pub fn phase(&self) -> (r: Phase)
        ensures
            r == self@.phase,
    {
        self.phase
    }

    /// The version index of the references built so far.
    pub fn index(&self) -> (r: &IndexContext)
        ensures
            r@ == self@.index,
    {
        &self.index
    }

    /// The action that checks out the reference `name`.
    fn checkout_action(&self, name: &str) -> (a: Action)
        ensures
            a@ == checkout_of(self@.settings, name@),
    {
        Action::Run(Repo::new(self.settings.repo.as_str()).checkout_command(name))
    }

    /// The failure that the run ended with.
    fn cause(&self) -> (f: Failure)
        ensures
            f@ == self@.cause(),
    {
        match &self.failure {
            Some(f) => f.duplicate(),
            None => Failure::new(ErrorKind::Protocol, "unexpected event"),
        }
    }

    /// Ends the run with the failure `f`.
    fn abort(&mut self, f: Failure) -> (a: Action)
        ensures
            (final(self)@, a@) == old(self)@.abort(f@),
    {
        self.phase = Phase::Failed;
        self.failure = Some(f.duplicate());
        Action::Abort(f)
    }

    /// Lets the run fail with `f`.
    fn fail(&mut self, f: Failure) -> (a: Action)
        ensures
            (final(self)@, a@) == old(self)@.fail(f@),
    {
        match self.phase {
            Phase::SwitchingToConfig | Phase::ReadingConfig | Phase::ConfigResolved
            | Phase::Enumerated | Phase::Checkout | Phase::Building => {
                let a = self.checkout_action("master");
                self.phase = Phase::Recovering;
                self.failure = Some(f);
                a
            },
            _ => self.abort(f),
        }
    }

    /// Lets the run fail on an outcome that answers no action of its phase.
    fn stray(&mut self) -> (a: Action)
        ensures
            (final(self)@, a@) == old(self)@.fail(stray_event()),
    {
        self.fail(Failure::new(ErrorKind::Protocol, "unexpected event"))
    }

    /// Adds the file that the run has asked for last to the table, as the
    /// caller found it.
    fn add_file(&mut self, readable: bool, path: String, content: String)
        ensures
            final(self)@ == old(self)@.with_file(readable, path@, content@),
    {
        let file = SourceFile {
            base: self.wanted.base.clone(),
            target: self.wanted.target.clone(),
            readable,
            path,
            content,
        };
        self.table.push(file);
        assert(self@.table =~= old(self)@.table.push(file@));
    }

    /// Puts the files read so far together.
    fn resolve(&mut self) -> (a: Action)
        ensures
            (final(self)@, a@) == old(self)@.resolve(),
    {
        match load_doxyfile(&self.table, self.settings.doxyfile.as_str()) {
            Ok(text) => {
                if valid_patterns(&self.settings.patterns) {
                    self.config = text;
                    self.phase = Phase::ConfigResolved;
                    Action::Run(Repo::new(self.settings.repo.as_str()).refs_command())
                } else {
                    self.fail(
                        Failure::new(ErrorKind::Pattern, "failed to parse regular expression"),
                    )
                }
            },
            Err(Unresolved::Needs(request)) => {
                self.wanted = IncludeRequest {
                    base: request.base.clone(),
                    target: request.target.clone(),
                };
                self.phase = Phase::ReadingConfig;
                Action::ReadFile(request)
            },
            Err(Unresolved::Failed(f)) => self.fail(f),
        }
    }

    /// Turns to the next reference of the queue.
    fn advance(&mut self) -> (a: Action)
        requires
            old(self)@.built <= old(self)@.queue.len(),
        ensures
            (final(self)@, a@) == old(self)@.advance(),
    {
        if self.built < self.queue.len() {
            let git_ref = self.queue[self.built].clone();
            let name = slug_of(short_ref_name(git_ref.as_str()));
            if self.index.has_dir(name.as_str()) {
                self.fail(
                    Failure::with_cause(
                        ErrorKind::Filesystem,
                        "output directory already exists",
                        name.as_str(),
                    ),
                )
            } else {
                self.phase = Phase::Enumerated;
                Action::CreateDir { git_ref, slug: name }
            }
        } else {
            let a = self.checkout_action("master");
            self.phase = Phase::Restoring;
            a
        }
    }

    /// Enters the reference at work into the index and turns to the next
    /// one.
    fn classify(&mut self) -> (a: Action)
        requires
            old(self)@.built < old(self)@.queue.len(),
        ensures
            (final(self)@, a@) == old(self)@.classify(),
    {
        let entry = IndexRef::of(self.queue[self.built].as_str());
        self.index.add(entry);
        let total: usize = self.queue.len();
        assert(self.built < total);
        self.built = self.built + 1;
        self.advance()
    }

    /// Renders the index page and asks for it to be written.
    fn render(&mut self) -> (a: Action)
        ensures
            (final(self)@, a@) == old(self)@.render(),
    {
        match render_index(&self.index) {
            Ok(page) => {
                self.phase = Phase::Restored;
                Action::WriteFile { name: "index.html".to_owned(), content: page }
            },
            Err(f) => self.abort(f),
        }
    }

    /// Takes the outcome of the action that the run asked for last, and says
    /// what is to be done next. A run begins with `Event::Start`.
    pub fn step(&mut self, event: Event) -> (a: Action)
        requires
            old(self)@.wf(),
        ensures
            (final(self)@, a@) == next(old(self)@, event@),
            final(self)@.wf(),
    {
        proof {
            lemma_next_keeps_wf(self@, event@);
        }
        match self.phase {
            Phase::Init => match event {
                Event::Start => {
                    self.phase = Phase::CreatingRoot;
                    Action::CreateRoot
                },
                _ => self.stray(),
            },
            Phase::CreatingRoot => match event {
                Event::Done => {
                    let a = match &self.settings.config_ref {
                        Some(name) => self.checkout_action(name.as_str()),
                        None => self.checkout_action("master"),
                    };
                    self.phase = Phase::SwitchingToConfig;
                    a
                },
                Event::Failed { detail } => self.fail(
                    Failure { kind: ErrorKind::Filesystem, detail },
                ),
                _ => self.stray(),
            },
            Phase::SwitchingToConfig => match event {
                Event::Ran(result) => match Repo::new(self.settings.repo.as_str()).checkout(
                    &result,
                ) {
                    Ok(_) => self.resolve(),
                    Err(f) => self.fail(f),
                },
                _ => self.stray(),
            },
            Phase::ReadingConfig => match event {
                Event::Read { path, content } => {
                    self.add_file(true, path, content);
                    self.resolve()
                },
                Event::Missing => {
                    self.add_file(false, String::new(), String::new());
                    self.resolve()
                },
                Event::Failed { detail } => self.fail(
                    Failure { kind: ErrorKind::Configuration, detail },
                ),
                _ => self.stray(),
            },
            Phase::ConfigResolved => match event {
                Event::Ran(result) => match Repo::new(self.settings.repo.as_str()).refs(&result) {
                    Ok(names) => match select_refs(&self.settings.patterns, &names) {
                        Some(chosen) => {
                            self.queue = if self.settings.reverse {
                                reversed(chosen)
                            } else {
                                chosen
                            };
                            self.built = 0;
                            self.index = IndexContext::new();
                            self.advance()
                        },
                        None => self.stray(),
                    },
                    Err(f) => self.fail(f),
                },
                _ => self.stray(),
            },
            Phase::Enumerated => match event {
                Event::Created { path } => {
                    let a = self.checkout_action(self.queue[self.built].as_str());
                    self.dir = path;
                    self.phase = Phase::Checkout;
                    a
                },
                Event::Failed { detail } => self.fail(
                    Failure { kind: ErrorKind::Filesystem, detail },
                ),
                _ => self.stray(),
            },
            Phase::Checkout => match event {
                Event::Ran(result) => match Repo::new(self.settings.repo.as_str()).checkout(
                    &result,
                ) {
                    Ok(_) => {
                        let input = local_config(self.config.as_str(), self.dir.as_str());
                        self.phase = Phase::Building;
                        Action::Run(generator_command(self.settings.repo.as_str(), input))
                    },
                    Err(f) => self.fail(f),
                },
                _ => self.stray(),
            },
            Phase::Building => match event {
                Event::Ran(CommandResult::Exited { success, stdout, stderr }) => {
                    if success {
                        self.classify()
                    } else {
                        let cause = diagnostic_text(stderr.as_slice());
                        self.fail(
                            Failure::with_cause(ErrorKind::Build, "doxygen failed", cause.as_str()),
                        )
                    }
                },
                Event::Ran(CommandResult::NotLaunched) => self.fail(
                    Failure::new(ErrorKind::Build, "failed to run doxygen"),
                ),
                _ => self.stray(),
            },
            Phase::Restoring => match event {
                Event::Ran(result) => match Repo::new(self.settings.repo.as_str()).checkout(
                    &result,
                ) {
                    Ok(_) => self.render(),
                    Err(f) => self.fail(f),
                },
                _ => self.stray(),
            },
            Phase::Restored => match event {
                Event::Done => {
                    self.phase = Phase::IndexRendered;
                    Action::PlaceAssets
                },
                Event::Failed { detail } => self.fail(
                    Failure { kind: ErrorKind::Filesystem, detail },
                ),
                _ => self.stray(),
            },
            Phase::IndexRendered => match event {
                Event::Done => {
                    self.phase = Phase::AssetsPlaced;
                    Action::WriteFile {
                        name: "versions.json".to_owned(),
                        content: to_json(&self.index),
                    }
                },
                Event::Failed { detail } => self.fail(
                    Failure { kind: ErrorKind::Filesystem, detail },
                ),
                _ => self.stray(),
            },
            Phase::AssetsPlaced => match event {
                Event::Done => {
                    self.phase = Phase::PostProcessing;
                    Action::PostProcess
                },
                Event::Failed { detail } => self.fail(
                    Failure { kind: ErrorKind::Filesystem, detail },
                ),
                _ => self.stray(),
            },
            Phase::PostProcessing => match event {
                Event::Done => {
                    self.phase = Phase::Done;
                    Action::Finish
                },
                Event::Failed { detail } => self.fail(
                    Failure { kind: ErrorKind::Filesystem, detail },
                ),
                _ => self.stray(),
            },
            Phase::Recovering => {
                let f = self.cause();
                self.abort(f)
            },
            Phase::Done => Action::Finish,
            Phase::Failed => Action::Abort(self.cause()),
        }
    }
}

} // verus!

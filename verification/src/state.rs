//! What passes between the run and its caller: the settings of a run, the
//! actions that the run asks for and the events that answer them.

use vstd::prelude::*;
use crate::config::IncludeRequest;
use crate::error::{Failure, FailureView};
use crate::git::{CommandOutcome, CommandResult, Invocation, InvocationView};
use crate::text::texts_of;

verus! {

/// What the user asked for.
#[derive(Debug)]
pub struct Settings {
    /// The path of the git repository.
    pub repo: String,
    /// The patterns: a reference is built if one of them matches its full
    /// name.
    pub patterns: Vec<String>,
    /// The reference from which the build configuration is read; the primary
    /// branch where none is given.
    pub config_ref: Option<String>,
    /// The path of the file that the build configuration starts with.
    pub doxyfile: String,
    /// Whether the references are built in the reverse of the order in which
    /// git lists them.
    pub reverse: bool,
}

/// What `Settings` stand for.
pub struct SettingsView {
    pub repo: Seq<char>,
    pub patterns: Seq<Seq<char>>,
    pub config_ref: Option<Seq<char>>,
    pub doxyfile: Seq<char>,
    pub reverse: bool,
}

impl View for Settings {
    type V = SettingsView;

    open spec fn view(&self) -> SettingsView {
        SettingsView {
            repo: self.repo@,
            patterns: texts_of(self.patterns@),
            config_ref: match self.config_ref {
                Some(name) => Some(name@),
                None => None,
            },
            doxyfile: self.doxyfile@,
            reverse: self.reverse,
        }
    }
}

/// What the run asks its caller to do next.
#[derive(Debug)]
pub enum Action {
    /// Make the root of the output tree. It must not exist yet.
    CreateRoot,
    /// Run a command in the working tree of the repository.
    Run(Invocation),
    /// Find and read a file of the build configuration.
    ReadFile(IncludeRequest),
    /// Make the directory of a reference below the root of the output tree.
    /// It must not exist yet.
    CreateDir {
        /// The full name of the reference, for the progress message.
        git_ref: String,
        /// The name of the directory.
        slug: String,
    },
    /// Write a file into the root of the output tree.
    WriteFile {
        /// The name of the file.
        name: String,
        /// Its content.
        content: String,
    },
    /// Copy the static files into the root of the output tree.
    PlaceAssets,
    /// Put the script reference into the generated pages.
    PostProcess,
    /// Nothing is left to do: the run has succeeded.
    Finish,
    /// Nothing more is to be done: the run has failed.
    Abort(Failure),
}

/// What an `Action` stands for.
pub enum Step {
    CreateRoot,
    Run(InvocationView),
    ReadFile { base: Seq<char>, target: Seq<char> },
    CreateDir { git_ref: Seq<char>, slug: Seq<char> },
    WriteFile { name: Seq<char>, content: Seq<char> },
    PlaceAssets,
    PostProcess,
    Finish,
    Abort(FailureView),
}

impl View for Action {
    type V = Step;

    open spec fn view(&self) -> Step {
        match self {
            Action::CreateRoot => Step::CreateRoot,
            Action::Run(command) => Step::Run(command@),
            Action::ReadFile(request) => Step::ReadFile {
                base: request.base@,
                target: request.target@,
            },
            Action::CreateDir { git_ref, slug } => Step::CreateDir {
                git_ref: git_ref@,
                slug: slug@,
            },
            Action::WriteFile { name, content } => Step::WriteFile {
                name: name@,
                content: content@,
            },
            Action::PlaceAssets => Step::PlaceAssets,
            Action::PostProcess => Step::PostProcess,
            Action::Finish => Step::Finish,
            Action::Abort(e) => Step::Abort(e@),
        }
    }
}

/// What came of the action that the run asked for.
#[derive(Debug)]
pub enum Event {
    /// Nothing has been asked for yet: the run begins.
    Start,
    /// The action was carried out.
    Done,
    /// The directory was made.
    Created {
        /// The absolute path of the directory.
        path: String,
    },
    /// The command was run, or could not be started.
    Ran(CommandResult),
    /// The file was found and read.
    Read {
        /// The file's own path with all links resolved.
        path: String,
        /// The file's content.
        content: String,
    },
    /// The file could not be found or read.
    Missing,
    /// The action could not be carried out.
    Failed {
        /// Why not.
        detail: String,
    },
}

/// What an `Event` stands for.
pub enum Outcome {
    Start,
    Done,
    Created { path: Seq<char> },
    Ran(CommandOutcome),
    Read { path: Seq<char>, content: Seq<char> },
    Missing,
    Failed { detail: Seq<char> },
}

impl View for Event {
    type V = Outcome;

    open spec fn view(&self) -> Outcome {
        match self {
            Event::Start => Outcome::Start,
            Event::Done => Outcome::Done,
            Event::Created { path } => Outcome::Created { path: path@ },
            Event::Ran(result) => Outcome::Ran(result@),
            Event::Read { path, content } => Outcome::Read { path: path@, content: content@ },
            Event::Missing => Outcome::Missing,
            Event::Failed { detail } => Outcome::Failed { detail: detail@ },
        }
    }
}

/// How far a run has come: what it is waiting for.
#[derive(Clone, Copy, Debug, PartialEq, Eq, Structural)]
pub enum Phase {
    /// Nothing has happened yet.
    Init,
    /// The root of the output tree is being made.
    CreatingRoot,
    /// The reference that holds the build configuration is being checked out.
    SwitchingToConfig,
    /// The files of the build configuration are being read.
    ReadingConfig,
    /// The configuration is resolved; the references are being listed.
    ConfigResolved,
    /// The references are enumerated; the directory of the next one is being
    /// made.
    Enumerated,
    /// The next reference is being checked out.
    Checkout,
    /// The documentation of the reference is being generated.
    Building,
    /// All references are built and classified; the primary reference is
    /// being checked out again.
    Restoring,
    /// The working tree is restored; the index page is being written.
    Restored,
    /// The index page is rendered and written; the static files are being
    /// placed.
    IndexRendered,
    /// The static files are placed; the JSON snapshot is being written.
    AssetsPlaced,
    /// The generated pages are being post-processed.
    PostProcessing,
    /// The run has failed; the primary reference is being checked out again
    /// before the run ends.
    Recovering,
    /// The run has succeeded.
    Done,
    /// The run has failed.
    Failed,
}

} // verus!

use refdocs::error::ErrorKind;
use refdocs::git::CommandResult;
use refdocs::orchestrator::Orchestrator;
use refdocs::state::{Action, Event, Phase, Settings};

fn settings(patterns: &[&str]) -> Settings {
    Settings {
        repo: "/work/project".to_string(),
        patterns: patterns.iter().map(|p| p.to_string()).collect(),
        config_ref: None,
        doxyfile: "/work/project/Doxyfile".to_string(),
        reverse: false,
    }
}

fn ok(stdout: &str) -> Event {
    Event::Ran(CommandResult::Exited {
        success: true,
        stdout: stdout.as_bytes().to_vec(),
        stderr: Vec::new(),
    })
}

fn bad(stderr: &str) -> Event {
    Event::Ran(CommandResult::Exited {
        success: false,
        stdout: Vec::new(),
        stderr: stderr.as_bytes().to_vec(),
    })
}

fn doxyfile(content: &str) -> Event {
    Event::Read { path: "/work/project/Doxyfile".to_string(), content: content.to_string() }
}

fn git(action: &Action) -> Vec<String> {
    match action {
        Action::Run(c) if c.program == "git" => {
            assert_eq!(c.dir, "/work/project");
            assert_eq!(c.input, None);
            c.args.clone()
        },
        other => panic!("expected a git command, got {:?}", other),
    }
}

fn generator_input(action: &Action) -> String {
    match action {
        Action::Run(c) if c.program == "doxygen" => {
            assert_eq!(c.dir, "/work/project");
            assert_eq!(c.args, vec!["-"]);
            c.input.clone().unwrap()
        },
        other => panic!("expected the generator, got {:?}", other),
    }
}

fn new_dir(action: &Action) -> (String, String) {
    match action {
        Action::CreateDir { git_ref, slug } => (git_ref.clone(), slug.clone()),
        other => panic!("expected a directory, got {:?}", other),
    }
}

fn written(action: &Action) -> (String, String) {
    match action {
        Action::WriteFile { name, content } => (name.clone(), content.clone()),
        other => panic!("expected a file, got {:?}", other),
    }
}

fn aborted(action: &Action) -> (ErrorKind, String) {
    match action {
        Action::Abort(e) => (e.kind, e.detail.clone()),
        other => panic!("expected the end of the run, got {:?}", other),
    }
}

/// Brings a run to the point where the references are listed.
fn listing(run: &mut Orchestrator, config: &str) {
    assert!(matches!(run.step(Event::Start), Action::CreateRoot));
    assert_eq!(git(&run.step(Event::Done)), vec!["checkout", "master"]);
    match run.step(ok("")) {
        Action::ReadFile(request) => {
            assert_eq!(request.base, "");
            assert_eq!(request.target, "/work/project/Doxyfile");
        },
        other => panic!("expected a file request, got {:?}", other),
    }
    assert_eq!(git(&run.step(doxyfile(config))), vec!["for-each-ref", "--format", "%(refname)"]);
    assert_eq!(run.phase(), Phase::ConfigResolved);
}

/// Builds the reference that the run has just asked a directory for.
fn build(run: &mut Orchestrator, dir: &Action, git_ref: &str, slug: &str, config: &str) -> Action {
    assert_eq!(new_dir(dir), (git_ref.to_string(), slug.to_string()));
    let path = format!("/out/{}", slug);
    assert_eq!(git(&run.step(Event::Created { path: path.clone() })), vec!["checkout", git_ref]);
    let input = generator_input(&run.step(ok("")));
    assert_eq!(input, format!("{}\nOUTPUT_DIRECTORY = {}", config, path));
    run.step(ok("generated"))
}

#[test]
fn run_begins_with_the_root() {
    let mut run = Orchestrator::new(settings(&["."]));
    assert_eq!(run.phase(), Phase::Init);
    assert!(matches!(run.step(Event::Start), Action::CreateRoot));
    assert_eq!(run.phase(), Phase::CreatingRoot);
}

#[test]
fn existing_root_ends_the_run_before_any_command() {
    let mut run = Orchestrator::new(settings(&["."]));
    assert!(matches!(run.step(Event::Start), Action::CreateRoot));
    let a = run.step(Event::Failed { detail: "output directory already exists".to_string() });
    assert_eq!(aborted(&a), (ErrorKind::Filesystem, "output directory already exists".to_string()));
    assert_eq!(run.phase(), Phase::Failed);
    for event in [Event::Done, ok(""), Event::Start, Event::Created { path: "x".to_string() }] {
        let again = run.step(event);
        assert_eq!(
            aborted(&again),
            (ErrorKind::Filesystem, "output directory already exists".to_string())
        );
        assert_eq!(run.phase(), Phase::Failed);
    }
}

#[test]
fn tags_of_a_repository_are_built_and_indexed() {
    let mut run = Orchestrator::new(settings(&["^refs/tags/"]));
    listing(&mut run, "PROJECT = x\n");
    let a = run.step(ok("refs/heads/master\nrefs/tags/v1.0.0\nrefs/tags/v1.2.0\nrefs/tags/v2.0.0\n"));
    assert_eq!(run.phase(), Phase::Enumerated);
    let a = build(&mut run, &a, "refs/tags/v1.0.0", "v1.0.0", "PROJECT = x\n");
    let a = build(&mut run, &a, "refs/tags/v1.2.0", "v1.2.0", "PROJECT = x\n");
    let a = build(&mut run, &a, "refs/tags/v2.0.0", "v2.0.0", "PROJECT = x\n");
    assert_eq!(git(&a), vec!["checkout", "master"]);
    assert_eq!(run.phase(), Phase::Restoring);

    let index = run.index();
    assert_eq!(index.tags.len(), 2);
    assert_eq!(index.tags[0].major, "v1");
    assert_eq!(index.tags[0].subversions.len(), 2);
    assert_eq!(index.tags[0].subversions[0].short_ref, "v1.0.0");
    assert_eq!(index.tags[0].subversions[0].git_ref, "refs/tags/v1.0.0");
    assert_eq!(index.tags[0].subversions[0].dir, "v1.0.0");
    assert_eq!(index.tags[0].subversions[1].short_ref, "v1.2.0");
    assert_eq!(index.tags[1].major, "v2");
    assert_eq!(index.tags[1].subversions.len(), 1);
    assert_eq!(index.tags[1].subversions[0].short_ref, "v2.0.0");
    assert!(index.branches.is_empty());
    assert!(index.misc_refs.is_empty());

    let (name, page) = written(&run.step(ok("")));
    assert_eq!(name, "index.html");
    assert!(page.contains("<a href=\"v1.2.0/\" title=\"refs/tags/v1.2.0\">v1.2.0</a>"));
    assert_eq!(run.phase(), Phase::Restored);
    assert!(matches!(run.step(Event::Done), Action::PlaceAssets));
    assert_eq!(run.phase(), Phase::IndexRendered);
    let (name, json) = written(&run.step(Event::Done));
    assert_eq!(name, "versions.json");
    assert!(json.starts_with("{\"tags\":[{\"major\":\"v1\",\"subversions\":[{\"short_ref\":\"v1.0.0\""));
    assert!(json.ends_with("\"branches\":[],\"misc_refs\":[]}"));
    assert_eq!(run.phase(), Phase::AssetsPlaced);
    assert!(matches!(run.step(Event::Done), Action::PostProcess));
    assert_eq!(run.phase(), Phase::PostProcessing);
    assert!(matches!(run.step(Event::Done), Action::Finish));
    assert_eq!(run.phase(), Phase::Done);
    assert!(matches!(run.step(Event::Done), Action::Finish));
}

#[test]
fn failed_build_ends_the_run_without_an_index() {
    let mut run = Orchestrator::new(settings(&["^refs/tags/"]));
    listing(&mut run, "");
    let a = run.step(ok("refs/tags/v1.0.0\nrefs/tags/v1.2.0\nrefs/tags/v2.0.0\n"));
    let a = build(&mut run, &a, "refs/tags/v1.0.0", "v1.0.0", "");
    assert_eq!(new_dir(&a), ("refs/tags/v1.2.0".to_string(), "v1.2.0".to_string()));
    assert_eq!(
        git(&run.step(Event::Created { path: "/out/v1.2.0".to_string() })),
        vec!["checkout", "refs/tags/v1.2.0"]
    );
    generator_input(&run.step(ok("")));
    assert_eq!(run.phase(), Phase::Building);
    let a = run.step(bad("error: cannot parse\n"));
    assert_eq!(git(&a), vec!["checkout", "master"]);
    assert_eq!(run.phase(), Phase::Recovering);
    let a = run.step(ok(""));
    assert_eq!(aborted(&a), (ErrorKind::Build, "doxygen failed: error: cannot parse\n".to_string()));
    assert_eq!(run.phase(), Phase::Failed);
    assert_eq!(run.index().tags.len(), 1);
    assert_eq!(run.index().tags[0].subversions.len(), 1);
    assert_eq!(run.index().tags[0].subversions[0].short_ref, "v1.0.0");
    for _ in 0..3 {
        assert_eq!(aborted(&run.step(Event::Done)).0, ErrorKind::Build);
    }
}

#[test]
fn failed_restoration_after_a_failure_is_passed_over() {
    let mut run = Orchestrator::new(settings(&["."]));
    listing(&mut run, "");
    let a = run.step(ok("refs/heads/x\n"));
    assert_eq!(new_dir(&a).1, "x");
    let a = run.step(Event::Failed { detail: "failed to create dir for ref".to_string() });
    assert_eq!(git(&a), vec!["checkout", "master"]);
    let a = run.step(bad("error: cannot restore"));
    assert_eq!(aborted(&a), (ErrorKind::Filesystem, "failed to create dir for ref".to_string()));
}

#[test]
fn generator_that_does_not_start_fails_the_run() {
    let mut run = Orchestrator::new(settings(&["."]));
    listing(&mut run, "");
    let a = run.step(ok("refs/heads/x\n"));
    assert_eq!(new_dir(&a).1, "x");
    run.step(Event::Created { path: "/out/x".to_string() });
    generator_input(&run.step(ok("")));
    let a = run.step(Event::Ran(CommandResult::NotLaunched));
    assert_eq!(git(&a), vec!["checkout", "master"]);
    assert_eq!(aborted(&run.step(ok(""))), (ErrorKind::Build, "failed to run doxygen".to_string()));
}

#[test]
fn unreadable_diagnostic_of_the_generator() {
    let mut run = Orchestrator::new(settings(&["."]));
    listing(&mut run, "");
    run.step(ok("refs/heads/x\n"));
    run.step(Event::Created { path: "/out/x".to_string() });
    run.step(ok(""));
    run.step(Event::Ran(CommandResult::Exited {
        success: false,
        stdout: Vec::new(),
        stderr: vec![0xff],
    }));
    assert_eq!(
        aborted(&run.step(ok(""))),
        (ErrorKind::Build, "doxygen failed: <non utf-8>".to_string())
    );
}

#[test]
fn references_that_no_pattern_matches_are_skipped() {
    let mut run = Orchestrator::new(settings(&["^refs/heads/master$"]));
    listing(&mut run, "");
    let a = run.step(ok("refs/heads/develop\nrefs/heads/master\nrefs/tags/v1.0.0\n"));
    let a = build(&mut run, &a, "refs/heads/master", "master", "");
    assert_eq!(git(&a), vec!["checkout", "master"]);
    assert!(run.index().tags.is_empty());
    assert_eq!(run.index().branches.len(), 1);
    assert_eq!(run.index().branches[0].git_ref, "refs/heads/master");
    assert!(run.index().misc_refs.is_empty());
}

#[test]
fn no_matching_reference_gives_an_empty_index() {
    let mut run = Orchestrator::new(settings(&["^nothing$"]));
    listing(&mut run, "");
    let a = run.step(ok("refs/heads/master\n"));
    assert_eq!(git(&a), vec!["checkout", "master"]);
    let (name, _) = written(&run.step(ok("")));
    assert_eq!(name, "index.html");
    run.step(Event::Done);
    let (_, json) = written(&run.step(Event::Done));
    assert_eq!(json, "{\"tags\":[],\"branches\":[],\"misc_refs\":[]}");
}

#[test]
fn references_are_built_in_reverse_on_request() {
    let mut s = settings(&["^refs/tags/"]);
    s.reverse = true;
    let mut run = Orchestrator::new(s);
    listing(&mut run, "");
    let a = run.step(ok("refs/tags/v1.0.0\nrefs/heads/master\nrefs/tags/v1.2.0\nrefs/tags/v2.0.0\n"));
    let a = build(&mut run, &a, "refs/tags/v2.0.0", "v2.0.0", "");
    let a = build(&mut run, &a, "refs/tags/v1.2.0", "v1.2.0", "");
    let a = build(&mut run, &a, "refs/tags/v1.0.0", "v1.0.0", "");
    assert_eq!(git(&a), vec!["checkout", "master"]);
    assert_eq!(run.index().tags[0].major, "v2");
    assert_eq!(run.index().tags[1].major, "v1");
    assert_eq!(run.index().tags[1].subversions[0].short_ref, "v1.2.0");
    assert_eq!(run.index().tags[1].subversions[1].short_ref, "v1.0.0");
}

#[test]
fn configuration_is_read_from_the_reference_asked_for() {
    let mut s = settings(&["."]);
    s.config_ref = Some("develop".to_string());
    let mut run = Orchestrator::new(s);
    run.step(Event::Start);
    assert_eq!(git(&run.step(Event::Done)), vec!["checkout", "develop"]);
    assert_eq!(run.phase(), Phase::SwitchingToConfig);
}

#[test]
fn failed_first_checkout_fails_the_run() {
    let mut run = Orchestrator::new(settings(&["."]));
    run.step(Event::Start);
    run.step(Event::Done);
    let a = run.step(bad("error: pathspec 'master' did not match\n"));
    assert_eq!(git(&a), vec!["checkout", "master"]);
    assert_eq!(
        aborted(&run.step(ok(""))),
        (
            ErrorKind::Vcs,
            "failed to checkout reference: error: pathspec 'master' did not match\n".to_string()
        )
    );
}

#[test]
fn named_files_are_asked_for_one_by_one() {
    let mut run = Orchestrator::new(settings(&["."]));
    run.step(Event::Start);
    run.step(Event::Done);
    run.step(ok(""));
    assert_eq!(run.phase(), Phase::ReadingConfig);
    match run.step(doxyfile("A\n@INCLUDE = extra.cfg\nB\n")) {
        Action::ReadFile(request) => {
            assert_eq!(request.base, "/work/project/Doxyfile");
            assert_eq!(request.target, "extra.cfg");
        },
        other => panic!("expected a file request, got {:?}", other),
    }
    assert_eq!(run.phase(), Phase::ReadingConfig);
    let extra =
        Event::Read { path: "/work/project/extra.cfg".to_string(), content: "E".to_string() };
    assert_eq!(git(&run.step(extra)), vec!["for-each-ref", "--format", "%(refname)"]);
    let a = run.step(ok("refs/heads/x\n"));
    assert_eq!(new_dir(&a).1, "x");
    run.step(Event::Created { path: "/out/x".to_string() });
    assert_eq!(generator_input(&run.step(ok(""))), "A\nE\n\nB\n\nOUTPUT_DIRECTORY = /out/x");
}

#[test]
fn faulty_configuration_fails_the_run() {
    let mut run = Orchestrator::new(settings(&["."]));
    run.step(Event::Start);
    run.step(Event::Done);
    run.step(ok(""));
    let a = run.step(doxyfile("@INCLUDE extra.cfg\n"));
    assert_eq!(git(&a), vec!["checkout", "master"]);
    assert_eq!(
        aborted(&run.step(ok(""))),
        (ErrorKind::Configuration, "Doxyfile is missing `=`".to_string())
    );
}

#[test]
fn missing_configuration_fails_the_run() {
    let mut run = Orchestrator::new(settings(&["."]));
    run.step(Event::Start);
    run.step(Event::Done);
    run.step(ok(""));
    let a = run.step(Event::Missing);
    assert_eq!(git(&a), vec!["checkout", "master"]);
    assert_eq!(
        aborted(&run.step(ok(""))),
        (ErrorKind::Configuration, "failed to read file: /work/project/Doxyfile".to_string())
    );
}

#[test]
fn missing_named_file_fails_the_run() {
    let mut run = Orchestrator::new(settings(&["."]));
    run.step(Event::Start);
    run.step(Event::Done);
    run.step(ok(""));
    run.step(doxyfile("@INCLUDE = gone.cfg\n"));
    let a = run.step(Event::Missing);
    assert_eq!(git(&a), vec!["checkout", "master"]);
    assert_eq!(
        aborted(&run.step(ok(""))),
        (ErrorKind::Configuration, "failed to read file: gone.cfg".to_string())
    );
}

#[test]
fn file_that_names_itself_fails_the_run() {
    let mut run = Orchestrator::new(settings(&["."]));
    run.step(Event::Start);
    run.step(Event::Done);
    run.step(ok(""));
    run.step(doxyfile("@INCLUDE = Doxyfile\n"));
    let a = run.step(doxyfile("@INCLUDE = Doxyfile\n"));
    assert_eq!(git(&a), vec!["checkout", "master"]);
    assert_eq!(
        aborted(&run.step(ok(""))),
        (ErrorKind::Configuration, "include cycle: /work/project/Doxyfile".to_string())
    );
}

#[test]
fn unreadable_configuration_fails_the_run() {
    let mut run = Orchestrator::new(settings(&["."]));
    run.step(Event::Start);
    run.step(Event::Done);
    run.step(ok(""));
    let a = run.step(Event::Failed { detail: "failed to read file".to_string() });
    assert_eq!(git(&a), vec!["checkout", "master"]);
    assert_eq!(
        aborted(&run.step(ok(""))),
        (ErrorKind::Configuration, "failed to read file".to_string())
    );
}

#[test]
fn invalid_pattern_fails_the_run_before_the_listing() {
    let mut run = Orchestrator::new(settings(&["^refs/tags/", "("]));
    run.step(Event::Start);
    run.step(Event::Done);
    run.step(ok(""));
    let a = run.step(doxyfile(""));
    assert_eq!(git(&a), vec!["checkout", "master"]);
    assert_eq!(
        aborted(&run.step(ok(""))),
        (ErrorKind::Pattern, "failed to parse regular expression".to_string())
    );
}

#[test]
fn failed_listing_fails_the_run() {
    let mut run = Orchestrator::new(settings(&["."]));
    listing(&mut run, "");
    let a = run.step(bad("fatal: bad\n"));
    assert_eq!(git(&a), vec!["checkout", "master"]);
    assert_eq!(aborted(&run.step(ok(""))), (ErrorKind::Vcs, "git branch failed: fatal: bad\n".to_string()));
}

#[test]
fn two_references_with_one_slug_fail_the_run() {
    let mut run = Orchestrator::new(settings(&["."]));
    listing(&mut run, "");
    let a = run.step(ok("refs/heads/a/b\nrefs/heads/a-b\n"));
    let a = build(&mut run, &a, "refs/heads/a/b", "a-b", "");
    assert_eq!(git(&a), vec!["checkout", "master"]);
    assert_eq!(run.phase(), Phase::Recovering);
    assert_eq!(
        aborted(&run.step(ok(""))),
        (ErrorKind::Filesystem, "output directory already exists: a-b".to_string())
    );
    assert_eq!(run.index().branches.len(), 1);
}

#[test]
fn branch_and_tag_of_one_name_fail_the_run() {
    let mut run = Orchestrator::new(settings(&["."]));
    listing(&mut run, "");
    let a = run.step(ok("refs/heads/x\nrefs/tags/x\n"));
    let a = build(&mut run, &a, "refs/heads/x", "x", "");
    assert_eq!(git(&a), vec!["checkout", "master"]);
    assert_eq!(aborted(&run.step(ok(""))).0, ErrorKind::Filesystem);
}

#[test]
fn failed_checkout_of_a_reference_fails_the_run() {
    let mut run = Orchestrator::new(settings(&["."]));
    listing(&mut run, "");
    run.step(ok("refs/heads/x\n"));
    run.step(Event::Created { path: "/out/x".to_string() });
    assert_eq!(run.phase(), Phase::Checkout);
    let a = run.step(Event::Ran(CommandResult::NotLaunched));
    assert_eq!(git(&a), vec!["checkout", "master"]);
    assert_eq!(
        aborted(&run.step(ok(""))),
        (ErrorKind::Vcs, "failed to checkout reference".to_string())
    );
    assert!(run.index().branches.is_empty());
}

#[test]
fn failed_final_checkout_fails_the_run_at_once() {
    let mut run = Orchestrator::new(settings(&["^nothing$"]));
    listing(&mut run, "");
    assert_eq!(git(&run.step(ok(""))), vec!["checkout", "master"]);
    assert_eq!(run.phase(), Phase::Restoring);
    let a = run.step(bad("no"));
    assert_eq!(aborted(&a), (ErrorKind::Vcs, "failed to checkout reference: no".to_string()));
    assert_eq!(run.phase(), Phase::Failed);
}

#[test]
fn failed_writes_fail_the_run() {
    for writes in 0..4 {
        let mut run = Orchestrator::new(settings(&["^nothing$"]));
        listing(&mut run, "");
        run.step(ok(""));
        run.step(ok(""));
        for _ in 0..writes {
            run.step(Event::Done);
        }
        let a = run.step(Event::Failed { detail: "disk full".to_string() });
        assert_eq!(aborted(&a), (ErrorKind::Filesystem, "disk full".to_string()));
        assert_eq!(run.phase(), Phase::Failed);
    }
}

#[test]
fn stray_event_before_the_start_ends_the_run() {
    let mut run = Orchestrator::new(settings(&["."]));
    let a = run.step(Event::Done);
    assert_eq!(aborted(&a), (ErrorKind::Protocol, "unexpected event".to_string()));
    assert_eq!(run.phase(), Phase::Failed);
}

#[test]
fn stray_event_during_the_builds_ends_the_run() {
    let mut run = Orchestrator::new(settings(&["."]));
    listing(&mut run, "");
    let a = run.step(Event::Done);
    assert_eq!(git(&a), vec!["checkout", "master"]);
    assert_eq!(aborted(&run.step(ok(""))), (ErrorKind::Protocol, "unexpected event".to_string()));
}

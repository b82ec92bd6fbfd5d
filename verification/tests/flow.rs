use rbld::flow::{Effect, Event, Revision, UpdateRun};

fn step(run: UpdateRun, event: Event) -> (UpdateRun, Vec<Effect>) {
    run.next(event)
}

fn started() -> UpdateRun {
    let (run, effects) = step(UpdateRun::new(), Event::Started);
    assert!(matches!(effects.as_slice(), [Effect::CheckTerminal]));
    let (run, effects) = step(run, Event::Terminal(true));
    assert!(matches!(effects.as_slice(), [Effect::InspectRepository]));
    run
}

fn updated() -> UpdateRun {
    let (run, effects) = step(started(), Event::Inspected { workdir: "/repo".to_owned(), changed: vec![] });
    match effects.as_slice() {
        [Effect::Step(m), Effect::RunUpdate { workdir }] => {
            assert_eq!(m, "updating flake inputs");
            assert_eq!(workdir, "/repo");
        }
        _ => panic!("expected the update to run"),
    }
    run
}

fn committing() -> UpdateRun {
    let output = "\u{2022} Updated input 'a':\n  x\n".to_owned();
    let (run, effects) = step(updated(), Event::UpdateExited { success: true, output });
    assert!(matches!(effects.as_slice(), [Effect::CheckLock { path }] if path == "flake.lock"));
    let (run, effects) = step(run, Event::LockChecked { modified: true });
    assert!(matches!(effects.as_slice(), [Effect::Identify]));
    let (run, effects) = step(run, Event::Identified { system: "alpha".to_owned() });
    match effects.as_slice() {
        [Effect::Step(m), Effect::Commit { workdir, message, path }] => {
            assert_eq!(m, "committing the lock file");
            assert_eq!(workdir, "/repo");
            assert_eq!(message, "build(flake.lock): update\n\n\u{2022} Updated input 'a':\n  x");
            assert_eq!(path, "flake.lock");
        }
        _ => panic!("expected a commit"),
    }
    run
}

fn rebuilding() -> UpdateRun {
    let (run, effects) = step(committing(), Event::Committed { success: true });
    match effects.as_slice() {
        [Effect::Step(m), Effect::Rebuild { workdir }] => {
            assert_eq!(m, "rebuilding the system");
            assert_eq!(workdir, "/repo");
        }
        _ => panic!("expected a rebuild"),
    }
    run
}

fn assert_taken_back(effects: &[Effect], revision: Revision, headline: &str, note: &str) {
    match effects {
        [Effect::Undo { to, path }, Effect::Stop { headline: h, note: n }, Effect::Exit(false)] => {
            assert_eq!(*to, revision);
            assert_eq!(path, "flake.lock");
            assert_eq!(h, headline);
            assert_eq!(n, note);
        }
        _ => panic!("expected the update to be taken back"),
    }
}

#[test]
fn an_update_runs_to_a_recorded_rebuild() {
    let output = "<<< /run/current-system\r\r\n>>> /nix/store/x\r\r\nDIFF: 1 KiB\r\r\n".to_owned();
    let (run, effects) = step(rebuilding(), Event::Rebuilt { success: true, output });
    match effects.as_slice() {
        [Effect::Record { notes_ref, system, summary }] => {
            assert_eq!(notes_ref, "refs/notes/rebuild/alpha");
            assert_eq!(system, "alpha");
            assert_eq!(summary, &vec!["<<< /run/current-system".to_owned(), ">>> /nix/store/x".to_owned(), "DIFF: 1 KiB".to_owned()]);
        }
        _ => panic!("expected a note"),
    }
    let (run, effects) = step(run, Event::Recorded);
    match effects.as_slice() {
        [Effect::Done(m), Effect::Exit(true)] => assert_eq!(m, "rebuilt and recorded on alpha"),
        _ => panic!("expected the run to end well"),
    }
    assert!(matches!(run, UpdateRun::Finished));
}

#[test]
fn a_failed_update_puts_the_lock_file_back() {
    let (_, effects) = step(updated(), Event::UpdateExited { success: false, output: "error".to_owned() });
    assert_taken_back(&effects, Revision::Head, "the flake inputs were not updated", "the lock file is back as it was found");
}

#[test]
fn a_failed_commit_goes_back_to_the_head_it_started_from() {
    let (_, effects) = step(committing(), Event::Committed { success: false });
    assert_taken_back(
        &effects,
        Revision::HeadBeforeCommit,
        "could not commit the lock file",
        "the flake inputs are back as they were found",
    );
}

#[test]
fn a_failed_rebuild_undoes_the_commit() {
    let (_, effects) = step(rebuilding(), Event::Rebuilt { success: false, output: String::new() });
    assert_taken_back(
        &effects,
        Revision::ParentOfCommit,
        "the system was not rebuilt",
        "the commit is undone and the flake inputs are back as they were found",
    );
}

#[test]
fn a_rebuild_that_could_not_run_undoes_the_commit() {
    let (run, effects) = step(rebuilding(), Event::RebuildNotRun { reason: "nh: not found".to_owned() });
    assert_taken_back(
        &effects,
        Revision::ParentOfCommit,
        "the system could not be rebuilt: nh: not found",
        "the commit is undone and the flake inputs are back as they were found",
    );
    assert!(matches!(run, UpdateRun::Finished));
}

#[test]
fn current_inputs_end_the_run_well() {
    let (run, effects) = step(updated(), Event::UpdateExited { success: true, output: String::new() });
    assert!(matches!(effects.as_slice(), [Effect::CheckLock { .. }]));
    let (run, effects) = step(run, Event::LockChecked { modified: false });
    match effects.as_slice() {
        [Effect::Done(m), Effect::Exit(true)] => assert_eq!(m, "flake inputs are already current"),
        _ => panic!("expected the run to end well"),
    }
    assert!(matches!(run, UpdateRun::Finished));
}

#[test]
fn a_dirty_tree_is_refused() {
    let (_, effects) = step(
        started(),
        Event::Inspected { workdir: "/repo".to_owned(), changed: vec!["a/b.nix".to_owned(), "c".to_owned()] },
    );
    match effects.as_slice() {
        [Effect::Refuse { headline, listing }, Effect::Exit(false)] => {
            assert_eq!(headline, "\x1b[1mcannot update on a dirty working directory\x1b[0m");
            assert_eq!(
                listing.to_string(),
                "\x1b[1m/repo\x1b[0m\n\x1b[2m\u{251c}\x1b[0m\x1b[2m\u{2500}\u{2500} \x1b[0m\x1b[1m\x1b[48;5;52ma/\x1b[0m\x1b[48;5;52mb.nix\x1b[0m\n\x1b[2m\u{2514}\x1b[0m\x1b[2m\u{2500}\u{2500} \x1b[0m\x1b[48;5;52mc\x1b[0m\n"
            );
        }
        _ => panic!("expected a refusal"),
    }
}

#[test]
fn no_terminal_no_run() {
    let (run, _) = step(UpdateRun::new(), Event::Started);
    let (run, effects) = step(run, Event::Terminal(false));
    assert!(matches!(effects.as_slice(), [Effect::Exit(false)]));
    assert!(matches!(run, UpdateRun::Finished));
}

#[test]
fn an_unexpected_answer_ends_the_run() {
    let (run, effects) = step(UpdateRun::new(), Event::Recorded);
    assert!(matches!(effects.as_slice(), [Effect::Exit(false)]));
    let (_, effects) = step(run, Event::Started);
    assert!(matches!(effects.as_slice(), [Effect::Exit(false)]));
}

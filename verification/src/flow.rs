//! The order an update runs in: check that there is a terminal and a clean
//! tree, update the flake inputs, commit the lock file, rebuild the system,
//! and record the rebuild; and what is taken back when nix, git or nh reports
//! that its part failed.
//!
//! The decisions are made here; the programs are run, and the repository read
//! and written, by whoever drives the run, who hands back what came of each.

use vstd::prelude::*;
use termtree::Tree;

use crate::listing::{glyphs_of, leaves_of, outline, palettes, plain_below, with_leaves};
use crate::render::{dimmed_glyphs, disallowed, dir, file_path, headline, paint, painted, root_label, rooted, styled_path};
use crate::update::{
    commit_message, commit_text, flake_lock, notes_ref, notes_ref_of, rebuild_summary_of,
    summarise, summarise_rebuild, summary_of,
};
use crate::render::without_escapes;

verus! {

/// Which commit head is put back to when an update is taken back.
#[derive(Clone, Copy, Debug, PartialEq, Eq)]
pub enum Revision {
    /// Where head stands: nothing was committed.
    Head,
    /// Where head stood before the commit was attempted, so that a commit git
    /// managed to make before failing goes too.
    HeadBeforeCommit,
    /// The parent of the commit made for the update.
    ParentOfCommit,
}

/// Where an update stands, and what it carries forward.
pub enum UpdateRun {
    Begin,
    AwaitTerminal,
    AwaitInspection,
    AwaitUpdate { workdir: String },
    AwaitLock { workdir: String, summary: Vec<String> },
    AwaitIdentity { workdir: String, message: String },
    AwaitCommit { workdir: String, system: String },
    AwaitRebuild { system: String },
    AwaitRecord { system: String },
    Finished,
}

/// What came of the last thing the run asked for.
pub enum Event {
    /// The run is starting.
    Started,
    /// Whether there is a terminal to run in front of.
    Terminal(bool),
    /// Where the repository keeps its files, and every path it has a change against.
    Inspected { workdir: String, changed: Vec<String> },
    /// How `nix flake update` exited, and what it wrote.
    UpdateExited { success: bool, output: String },
    /// Whether the lock file differs from what is committed.
    LockChecked { modified: bool },
    /// The name of the host the update runs on.
    Identified { system: String },
    /// Whether git took the commit.
    Committed { success: bool },
    /// How `nh os switch` exited, and what it wrote.
    Rebuilt { success: bool, output: String },
    /// `nh os switch` could not be started, followed or waited on, for `reason`.
    RebuildNotRun { reason: String },
    /// The note was written.
    Recorded,
}

/// What the run asks for next.
pub enum Effect {
    /// See whether there is a terminal, answering `Terminal`.
    CheckTerminal,
    /// Open the repository and read what it has changed, answering `Inspected`.
    InspectRepository,
    /// Say no, and show the listing under the headline.
    Refuse { headline: String, listing: Tree<String> },
    /// Name, on a line of its own, the program about to be given the terminal.
    Step(String),
    /// Run `nix flake update` on the work tree, answering `UpdateExited`.
    RunUpdate { workdir: String },
    /// Put head back to `to`, and `path` back to what that commit has of it.
    Undo { to: Revision, path: String },
    /// Close the run, saying what stopped it and what became of the work.
    Stop { headline: String, note: String },
    /// See whether `path` differs from what is committed, answering `LockChecked`.
    CheckLock { path: String },
    /// Make sure git can sign for the note and learn the host's name, answering `Identified`.
    Identify,
    /// Note where head stands, then commit `path` with `message`, answering `Committed`.
    Commit { workdir: String, message: String, path: String },
    /// Run `nh os switch` on the work tree, answering `Rebuilt`.
    Rebuild { workdir: String },
    /// Write the note for the rebuild of `system` under `notes_ref`, answering `Recorded`.
    Record { notes_ref: String, system: String, summary: Vec<String> },
    /// Close the run, saying what it got done.
    Done(String),
    /// End the command, successfully or not.
    Exit(bool),
}

pub enum RunView {
    Begin,
    AwaitTerminal,
    AwaitInspection,
    AwaitUpdate { workdir: Seq<char> },
    AwaitLock { workdir: Seq<char>, summary: Seq<Seq<char>> },
    AwaitIdentity { workdir: Seq<char>, message: Seq<char> },
    AwaitCommit { workdir: Seq<char>, system: Seq<char> },
    AwaitRebuild { system: Seq<char> },
    AwaitRecord { system: Seq<char> },
    Finished,
}

pub enum EventView {
    Started,
    Terminal(bool),
    Inspected { workdir: Seq<char>, changed: Seq<Seq<char>> },
    UpdateExited { success: bool, output: Seq<char> },
    LockChecked { modified: bool },
    Identified { system: Seq<char> },
    Committed { success: bool },
    Rebuilt { success: bool, output: Seq<char> },
    RebuildNotRun { reason: Seq<char> },
    Recorded,
}

pub enum EffectView {
    CheckTerminal,
    InspectRepository,
    Refuse {
        headline: Seq<char>,
        listing: Seq<(nat, Seq<char>)>,
        glyphs: Option<Seq<Seq<char>>>,
        plain_below: bool,
    },
    Step(Seq<char>),
    RunUpdate { workdir: Seq<char> },
    Undo { to: Revision, path: Seq<char> },
    Stop { headline: Seq<char>, note: Seq<char> },
    CheckLock { path: Seq<char> },
    Identify,
    Commit { workdir: Seq<char>, message: Seq<char>, path: Seq<char> },
    Rebuild { workdir: Seq<char> },
    Record { notes_ref: Seq<char>, system: Seq<char>, summary: Seq<Seq<char>> },
    Done(Seq<char>),
    Exit(bool),
}

impl View for UpdateRun {
    type V = RunView;

    open spec fn view(&self) -> RunView {
        match self {
            UpdateRun::Begin => RunView::Begin,
            UpdateRun::AwaitTerminal => RunView::AwaitTerminal,
            UpdateRun::AwaitInspection => RunView::AwaitInspection,
            UpdateRun::AwaitUpdate { workdir } => RunView::AwaitUpdate { workdir: workdir@ },
            UpdateRun::AwaitLock { workdir, summary } => RunView::AwaitLock {
                workdir: workdir@,
                summary: summary.deep_view(),
            },
            UpdateRun::AwaitIdentity { workdir, message } => RunView::AwaitIdentity {
                workdir: workdir@,
                message: message@,
            },
            UpdateRun::AwaitCommit { workdir, system } => RunView::AwaitCommit {
                workdir: workdir@,
                system: system@,
            },
            UpdateRun::AwaitRebuild { system } => RunView::AwaitRebuild { system: system@ },
            UpdateRun::AwaitRecord { system } => RunView::AwaitRecord { system: system@ },
            UpdateRun::Finished => RunView::Finished,
        }
    }
}

impl View for Event {
    type V = EventView;

    open spec fn view(&self) -> EventView {
        match self {
            Event::Started => EventView::Started,
            Event::Terminal(b) => EventView::Terminal(*b),
            Event::Inspected { workdir, changed } => EventView::Inspected {
                workdir: workdir@,
                changed: changed.deep_view(),
            },
            Event::UpdateExited { success, output } => EventView::UpdateExited {
                success: *success,
                output: output@,
            },
            Event::LockChecked { modified } => EventView::LockChecked { modified: *modified },
            Event::Identified { system } => EventView::Identified { system: system@ },
            Event::Committed { success } => EventView::Committed { success: *success },
            Event::Rebuilt { success, output } => EventView::Rebuilt { success: *success, output: output@ },
            Event::RebuildNotRun { reason } => EventView::RebuildNotRun { reason: reason@ },
            Event::Recorded => EventView::Recorded,
        }
    }
}

impl View for Effect {
    type V = EffectView;

    open spec fn view(&self) -> EffectView {
        match self {
            Effect::CheckTerminal => EffectView::CheckTerminal,
            Effect::InspectRepository => EffectView::InspectRepository,
            Effect::Refuse { headline, listing } => EffectView::Refuse {
                headline: headline@,
                listing: outline(*listing),
                glyphs: glyphs_of(*listing),
                plain_below: plain_below(*listing),
            },
            Effect::Step(m) => EffectView::Step(m@),
            Effect::RunUpdate { workdir } => EffectView::RunUpdate { workdir: workdir@ },
            Effect::Undo { to, path } => EffectView::Undo { to: *to, path: path@ },
            Effect::Stop { headline, note } => EffectView::Stop { headline: headline@, note: note@ },
            Effect::CheckLock { path } => EffectView::CheckLock { path: path@ },
            Effect::Identify => EffectView::Identify,
            Effect::Commit { workdir, message, path } => EffectView::Commit {
                workdir: workdir@,
                message: message@,
                path: path@,
            },
            Effect::Rebuild { workdir } => EffectView::Rebuild { workdir: workdir@ },
            Effect::Record { notes_ref, system, summary } => EffectView::Record {
                notes_ref: notes_ref@,
                system: system@,
                summary: summary.deep_view(),
            },
            Effect::Done(m) => EffectView::Done(m@),
            Effect::Exit(b) => EffectView::Exit(*b),
        }
    }
}

/// The effects, as plain values.
pub open spec fn effects_view(effects: Seq<Effect>) -> Seq<EffectView> {
    effects.map_values(|e: Effect| e@)
}

/// The listing a dirty work tree is refused with: the work tree, and under it
/// every changed path, marked as the reason.
pub open spec fn dirty_listing(workdir: Seq<char>, changed: Seq<Seq<char>>) -> Seq<(nat, Seq<char>)> {
    seq![(0nat, painted(dir(), root_label(workdir)))]
        + changed.map_values(|p: Seq<char>| (1nat, styled_path(disallowed(), p)))
}

/// The run ends without having done what it set out to.
pub open spec fn failed() -> Seq<EffectView> {
    seq![EffectView::Exit(false)]
}

/// What the run does on `event`: where it goes next, and what it asks for on
/// the way, in order. An event the run was not waiting for ends it in failure.
pub open spec fn transition(run: RunView, event: EventView) -> (RunView, Seq<EffectView>) {
    match (run, event) {
        (RunView::Begin, EventView::Started) => (RunView::AwaitTerminal, seq![EffectView::CheckTerminal]),
        (RunView::AwaitTerminal, EventView::Terminal(present)) => if present {
            (RunView::AwaitInspection, seq![EffectView::InspectRepository])
        } else {
            (RunView::Finished, failed())
        },
        (RunView::AwaitInspection, EventView::Inspected { workdir, changed }) => if changed.len() > 0 {
            (
                RunView::Finished,
                seq![
                    EffectView::Refuse {
                        headline: painted(headline(), "cannot update on a dirty working directory"@),
                        listing: dirty_listing(workdir, changed),
                        glyphs: Some(dimmed_glyphs()),
                        plain_below: true,
                    },
                    EffectView::Exit(false),
                ],
            )
        } else {
            (
                RunView::AwaitUpdate { workdir },
                seq![EffectView::Step("updating flake inputs"@), EffectView::RunUpdate { workdir }],
            )
        },
        (RunView::AwaitUpdate { workdir }, EventView::UpdateExited { success, output }) => if success {
            (
                RunView::AwaitLock { workdir, summary: summary_of(without_escapes(output)) },
                seq![EffectView::CheckLock { path: flake_lock() }],
            )
        } else {
            (
                RunView::Finished,
                seq![
                    EffectView::Undo { to: Revision::Head, path: flake_lock() },
                    EffectView::Stop {
                        headline: "the flake inputs were not updated"@,
                        note: "the lock file is back as it was found"@,
                    },
                    EffectView::Exit(false),
                ],
            )
        },
        (RunView::AwaitLock { workdir, summary }, EventView::LockChecked { modified }) => if modified {
            (RunView::AwaitIdentity { workdir, message: commit_text(summary) }, seq![EffectView::Identify])
        } else {
            (
                RunView::Finished,
                seq![EffectView::Done("flake inputs are already current"@), EffectView::Exit(true)],
            )
        },
        (RunView::AwaitIdentity { workdir, message }, EventView::Identified { system }) => (
            RunView::AwaitCommit { workdir, system },
            seq![
                EffectView::Step("committing the lock file"@),
                EffectView::Commit { workdir, message, path: flake_lock() },
            ],
        ),
        (RunView::AwaitCommit { workdir, system }, EventView::Committed { success }) => if success {
            (
                RunView::AwaitRebuild { system },
                seq![EffectView::Step("rebuilding the system"@), EffectView::Rebuild { workdir }],
            )
        } else {
            (
                RunView::Finished,
                seq![
                    EffectView::Undo { to: Revision::HeadBeforeCommit, path: flake_lock() },
                    EffectView::Stop {
                        headline: "could not commit the lock file"@,
                        note: "the flake inputs are back as they were found"@,
                    },
                    EffectView::Exit(false),
                ],
            )
        },
        (RunView::AwaitRebuild { system }, EventView::Rebuilt { success, output }) => if success {
            (
                RunView::AwaitRecord { system },
                seq![
                    EffectView::Record {
                        notes_ref: notes_ref_of(system),
                        system,
                        summary: rebuild_summary_of(without_escapes(output)),
                    },
                ],
            )
        } else {
            (
                RunView::Finished,
                seq![
                    EffectView::Undo { to: Revision::ParentOfCommit, path: flake_lock() },
                    EffectView::Stop {
                        headline: "the system was not rebuilt"@,
                        note: "the commit is undone and the flake inputs are back as they were found"@,
                    },
                    EffectView::Exit(false),
                ],
            )
        },
        (RunView::AwaitRebuild { .. }, EventView::RebuildNotRun { reason }) => (
            RunView::Finished,
            seq![
                EffectView::Undo { to: Revision::ParentOfCommit, path: flake_lock() },
                EffectView::Stop {
                    headline: "the system could not be rebuilt: "@ + reason,
                    note: "the commit is undone and the flake inputs are back as they were found"@,
                },
                EffectView::Exit(false),
            ],
        ),
        (RunView::AwaitRecord { system }, EventView::Recorded) => (
            RunView::Finished,
            seq![EffectView::Done("rebuilt and recorded on "@ + system), EffectView::Exit(true)],
        ),
        _ => (RunView::Finished, failed()),
    }
}

// ---------------------------------------------------------------------------
// What every run keeps to
// ---------------------------------------------------------------------------

/// Whenever nix, git or nh reports failure once the update has begun, or the
/// rebuild could not be run at all once the lock file was committed, the first
/// thing asked for is the lock file put back: to head where nothing was
/// committed, to the head from before the commit where the commit failed, and
/// to the commit's parent where the rebuild failed or could not be run; the
/// run then stops and fails.
pub proof fn lemma_failure_is_taken_back(run: RunView, event: EventView)
    requires
        match (run, event) {
            (RunView::AwaitUpdate { .. }, EventView::UpdateExited { success, .. }) => !success,
            (RunView::AwaitCommit { .. }, EventView::Committed { success }) => !success,
            (RunView::AwaitRebuild { .. }, EventView::Rebuilt { success, .. }) => !success,
            (RunView::AwaitRebuild { .. }, EventView::RebuildNotRun { .. }) => true,
            _ => false,
        },
    ensures
        ({
            let effects = transition(run, event).1;
            &&& effects.len() == 3
            &&& effects[0] matches EffectView::Undo { to, path } && path == flake_lock() && to == match run {
                RunView::AwaitUpdate { .. } => Revision::Head,
                RunView::AwaitCommit { .. } => Revision::HeadBeforeCommit,
                _ => Revision::ParentOfCommit,
            }
            &&& effects[1] is Stop
            &&& effects[2] == EffectView::Exit(false)
            &&& transition(run, event).0 == RunView::Finished
        }),
{
}

/// Nothing is committed but an update nix carried out and that changed the
/// lock file: a commit is asked for only once the host is known, the host is
/// asked for only once the lock file was found changed, and the lock file is
/// looked at only after nix succeeded.
pub proof fn lemma_commit_follows_update(run: RunView, event: EventView)
    ensures
        (exists|i: int| 0 <= i < transition(run, event).1.len() && transition(run, event).1[i] is Commit)
            ==> run is AwaitIdentity && event is Identified,
        transition(run, event).0 is AwaitIdentity ==> run is AwaitLock && event == (EventView::LockChecked { modified: true }),
        transition(run, event).0 is AwaitLock ==> run is AwaitUpdate && (event matches EventView::UpdateExited { success, .. } && success),
{
}

/// A run that ends well ends in one of two ways: the inputs were already
/// current, or the rebuild was carried out and recorded.
pub proof fn lemma_success_is_current_or_recorded(run: RunView, event: EventView)
    ensures
        (exists|i: int| 0 <= i < transition(run, event).1.len() && transition(run, event).1[i] == EffectView::Exit(true))
            ==> (run is AwaitLock && event == (EventView::LockChecked { modified: false }))
                || (run is AwaitRecord && event is Recorded),
{
}

/// A dirty work tree is refused before anything runs: nothing is updated,
/// and the run ends in failure.
pub proof fn lemma_dirty_tree_refused(run: RunView, event: EventView)
    requires
        run is AwaitInspection,
        event matches EventView::Inspected { changed, .. } && changed.len() > 0,
    ensures
        transition(run, event).0 == RunView::Finished,
        transition(run, event).1[0] is Refuse,
        forall|i: int| 0 <= i < transition(run, event).1.len() ==> !(transition(run, event).1[i] is RunUpdate),
        transition(run, event).1.last() == EffectView::Exit(false),
{
}

// ---------------------------------------------------------------------------
// Running it
// ---------------------------------------------------------------------------

fn one(e: Effect) -> (r: Vec<Effect>)
    ensures
        effects_view(r@) == seq![e@],
{
    let mut r: Vec<Effect> = Vec::new();
    r.push(e);
    proof {
        assert(effects_view(r@) =~= seq![e@]);
    }
    r
}

fn two(e: Effect, f: Effect) -> (r: Vec<Effect>)
    ensures
        effects_view(r@) == seq![e@, f@],
{
    let mut r: Vec<Effect> = Vec::new();
    r.push(e);
    r.push(f);
    proof {
        assert(effects_view(r@) =~= seq![e@, f@]);
    }
    r
}

fn three(e: Effect, f: Effect, g: Effect) -> (r: Vec<Effect>)
    ensures
        effects_view(r@) == seq![e@, f@, g@],
{
    let mut r: Vec<Effect> = Vec::new();
    r.push(e);
    r.push(f);
    r.push(g);
    proof {
        assert(effects_view(r@) =~= seq![e@, f@, g@]);
    }
    r
}

fn stop(headline_text: &str, note_text: &str) -> (r: Effect)
    ensures
        r@ == (EffectView::Stop { headline: headline_text@, note: note_text@ }),
{
    Effect::Stop { headline: headline_text.to_owned(), note: note_text.to_owned() }
}

fn lock_path() -> (r: String)
    ensures
        r@ == flake_lock(),
{
    "flake.lock".to_owned()
}

/// The listing a dirty work tree is refused with.
fn dirty(workdir: &str, changed: &Vec<String>) -> (r: Tree<String>)
    ensures
        outline(r) == dirty_listing(workdir@, changed.deep_view()),
        glyphs_of(r) == Some(dimmed_glyphs()),
        plain_below(r),
{
    let mut lines: Vec<String> = Vec::new();
    let mut i: usize = 0;
    while i < changed.len()
        invariant
            0 <= i <= changed@.len(),
            lines.deep_view() == changed.deep_view().take(i as int).map_values(|p: Seq<char>| styled_path(disallowed(), p)),
        decreases changed.len() - i,
    {
        let ghost before = lines.deep_view();
        lines.push(file_path(disallowed(), changed[i].as_str()));
        proof {
            assert(lines.deep_view() =~= before.push(styled_path(disallowed(), changed.deep_view()[i as int])));
            assert(changed.deep_view().take(i + 1).map_values(|p: Seq<char>| styled_path(disallowed(), p))
                =~= changed.deep_view().take(i as int).map_values(|p: Seq<char>| styled_path(disallowed(), p)).push(
                styled_path(disallowed(), changed.deep_view()[i as int]),
            ));
        }
        i += 1;
    }
    proof {
        assert(changed.deep_view().take(changed@.len() as int) =~= changed.deep_view());
    }
    let leaves = leaves_of(&lines);
    let r = with_leaves(rooted(workdir), leaves);
    proof {
        assert(outline(r) =~= dirty_listing(workdir@, changed.deep_view()));
        assert(palettes(r).drop_first() =~= Seq::new(lines@.len(), |j: int| None::<Seq<Seq<char>>>));
    }
    r
}

impl UpdateRun {
    /// A run that has not started.
    pub fn new() -> (r: UpdateRun)
        ensures
            r@ == RunView::Begin,
    {
        UpdateRun::Begin
    }

    /// What the run does on `event`: where it goes next, and what it asks for
    /// on the way, in order.
    pub fn next(self, event: Event) -> (r: (UpdateRun, Vec<Effect>))
        ensures
            r.0@ == transition(self@, event@).0,
            effects_view(r.1@) == transition(self@, event@).1,
    {
        match self {
            UpdateRun::Begin => match event {
                Event::Started => (UpdateRun::AwaitTerminal, one(Effect::CheckTerminal)),
                _ => (UpdateRun::Finished, one(Effect::Exit(false))),
            },
            UpdateRun::AwaitTerminal => match event {
                Event::Terminal(present) => if present {
                    (UpdateRun::AwaitInspection, one(Effect::InspectRepository))
                } else {
                    (UpdateRun::Finished, one(Effect::Exit(false)))
                },
                _ => (UpdateRun::Finished, one(Effect::Exit(false))),
            },
            UpdateRun::AwaitInspection => match event {
                Event::Inspected { workdir, changed } => if changed.len() > 0 {
                    let listing = dirty(workdir.as_str(), &changed);
                    let headline_text = paint(headline(), "cannot update on a dirty working directory");
                    (
                        UpdateRun::Finished,
                        two(Effect::Refuse { headline: headline_text, listing }, Effect::Exit(false)),
                    )
                } else {
                    let step = Effect::Step("updating flake inputs".to_owned());
                    let run = Effect::RunUpdate { workdir: workdir.clone() };
                    (UpdateRun::AwaitUpdate { workdir }, two(step, run))
                },
                _ => (UpdateRun::Finished, one(Effect::Exit(false))),
            },
            UpdateRun::AwaitUpdate { workdir } => match event {
                Event::UpdateExited { success, output } => if success {
                    let summary = summarise(output.as_str());
                    (UpdateRun::AwaitLock { workdir, summary }, one(Effect::CheckLock { path: lock_path() }))
                } else {
                    (
                        UpdateRun::Finished,
                        three(
                            Effect::Undo { to: Revision::Head, path: lock_path() },
                            stop("the flake inputs were not updated", "the lock file is back as it was found"),
                            Effect::Exit(false),
                        ),
                    )
                },
                _ => (UpdateRun::Finished, one(Effect::Exit(false))),
            },
            UpdateRun::AwaitLock { workdir, summary } => match event {
                Event::LockChecked { modified } => if modified {
                    let message = commit_message(summary.as_slice());
                    (UpdateRun::AwaitIdentity { workdir, message }, one(Effect::Identify))
                } else {
                    (
                        UpdateRun::Finished,
                        two(Effect::Done("flake inputs are already current".to_owned()), Effect::Exit(true)),
                    )
                },
                _ => (UpdateRun::Finished, one(Effect::Exit(false))),
            },
            UpdateRun::AwaitIdentity { workdir, message } => match event {
                Event::Identified { system } => {
                    let step = Effect::Step("committing the lock file".to_owned());
                    let commit = Effect::Commit { workdir: workdir.clone(), message, path: lock_path() };
                    (UpdateRun::AwaitCommit { workdir, system }, two(step, commit))
                },
                _ => (UpdateRun::Finished, one(Effect::Exit(false))),
            },
            UpdateRun::AwaitCommit { workdir, system } => match event {
                Event::Committed { success } => if success {
                    let step = Effect::Step("rebuilding the system".to_owned());
                    (UpdateRun::AwaitRebuild { system }, two(step, Effect::Rebuild { workdir }))
                } else {
                    (
                        UpdateRun::Finished,
                        three(
                            Effect::Undo { to: Revision::HeadBeforeCommit, path: lock_path() },
                            stop("could not commit the lock file", "the flake inputs are back as they were found"),
                            Effect::Exit(false),
                        ),
                    )
                },
                _ => (UpdateRun::Finished, one(Effect::Exit(false))),
            },
            UpdateRun::AwaitRebuild { system } => match event {
                Event::Rebuilt { success, output } => if success {
                    let summary = summarise_rebuild(output.as_str());
                    let reference = notes_ref(system.as_str());
                    let record = Effect::Record { notes_ref: reference, system: system.clone(), summary };
                    (UpdateRun::AwaitRecord { system }, one(record))
                } else {
                    (
                        UpdateRun::Finished,
                        three(
                            Effect::Undo { to: Revision::ParentOfCommit, path: lock_path() },
                            stop(
                                "the system was not rebuilt",
                                "the commit is undone and the flake inputs are back as they were found",
                            ),
                            Effect::Exit(false),
                        ),
                    )
                },
                Event::RebuildNotRun { reason } => {
                    let mut headline_text = "the system could not be rebuilt: ".to_owned();
                    headline_text.append(reason.as_str());
                    (
                        UpdateRun::Finished,
                        three(
                            Effect::Undo { to: Revision::ParentOfCommit, path: lock_path() },
                            Effect::Stop {
                                headline: headline_text,
                                note: "the commit is undone and the flake inputs are back as they were found".to_owned(),
                            },
                            Effect::Exit(false),
                        ),
                    )
                },
                _ => (UpdateRun::Finished, one(Effect::Exit(false))),
            },
            UpdateRun::AwaitRecord { system } => match event {
                Event::Recorded => {
                    let mut message = "rebuilt and recorded on ".to_owned();
                    message.append(system.as_str());
                    (UpdateRun::Finished, two(Effect::Done(message), Effect::Exit(true)))
                },
                _ => (UpdateRun::Finished, one(Effect::Exit(false))),
            },
            UpdateRun::Finished => (UpdateRun::Finished, one(Effect::Exit(false))),
        }
    }
}

} // verus!

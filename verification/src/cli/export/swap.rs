//! Putting a finished export in place of the previous one without ever
//! leaving the output half written.
//!
//! The site is written to a staging directory beside the output. Only once
//! every page and asset is on disk does the staging directory take the
//! output's name; the previous output is moved aside first and brought back
//! if that last rename fails. The decisions between the filesystem calls are
//! a state machine: each step names the next filesystem action, and the
//! caller performs it and answers with what happened.

use vstd::prelude::*;

use super::output::{
    backup_dir, lemma_staging_and_backup_stand_apart, parent_of, path_parent, path_with_file_name, sibling_name,
    staging_dir,
};
use super::site::{ExportError, ExportErrorView};
use crate::text::str_eq;

verus! {

/// The directories an export works with: the output, the staging directory
/// the site is written to, the backup the previous output is moved to, and
/// the output's parent when it has a nonempty one.
#[derive(Debug)]
pub struct SwapDirs {
    out: String,
    staging: String,
    backup: String,
    parent: Option<String>,
}

/// The abstract form of [`SwapDirs`].
pub struct SwapDirsView {
    pub out: Seq<char>,
    pub staging: Seq<char>,
    pub backup: Seq<char>,
    pub parent: Option<Seq<char>>,
}

impl View for SwapDirs {
    type V = SwapDirsView;

    closed spec fn view(&self) -> SwapDirsView {
        SwapDirsView {
            out: self.out@,
            staging: self.staging@,
            backup: self.backup@,
            parent: match &self.parent {
                Some(p) => Some(p@),
                None => None,
            },
        }
    }
}

impl SwapDirsView {
    /// No directory the export creates or removes is the output itself, and
    /// the staging and backup directories are two directories.
    pub open spec fn apart(self) -> bool {
        &&& self.staging != self.out
        &&& self.backup != self.out
        &&& self.staging != self.backup
        &&& (self.parent matches Some(p) ==> p != self.out)
    }
}

/// The output's parent directory, unless it has none or it is empty (an
/// output named relative to the working directory).
pub open spec fn output_parent(out: Seq<char>) -> Option<Seq<char>> {
    match path_parent(out) {
        Some(p) => if p.len() > 0 {
            Some(p)
        } else {
            None
        },
        None => None,
    }
}

/// The directories an export into `out` works with.
pub open spec fn swap_dirs(out: Seq<char>) -> SwapDirsView {
    SwapDirsView {
        out,
        staging: path_with_file_name(out, sibling_name(out, "topcoat-export"@)),
        backup: path_with_file_name(out, sibling_name(out, "topcoat-export-prev"@)),
        parent: output_parent(out),
    }
}

/// Where an export stands: which action it waits on the outcome of.
#[derive(Debug)]
pub enum SwapPhase {
    /// Removing a staging directory an interrupted run left behind.
    ClearingStaging,
    /// Creating the staging directory.
    CreatingStaging,
    /// Writing every page and asset into the staging directory.
    Writing,
    /// Dropping the partial site after the write failed with the error.
    Discarding(ExportError),
    /// Creating the output's parent directory.
    CreatingParent,
    /// Removing a backup an interrupted run left behind.
    ClearingBackup,
    /// Asking whether a previous output exists.
    Probing,
    /// Moving the previous output aside to the backup.
    MovingAside,
    /// Renaming the staging directory to the output; whether a previous
    /// output was moved aside.
    Replacing(bool),
    /// Removing the backup of the replaced output.
    DroppingBackup,
    /// Moving the previous output back after the final rename failed with
    /// the error.
    Restoring(ExportError),
    /// The export is over.
    Finished,
}

/// The abstract form of [`SwapPhase`].
pub enum SwapPhaseView {
    ClearingStaging,
    CreatingStaging,
    Writing,
    Discarding(ExportErrorView),
    CreatingParent,
    ClearingBackup,
    Probing,
    MovingAside,
    Replacing(bool),
    DroppingBackup,
    Restoring(ExportErrorView),
    Finished,
}

impl View for SwapPhase {
    type V = SwapPhaseView;

    open spec fn view(&self) -> SwapPhaseView {
        match self {
            SwapPhase::ClearingStaging => SwapPhaseView::ClearingStaging,
            SwapPhase::CreatingStaging => SwapPhaseView::CreatingStaging,
            SwapPhase::Writing => SwapPhaseView::Writing,
            SwapPhase::Discarding(e) => SwapPhaseView::Discarding(e@),
            SwapPhase::CreatingParent => SwapPhaseView::CreatingParent,
            SwapPhase::ClearingBackup => SwapPhaseView::ClearingBackup,
            SwapPhase::Probing => SwapPhaseView::Probing,
            SwapPhase::MovingAside => SwapPhaseView::MovingAside,
            SwapPhase::Replacing(previous) => SwapPhaseView::Replacing(*previous),
            SwapPhase::DroppingBackup => SwapPhaseView::DroppingBackup,
            SwapPhase::Restoring(e) => SwapPhaseView::Restoring(e@),
            SwapPhase::Finished => SwapPhaseView::Finished,
        }
    }
}

/// An export in progress: its directories and where it stands.
#[derive(Debug)]
pub struct SwapState {
    dirs: SwapDirs,
    phase: SwapPhase,
}

/// The abstract form of [`SwapState`].
pub struct SwapStateView {
    pub dirs: SwapDirsView,
    pub phase: SwapPhaseView,
}

impl View for SwapState {
    type V = SwapStateView;

    closed spec fn view(&self) -> SwapStateView {
        SwapStateView { dirs: self.dirs@, phase: self.phase@ }
    }
}

/// What came of the last action.
#[derive(Debug)]
pub enum SwapEvent {
    /// It succeeded.
    Done,
    /// It failed with the error.
    Failed(ExportError),
    /// The answer to [`SwapAction::CheckExists`].
    OutExists(bool),
}

/// The abstract form of [`SwapEvent`].
pub enum SwapEventView {
    Done,
    Failed(ExportErrorView),
    OutExists(bool),
}

impl View for SwapEvent {
    type V = SwapEventView;

    open spec fn view(&self) -> SwapEventView {
        match self {
            SwapEvent::Done => SwapEventView::Done,
            SwapEvent::Failed(e) => SwapEventView::Failed(e@),
            SwapEvent::OutExists(b) => SwapEventView::OutExists(*b),
        }
    }
}

/// The next filesystem action of an export.
#[derive(Debug)]
pub enum SwapAction {
    /// Remove the directory and everything in it, if it exists.
    RemoveDir(String),
    /// Create the directory and its missing ancestors.
    CreateDir(String),
    /// Write every page and asset into the staging directory.
    WriteSite(String),
    /// Tell whether the path exists.
    CheckExists(String),
    /// Rename the first path to the second.
    Rename(String, String),
    /// Remove the directory, whatever comes of it.
    DiscardDir(String),
    /// The export is over, with this result.
    Finish(Result<(), ExportError>),
}

/// The abstract form of [`SwapAction`].
pub enum SwapActionView {
    RemoveDir(Seq<char>),
    CreateDir(Seq<char>),
    WriteSite(Seq<char>),
    CheckExists(Seq<char>),
    Rename(Seq<char>, Seq<char>),
    DiscardDir(Seq<char>),
    Finish(Result<(), ExportErrorView>),
}

impl View for SwapAction {
    type V = SwapActionView;

    open spec fn view(&self) -> SwapActionView {
        match self {
            SwapAction::RemoveDir(p) => SwapActionView::RemoveDir(p@),
            SwapAction::CreateDir(p) => SwapActionView::CreateDir(p@),
            SwapAction::WriteSite(p) => SwapActionView::WriteSite(p@),
            SwapAction::CheckExists(p) => SwapActionView::CheckExists(p@),
            SwapAction::Rename(a, b) => SwapActionView::Rename(a@, b@),
            SwapAction::DiscardDir(p) => SwapActionView::DiscardDir(p@),
            SwapAction::Finish(Ok(())) => SwapActionView::Finish(Ok(())),
            SwapAction::Finish(Err(e)) => SwapActionView::Finish(Err(e@)),
        }
    }
}

/// The state at `phase` with the directories `dirs`, and the action `action`.
pub open spec fn moved(dirs: SwapDirsView, phase: SwapPhaseView, action: SwapActionView) -> (
    SwapStateView,
    SwapActionView,
) {
    (SwapStateView { dirs, phase }, action)
}

/// The end of an export with `result`.
pub open spec fn finish(dirs: SwapDirsView, result: Result<(), ExportErrorView>) -> (SwapStateView, SwapActionView) {
    moved(dirs, SwapPhaseView::Finished, SwapActionView::Finish(result))
}

/// What follows a written site: creating the output's parent when it has
/// one, then clearing a stale backup.
pub open spec fn after_write(dirs: SwapDirsView) -> (SwapStateView, SwapActionView) {
    match dirs.parent {
        Some(p) => moved(dirs, SwapPhaseView::CreatingParent, SwapActionView::CreateDir(p)),
        None => moved(dirs, SwapPhaseView::ClearingBackup, SwapActionView::RemoveDir(dirs.backup)),
    }
}

/// One step of an export: from the state and the outcome of the action it
/// waited on, the next state and the next action.
///
/// A failure before the site is written ends the export with that failure.
/// A failed write drops the partial site, then ends with the write's error.
/// Once the site is written, the previous output, if there is one, is moved
/// aside, and the staging directory takes the output's name; if that rename
/// fails, the previous output is moved back and the export ends with the
/// rename's error. After a successful rename the backup is removed, and the
/// export succeeds whatever comes of that removal.
pub open spec fn swap_transition(s: SwapStateView, e: SwapEventView) -> (SwapStateView, SwapActionView) {
    let d = s.dirs;
    match s.phase {
        SwapPhaseView::ClearingStaging => match e {
            SwapEventView::Failed(err) => finish(d, Err(err)),
            _ => moved(d, SwapPhaseView::CreatingStaging, SwapActionView::CreateDir(d.staging)),
        },
        SwapPhaseView::CreatingStaging => match e {
            SwapEventView::Failed(err) => finish(d, Err(err)),
            _ => moved(d, SwapPhaseView::Writing, SwapActionView::WriteSite(d.staging)),
        },
        SwapPhaseView::Writing => match e {
            SwapEventView::Failed(err) => moved(
                d,
                SwapPhaseView::Discarding(err),
                SwapActionView::DiscardDir(d.staging),
            ),
            _ => after_write(d),
        },
        SwapPhaseView::Discarding(err) => finish(d, Err(err)),
        SwapPhaseView::CreatingParent => match e {
            SwapEventView::Failed(err) => finish(d, Err(err)),
            _ => moved(d, SwapPhaseView::ClearingBackup, SwapActionView::RemoveDir(d.backup)),
        },
        SwapPhaseView::ClearingBackup => match e {
            SwapEventView::Failed(err) => finish(d, Err(err)),
            _ => moved(d, SwapPhaseView::Probing, SwapActionView::CheckExists(d.out)),
        },
        SwapPhaseView::Probing => match e {
            SwapEventView::Failed(err) => finish(d, Err(err)),
            SwapEventView::OutExists(true) => moved(
                d,
                SwapPhaseView::MovingAside,
                SwapActionView::Rename(d.out, d.backup),
            ),
            _ => moved(d, SwapPhaseView::Replacing(false), SwapActionView::Rename(d.staging, d.out)),
        },
        SwapPhaseView::MovingAside => match e {
            SwapEventView::Failed(err) => finish(d, Err(err)),
            _ => moved(d, SwapPhaseView::Replacing(true), SwapActionView::Rename(d.staging, d.out)),
        },
        SwapPhaseView::Replacing(previous) => match e {
            SwapEventView::Failed(err) => if previous {
                moved(d, SwapPhaseView::Restoring(err), SwapActionView::Rename(d.backup, d.out))
            } else {
                finish(d, Err(err))
            },
            _ => moved(d, SwapPhaseView::DroppingBackup, SwapActionView::DiscardDir(d.backup)),
        },
        SwapPhaseView::DroppingBackup => finish(d, Ok(())),
        SwapPhaseView::Restoring(err) => finish(d, Err(err)),
        SwapPhaseView::Finished => finish(d, Ok(())),
    }
}

/// The actions an export takes from state `s` as it is answered with
/// `events` in turn, until it finishes or the events run out.
pub open spec fn swap_trace(s: SwapStateView, events: Seq<SwapEventView>) -> Seq<SwapActionView>
    decreases events.len(),
{
    if events.len() == 0 || s.phase is Finished {
        Seq::empty()
    } else {
        let (t, a) = swap_transition(s, events[0]);
        seq![a] + swap_trace(t, events.drop_first())
    }
}

/// Every action of an export into `out` answered with `events`: the first
/// action, then those the answers lead to. `events[i]` answers action `i`.
pub open spec fn swap_run(out: Seq<char>, events: Seq<SwapEventView>) -> Seq<SwapActionView> {
    let d = swap_dirs(out);
    seq![SwapActionView::RemoveDir(d.staging)] + swap_trace(
        SwapStateView { dirs: d, phase: SwapPhaseView::ClearingStaging },
        events,
    )
}

/// Whether a run of actions ended in a failed export.
pub open spec fn ends_in_failure(actions: Seq<SwapActionView>) -> bool {
    actions.len() > 0 && actions.last() matches SwapActionView::Finish(Err(_))
}

/// Whether `a` removes or creates the directory `p`.
pub open spec fn clears(a: SwapActionView, p: Seq<char>) -> bool {
    a == SwapActionView::RemoveDir(p) || a == SwapActionView::DiscardDir(p) || a == SwapActionView::CreateDir(p)
}

/// Whether `a` is the action an export at `s` waits on the outcome of.
spec fn awaits(s: SwapStateView, a: SwapActionView) -> bool {
    let d = s.dirs;
    match s.phase {
        SwapPhaseView::ClearingStaging => a == SwapActionView::RemoveDir(d.staging),
        SwapPhaseView::CreatingStaging => a == SwapActionView::CreateDir(d.staging),
        SwapPhaseView::Writing => a == SwapActionView::WriteSite(d.staging),
        SwapPhaseView::Discarding(_) => a == SwapActionView::DiscardDir(d.staging),
        SwapPhaseView::CreatingParent => d.parent is Some && a == SwapActionView::CreateDir(d.parent->0),
        SwapPhaseView::ClearingBackup => a == SwapActionView::RemoveDir(d.backup),
        SwapPhaseView::Probing => a == SwapActionView::CheckExists(d.out),
        SwapPhaseView::MovingAside => a == SwapActionView::Rename(d.out, d.backup),
        SwapPhaseView::Replacing(_) => a == SwapActionView::Rename(d.staging, d.out),
        SwapPhaseView::DroppingBackup => a == SwapActionView::DiscardDir(d.backup),
        SwapPhaseView::Restoring(_) => a == SwapActionView::Rename(d.backup, d.out),
        SwapPhaseView::Finished => a is Finish,
    }
}

/// The action `a` an export at `s` waits on, and the actions that follow
/// as `events` answer them in turn.
spec fn run_from(s: SwapStateView, a: SwapActionView, events: Seq<SwapEventView>) -> Seq<SwapActionView> {
    seq![a] + swap_trace(s, events)
}

/// Whether `a` leaves the output alone but for the three renames an export
/// makes of it: moving it aside, replacing it, and moving it back.
spec fn spares_output(a: SwapActionView, d: SwapDirsView) -> bool {
    &&& !clears(a, d.out)
    &&& match a {
        SwapActionView::Rename(x, y) => (x == d.out || y == d.out) ==> (a == SwapActionView::Rename(d.out, d.backup)
            || a == SwapActionView::Rename(d.staging, d.out) || a == SwapActionView::Rename(d.backup, d.out)),
        _ => true,
    }
}

spec fn before_write(p: SwapPhaseView) -> bool {
    p is ClearingStaging || p is CreatingStaging || p is Writing
}

spec fn past_replacing(p: SwapPhaseView) -> bool {
    p is Discarding || p is DroppingBackup || p is Restoring || p is Finished
}

spec fn displaced(p: SwapPhaseView) -> bool {
    p == SwapPhaseView::Replacing(true) || p is Restoring
}

proof fn lemma_step_awaits(s: SwapStateView, e: SwapEventView)
    requires
        !(s.phase is Finished),
    ensures
        awaits(swap_transition(s, e).0, swap_transition(s, e).1),
        swap_transition(s, e).0.dirs == s.dirs,
{
}

proof fn lemma_unfold_run(s: SwapStateView, a: SwapActionView, events: Seq<SwapEventView>)
    ensures
        (events.len() == 0 || s.phase is Finished) ==> run_from(s, a, events) =~= seq![a],
        !(events.len() == 0 || s.phase is Finished) ==> run_from(s, a, events) =~= seq![a] + run_from(
            swap_transition(s, events[0]).0,
            swap_transition(s, events[0]).1,
            events.drop_first(),
        ),
{
    if events.len() == 0 || s.phase is Finished {
        assert(swap_trace(s, events) =~= Seq::<SwapActionView>::empty());
    }
}

proof fn lemma_run_spares_output(s: SwapStateView, a: SwapActionView, events: Seq<SwapEventView>)
    requires
        awaits(s, a),
        s.dirs.apart(),
    ensures
        forall|i: int| 0 <= i < run_from(s, a, events).len() ==> spares_output(#[trigger] run_from(s, a, events)[i], s.dirs),
    decreases events.len(),
{
    let acts = run_from(s, a, events);
    lemma_unfold_run(s, a, events);
    if !(events.len() == 0 || s.phase is Finished) {
        let (t, b) = swap_transition(s, events[0]);
        lemma_step_awaits(s, events[0]);
        lemma_run_spares_output(t, b, events.drop_first());
        let sub = run_from(t, b, events.drop_first());
        assert forall|i: int| 0 <= i < acts.len() implies spares_output(#[trigger] acts[i], s.dirs) by {
            if i > 0 {
                assert(acts[i] == sub[i - 1]);
            }
        }
    }
}

proof fn lemma_run_writes_first(s: SwapStateView, a: SwapActionView, events: Seq<SwapEventView>)
    requires
        awaits(s, a),
        s.dirs.apart(),
    ensures
        forall|i: int|
            0 <= i < run_from(s, a, events).len() && #[trigger] run_from(s, a, events)[i] == SwapActionView::Rename(
                s.dirs.staging,
                s.dirs.out,
            ) ==> !past_replacing(s.phase) && (before_write(s.phase) ==> exists|j: int|
                0 <= j < i && j < events.len() && run_from(s, a, events)[j] == SwapActionView::WriteSite(s.dirs.staging) && !(
                #[trigger] events[j] is Failed)),
    decreases events.len(),
{
    let acts = run_from(s, a, events);
    let d = s.dirs;
    let target = SwapActionView::Rename(d.staging, d.out);
    lemma_unfold_run(s, a, events);
    if !(events.len() == 0 || s.phase is Finished) {
        let (t, b) = swap_transition(s, events[0]);
        lemma_step_awaits(s, events[0]);
        let rest = events.drop_first();
        lemma_run_writes_first(t, b, rest);
        let sub = run_from(t, b, rest);
        assert forall|i: int| 0 <= i < acts.len() && #[trigger] acts[i] == target implies !past_replacing(s.phase) && (
        before_write(s.phase) ==> exists|j: int|
            0 <= j < i && j < events.len() && acts[j] == SwapActionView::WriteSite(d.staging) && !(
            #[trigger] events[j] is Failed)) by {
            if i > 0 {
                assert(acts[i] == sub[i - 1]);
                assert(sub[i - 1] == target);
                if before_write(s.phase) {
                    if s.phase is Writing {
                        assert(acts[0] == SwapActionView::WriteSite(d.staging));
                        if events[0] is Failed {
                            assert(past_replacing(t.phase));
                        }
                        assert(!(events[0] is Failed));
                    } else {
                        if events[0] is Failed {
                            assert(t.phase is Finished);
                        } else {
                            assert(before_write(t.phase));
                            let j = choose|j: int|
                                0 <= j < i - 1 && j < rest.len() && sub[j] == SwapActionView::WriteSite(d.staging) && !(
                                #[trigger] rest[j] is Failed);
                            assert(acts[j + 1] == sub[j]);
                            assert(events[j + 1] == rest[j]);
                        }
                    }
                }
            }
        }
    }
}

proof fn lemma_run_restores(s: SwapStateView, a: SwapActionView, events: Seq<SwapEventView>)
    requires
        awaits(s, a),
        s.dirs.apart(),
    ensures
        ends_in_failure(run_from(s, a, events)) ==> {
            let acts = run_from(s, a, events);
            let d = s.dirs;
            &&& !(s.phase is DroppingBackup)
            &&& forall|i: int|
                0 <= i < acts.len() && i < events.len() && #[trigger] acts[i] == SwapActionView::Rename(d.staging, d.out)
                    ==> events[i] is Failed
            &&& forall|i: int|
                0 <= i < acts.len() && i < events.len() && #[trigger] acts[i] == SwapActionView::Rename(d.out, d.backup)
                    && !(events[i] is Failed) ==> exists|j: int|
                    i < j < acts.len() && #[trigger] acts[j] == SwapActionView::Rename(d.backup, d.out)
            &&& displaced(s.phase) ==> exists|j: int|
                0 <= j < acts.len() && #[trigger] acts[j] == SwapActionView::Rename(d.backup, d.out)
        },
    decreases events.len(),
{
    let acts = run_from(s, a, events);
    let d = s.dirs;
    lemma_unfold_run(s, a, events);
    if !(events.len() == 0 || s.phase is Finished) && ends_in_failure(acts) {
        let (t, b) = swap_transition(s, events[0]);
        lemma_step_awaits(s, events[0]);
        let rest = events.drop_first();
        lemma_run_restores(t, b, rest);
        let sub = run_from(t, b, rest);
        assert(acts.last() == sub.last());
        assert(ends_in_failure(sub));
        if s.phase is DroppingBackup {
            assert(t.phase is Finished);
            lemma_unfold_run(t, b, rest);
        }
        if s.phase is Replacing && !(events[0] is Failed) {
            assert(t.phase is DroppingBackup);
        }
        assert forall|i: int|
            0 <= i < acts.len() && i < events.len() && #[trigger] acts[i] == SwapActionView::Rename(d.staging, d.out)
                implies events[i] is Failed by {
            if i > 0 {
                assert(acts[i] == sub[i - 1]);
                assert(events[i] == rest[i - 1]);
            }
        }
        assert forall|i: int|
            0 <= i < acts.len() && i < events.len() && #[trigger] acts[i] == SwapActionView::Rename(d.out, d.backup)
                && !(events[i] is Failed) implies exists|j: int|
                i < j < acts.len() && #[trigger] acts[j] == SwapActionView::Rename(d.backup, d.out) by {
            if i > 0 {
                assert(acts[i] == sub[i - 1]);
                assert(events[i] == rest[i - 1]);
                let j = choose|j: int| i - 1 < j < sub.len() && #[trigger] sub[j] == SwapActionView::Rename(d.backup, d.out);
                assert(acts[j + 1] == sub[j]);
            } else {
                assert(s.phase is MovingAside);
                assert(displaced(t.phase));
                let j = choose|j: int| 0 <= j < sub.len() && #[trigger] sub[j] == SwapActionView::Rename(d.backup, d.out);
                assert(acts[j + 1] == sub[j]);
            }
        }
        if displaced(s.phase) {
            if s.phase is Restoring {
                assert(acts[0] == SwapActionView::Rename(d.backup, d.out));
            } else {
                assert(events[0] is Failed);
                assert(sub[0] == SwapActionView::Rename(d.backup, d.out));
                assert(acts[1] == sub[0]);
            }
        }
    }
}

/// A failed export leaves the previous output as it was, and a successful
/// one replaces it only with a fully written site.
///
/// In every run of an export into `out`, whatever the filesystem answers:
/// no action creates or removes `out`; the only actions that name `out` are
/// moving it aside to the backup, renaming the staging directory to it, and
/// moving the backup back to it; and the staging directory is renamed to
/// `out` only after writing the site succeeded. When the run ends in a
/// failure, the rename of the staging directory to `out` never succeeded, and
/// every successful move of `out` aside is followed by the move back.
pub proof fn lemma_failed_run_keeps_output(out: Seq<char>, events: Seq<SwapEventView>)
    requires
        swap_dirs(out).apart(),
    ensures
        forall|i: int| 0 <= i < swap_run(out, events).len() ==> !clears(#[trigger] swap_run(out, events)[i], out),
        forall|i: int|
            0 <= i < swap_run(out, events).len() && (#[trigger] swap_run(out, events)[i] matches SwapActionView::Rename(x, y) && (x == out || y == out)) ==> {
                ||| swap_run(out, events)[i] == SwapActionView::Rename(out, swap_dirs(out).backup)
                ||| swap_run(out, events)[i] == SwapActionView::Rename(swap_dirs(out).staging, out)
                ||| swap_run(out, events)[i] == SwapActionView::Rename(swap_dirs(out).backup, out)
            },
        forall|i: int|
            0 <= i < swap_run(out, events).len() && #[trigger] swap_run(out, events)[i] == SwapActionView::Rename(
                swap_dirs(out).staging,
                out,
            ) ==> exists|j: int|
                0 <= j < i && j < events.len() && swap_run(out, events)[j] == SwapActionView::WriteSite(swap_dirs(out).staging) && !(
                #[trigger] events[j] is Failed),
        ends_in_failure(swap_run(out, events)) ==> forall|i: int|
            0 <= i < swap_run(out, events).len() && i < events.len() && #[trigger] swap_run(out, events)[i]
                == SwapActionView::Rename(swap_dirs(out).staging, out) ==> events[i] is Failed,
        ends_in_failure(swap_run(out, events)) ==> forall|i: int|
            0 <= i < swap_run(out, events).len() && i < events.len() && #[trigger] swap_run(out, events)[i]
                == SwapActionView::Rename(out, swap_dirs(out).backup) && !(events[i] is Failed) ==> exists|j: int|
                i < j < swap_run(out, events).len() && #[trigger] swap_run(out, events)[j] == SwapActionView::Rename(
                    swap_dirs(out).backup,
                    out,
                ),
{
    let d = swap_dirs(out);
    let s = SwapStateView { dirs: d, phase: SwapPhaseView::ClearingStaging };
    let a = SwapActionView::RemoveDir(d.staging);
    assert(swap_run(out, events) == run_from(s, a, events));
    lemma_run_spares_output(s, a, events);
    lemma_run_writes_first(s, a, events);
    lemma_run_restores(s, a, events);
    let acts = run_from(s, a, events);
    assert forall|i: int| 0 <= i < acts.len() implies !clears(#[trigger] acts[i], out) by {
        assert(spares_output(acts[i], d));
    }
    assert forall|i: int|
        0 <= i < acts.len() && (#[trigger] acts[i] matches SwapActionView::Rename(x, y) && (x == out || y == out)) implies {
            ||| acts[i] == SwapActionView::Rename(out, d.backup)
            ||| acts[i] == SwapActionView::Rename(d.staging, out)
            ||| acts[i] == SwapActionView::Rename(d.backup, out)
        } by {
        assert(spares_output(acts[i], d));
    }
}

impl SwapState {
    /// Starts an export into `out`: its first action removes a staging
    /// directory an interrupted run left behind.
    pub fn begin(out: &str) -> (r: (SwapState, SwapAction))
        ensures
            r.0@ == (SwapStateView { dirs: swap_dirs(out@), phase: SwapPhaseView::ClearingStaging }),
            r.1@ == SwapActionView::RemoveDir(swap_dirs(out@).staging),
            swap_dirs(out@).apart(),
    {
        let staging = staging_dir(out);
        let backup = backup_dir(out);
        let parent = match parent_of(out) {
            Some(p) => {
                proof {
                    reveal_strlit("");
                }
                let empty = str_eq(p.as_str(), "");
                proof {
                    assert(""@.len() == 0);
                    if p@.len() == 0 {
                        assert(p@ =~= ""@);
                    }
                }
                if empty {
                    None
                } else {
                    Some(p)
                }
            },
            None => None,
        };
        proof {
            lemma_staging_and_backup_stand_apart(out@, staging@, backup@);
        }
        let first = SwapAction::RemoveDir(staging.clone());
        let dirs = SwapDirs { out: out.to_owned(), staging, backup, parent };
        (SwapState { dirs, phase: SwapPhase::ClearingStaging }, first)
    }
}

fn ended(dirs: SwapDirs, result: Result<(), ExportError>) -> (r: (SwapState, SwapAction))
    ensures
        (r.0@, r.1@) == finish(
            dirs@,
            match result {
                Ok(()) => Ok(()),
                Err(e) => Err(e@),
            },
        ),
{
    (SwapState { dirs, phase: SwapPhase::Finished }, SwapAction::Finish(result))
}

/// Takes one step of an export, as [`swap_transition`] describes: from the
/// state and the outcome of the action it waited on, the next state and the
/// next action to perform.
pub fn swap_step(state: SwapState, event: SwapEvent) -> (r: (SwapState, SwapAction))
    requires
        !(state@.phase is Finished),
    ensures
        (r.0@, r.1@) == swap_transition(state@, event@),
{
    let dirs = state.dirs;
    match state.phase {
        SwapPhase::ClearingStaging => match event {
            SwapEvent::Failed(err) => ended(dirs, Err(err)),
            _ => {
                let a = SwapAction::CreateDir(dirs.staging.clone());
                (SwapState { dirs, phase: SwapPhase::CreatingStaging }, a)
            },
        },
        SwapPhase::CreatingStaging => match event {
            SwapEvent::Failed(err) => ended(dirs, Err(err)),
            _ => {
                let a = SwapAction::WriteSite(dirs.staging.clone());
                (SwapState { dirs, phase: SwapPhase::Writing }, a)
            },
        },
        SwapPhase::Writing => match event {
            SwapEvent::Failed(err) => {
                let a = SwapAction::DiscardDir(dirs.staging.clone());
                (SwapState { dirs, phase: SwapPhase::Discarding(err) }, a)
            },
            _ => match &dirs.parent {
                Some(p) => {
                    let a = SwapAction::CreateDir(p.clone());
                    (SwapState { dirs, phase: SwapPhase::CreatingParent }, a)
                },
                None => {
                    let a = SwapAction::RemoveDir(dirs.backup.clone());
                    (SwapState { dirs, phase: SwapPhase::ClearingBackup }, a)
                },
            },
        },
        SwapPhase::Discarding(err) => ended(dirs, Err(err)),
        SwapPhase::CreatingParent => match event {
            SwapEvent::Failed(err) => ended(dirs, Err(err)),
            _ => {
                let a = SwapAction::RemoveDir(dirs.backup.clone());
                (SwapState { dirs, phase: SwapPhase::ClearingBackup }, a)
            },
        },
        SwapPhase::ClearingBackup => match event {
            SwapEvent::Failed(err) => ended(dirs, Err(err)),
            _ => {
                let a = SwapAction::CheckExists(dirs.out.clone());
                (SwapState { dirs, phase: SwapPhase::Probing }, a)
            },
        },
        SwapPhase::Probing => match event {
            SwapEvent::Failed(err) => ended(dirs, Err(err)),
            SwapEvent::OutExists(true) => {
                let a = SwapAction::Rename(dirs.out.clone(), dirs.backup.clone());
                (SwapState { dirs, phase: SwapPhase::MovingAside }, a)
            },
            _ => {
                let a = SwapAction::Rename(dirs.staging.clone(), dirs.out.clone());
                (SwapState { dirs, phase: SwapPhase::Replacing(false) }, a)
            },
        },
        SwapPhase::MovingAside => match event {
            SwapEvent::Failed(err) => ended(dirs, Err(err)),
            _ => {
                let a = SwapAction::Rename(dirs.staging.clone(), dirs.out.clone());
                (SwapState { dirs, phase: SwapPhase::Replacing(true) }, a)
            },
        },
        SwapPhase::Replacing(previous) => match event {
            SwapEvent::Failed(err) => if previous {
                let a = SwapAction::Rename(dirs.backup.clone(), dirs.out.clone());
                (SwapState { dirs, phase: SwapPhase::Restoring(err) }, a)
            } else {
                ended(dirs, Err(err))
            },
            _ => {
                let a = SwapAction::DiscardDir(dirs.backup.clone());
                (SwapState { dirs, phase: SwapPhase::DroppingBackup }, a)
            },
        },
        SwapPhase::DroppingBackup => ended(dirs, Ok(())),
        SwapPhase::Restoring(err) => ended(dirs, Err(err)),
        SwapPhase::Finished => ended(dirs, Ok(())),
    }
}

} // verus!

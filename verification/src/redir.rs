//! The redirect decision and copy-up.
//!
//! A request for a path under the lower directory is answered from the upper
//! directory once a counterpart exists there. A request that means to write
//! has the counterpart made first: its parent directory is created and the
//! lower file, if there is one, is copied up and made writable.
//!
//! The decision cannot look at the disk. It is therefore taken in steps:
//! each step names one thing to find out or to do, the caller does it and
//! says how it went, and the next step follows from that.

use vstd::prelude::*;
use crate::config::{Config, ConfigView, context_of};
use crate::path::{
    bytes_of, is_absolute, is_relative, join, joined, names, parent, parent_of, starts_with,
    strip_prefix, stripped, tail_after, to_vec,
};
use crate::path_laws::{lemma_joined_names, lemma_parent_names, lemma_stripped_names};

verus! {

/// What a decision is waiting for, or how it ended.
#[derive(Clone, Copy, Debug, PartialEq, Eq, Structural)]
pub enum Phase {
    /// Does the counterpart exist in the upper tree?
    UpperExists,
    /// Does the parent of the requested path exist?
    LowerParentExists,
    /// The counterpart's parent directory is being created.
    CreateUpperDirs,
    /// Is the requested path a regular file?
    LowerIsFile,
    /// The file is being copied to the counterpart.
    CopyUp,
    /// The copy is being made writable.
    ClearReadOnly,
    /// Decided: use the counterpart.
    Redirected,
    /// Decided: leave the request as it is.
    Declined,
}

/// What the caller is asked to do next. Each request but `Finish` is answered
/// with one `bool`: what was found, or whether the work succeeded.
#[derive(Debug)]
pub enum Action {
    /// Find out whether anything exists at `path`.
    Exists { path: Vec<u8> },
    /// Find out whether `path` is a regular file.
    IsFile { path: Vec<u8> },
    /// Create the directory `path` and every missing directory above it.
    CreateDirAll { path: Vec<u8> },
    /// Copy the content of the file `from` to `to`.
    Copy { from: Vec<u8>, to: Vec<u8> },
    /// Clear the read-only attribute of `path`.
    ClearReadOnly { path: Vec<u8> },
    /// Nothing more: the request goes to `target`, or stays as it is.
    Finish { target: Option<Vec<u8>> },
}

/// An `Action` as plain values.
pub enum ActionView {
    Exists { path: Seq<u8> },
    IsFile { path: Seq<u8> },
    CreateDirAll { path: Seq<u8> },
    Copy { from: Seq<u8>, to: Seq<u8> },
    ClearReadOnly { path: Seq<u8> },
    Finish { target: Option<Seq<u8>> },
}

impl View for Action {
    type V = ActionView;

    open spec fn view(&self) -> ActionView {
        match *self {
            Action::Exists { path } => ActionView::Exists { path: path@ },
            Action::IsFile { path } => ActionView::IsFile { path: path@ },
            Action::CreateDirAll { path } => ActionView::CreateDirAll { path: path@ },
            Action::Copy { from, to } => ActionView::Copy { from: from@, to: to@ },
            Action::ClearReadOnly { path } => ActionView::ClearReadOnly { path: path@ },
            Action::Finish { target } => ActionView::Finish { target: bytes_of(target) },
        }
    }
}

/// A decision under way.
#[derive(Debug)]
pub struct Redirect {
    phase: Phase,
    path: Vec<u8>,
    candidate: Vec<u8>,
    write: bool,
}

/// A `Redirect` as plain values.
pub struct RedirectView {
    /// What the decision waits for.
    pub phase: Phase,
    /// The path that was asked for.
    pub path: Seq<u8>,
    /// Its counterpart in the upper tree; empty in a decision that declined
    /// at once.
    pub candidate: Seq<u8>,
    /// Whether the request means to write.
    pub write: bool,
}

impl View for Redirect {
    type V = RedirectView;

    closed spec fn view(&self) -> RedirectView {
        RedirectView {
            phase: self.phase,
            path: self.path@,
            candidate: self.candidate@,
            write: self.write,
        }
    }
}

/// The counterpart of `path` in the upper tree: the upper directory joined
/// with what `path` holds beyond the lower directory. There is one where
/// the context is valid and `path` lies at or under the lower directory.
/// The fields of a context are open to everyone, so a context that is not
/// valid can be put together; it has no counterpart for any path.
pub open spec fn counterpart(config: ConfigView, path: Seq<u8>) -> Option<Seq<u8>> {
    if !is_absolute(config.upper_dir) {
        None
    } else {
        match stripped(path, config.lower_dir) {
            Some(rest) => Some(joined(config.upper_dir, rest)),
            None => None,
        }
    }
}

/// The counterpart that a request is held against, if it is eligible for
/// redirection at all.
pub open spec fn eligible(config: Option<ConfigView>, path: Seq<u8>) -> Option<Seq<u8>> {
    match config {
        Some(config) => counterpart(config, path),
        None => None,
    }
}

/// A decision that has ended without a redirection.
pub open spec fn declined(path: Seq<u8>, write: bool) -> (RedirectView, ActionView) {
    (
        RedirectView { phase: Phase::Declined, path, candidate: Seq::empty(), write },
        ActionView::Finish { target: None },
    )
}

/// How a decision begins: with the question whether the counterpart exists,
/// or, for a request that is not eligible, at its end.
pub open spec fn begin(config: Option<ConfigView>, path: Seq<u8>, write: bool) -> (
    RedirectView,
    ActionView,
) {
    match eligible(config, path) {
        Some(candidate) => (
            RedirectView { phase: Phase::UpperExists, path, candidate, write },
            ActionView::Exists { path: candidate },
        ),
        None => declined(path, write),
    }
}

/// The state `state` in another phase.
pub open spec fn moved(state: RedirectView, phase: Phase) -> RedirectView {
    RedirectView { phase, ..state }
}

/// The end of a decision that redirects.
pub open spec fn redirect(state: RedirectView) -> (RedirectView, ActionView) {
    (moved(state, Phase::Redirected), ActionView::Finish { target: Some(state.candidate) })
}

/// The end of a decision that does not.
pub open spec fn decline(state: RedirectView) -> (RedirectView, ActionView) {
    (moved(state, Phase::Declined), ActionView::Finish { target: None })
}

/// One step: what follows when the pending request was answered with `ok`.
///
/// - The counterpart exists: redirect, whatever the intent.
/// - It does not, and the request only reads: decline.
/// - The request writes: where the requested path has a parent and that
///   parent exists, create the counterpart's parent directory, and where the
///   requested path is a file, copy it up and clear read-only on the copy;
///   then redirect. Where the parent does not exist, redirect with nothing
///   made.
/// - A path without a parent, a directory that cannot be created, a copy or
///   a change of permissions that fails: decline.
/// - A decision that has ended stays as it is.
pub open spec fn step(state: RedirectView, ok: bool) -> (RedirectView, ActionView) {
    match state.phase {
        Phase::UpperExists => {
            if ok {
                redirect(state)
            } else if !state.write {
                decline(state)
            } else {
                match parent_of(state.path) {
                    Some(lower_parent) => (
                        moved(state, Phase::LowerParentExists),
                        ActionView::Exists { path: lower_parent },
                    ),
                    None => decline(state),
                }
            }
        },
        Phase::LowerParentExists => {
            if !ok {
                redirect(state)
            } else {
                match parent_of(state.candidate) {
                    Some(upper_parent) => (
                        moved(state, Phase::CreateUpperDirs),
                        ActionView::CreateDirAll { path: upper_parent },
                    ),
                    None => decline(state),
                }
            }
        },
        Phase::CreateUpperDirs => {
            if ok {
                (moved(state, Phase::LowerIsFile), ActionView::IsFile { path: state.path })
            } else {
                decline(state)
            }
        },
        Phase::LowerIsFile => {
            if ok {
                (
                    moved(state, Phase::CopyUp),
                    ActionView::Copy { from: state.path, to: state.candidate },
                )
            } else {
                redirect(state)
            }
        },
        Phase::CopyUp => {
            if ok {
                (
                    moved(state, Phase::ClearReadOnly),
                    ActionView::ClearReadOnly { path: state.candidate },
                )
            } else {
                decline(state)
            }
        },
        Phase::ClearReadOnly => {
            if ok {
                redirect(state)
            } else {
                decline(state)
            }
        },
        Phase::Redirected => (state, ActionView::Finish { target: Some(state.candidate) }),
        Phase::Declined => (state, ActionView::Finish { target: None }),
    }
}

/// What a decision has come to: `None` while it is under way, else the
/// path to use instead, or `Some(None)` for "no redirection".
pub open spec fn outcome(state: RedirectView) -> Option<Option<Seq<u8>>> {
    match state.phase {
        Phase::Redirected => Some(Some(state.candidate)),
        Phase::Declined => Some(None),
        _ => None,
    }
}

/// The decision after the answers given so far.
pub open spec fn state_after(start: RedirectView, answers: Seq<bool>) -> RedirectView
    decreases answers.len(),
{
    if answers.len() == 0 {
        start
    } else {
        step(state_after(start, answers.drop_last()), answers.last()).0
    }
}

/// What a decision asks for after the answers given so far, `start` being
/// the decision and the request that it began with.
pub open spec fn action_after(start: (RedirectView, ActionView), answers: Seq<bool>) -> ActionView {
    if answers.len() == 0 {
        start.1
    } else {
        step(state_after(start.0, answers.drop_last()), answers.last()).1
    }
}

/// The request changes something on disk.
pub open spec fn is_write(action: ActionView) -> bool {
    action is CreateDirAll || action is Copy || action is ClearReadOnly
}

/// The number of answers that a decision in this phase may still need.
pub open spec fn steps_left(phase: Phase) -> nat {
    match phase {
        Phase::UpperExists => 6,
        Phase::LowerParentExists => 5,
        Phase::CreateUpperDirs => 4,
        Phase::LowerIsFile => 3,
        Phase::CopyUp => 2,
        Phase::ClearReadOnly => 1,
        Phase::Redirected => 0,
        Phase::Declined => 0,
    }
}

/// Begins the decision for a request of `path`, which means to write if
/// `write` is set, in the given context.
///
/// Returns the decision together with the first thing to do. A relative
/// path, a missing context, a context whose directories are not absolute
/// and a path outside the lower directory end the decision at once, with no
/// redirection. For every other request the first step asks whether the
/// counterpart exists.
pub fn redirect_path(config: Option<&Config>, path: &[u8], write: bool) -> (started: (
    Redirect,
    Action,
))
    ensures
        (started.0@, started.1@) == begin(context_of(config), path@, write),
{
    let rest = match config {
        Some(config) => {
            if is_relative(config.upper_dir.as_slice()) {
                None
            } else {
                strip_prefix(path, config.lower_dir.as_slice())
            }
        },
        None => None,
    };
    match (config, rest) {
        (Some(config), Some(rest)) => {
            let candidate = join(config.upper_dir.as_slice(), rest.as_slice());
            let first = Action::Exists { path: to_vec(candidate.as_slice()) };
            (Redirect { phase: Phase::UpperExists, path: to_vec(path), candidate, write }, first)
        },
        _ => (
            Redirect { phase: Phase::Declined, path: to_vec(path), candidate: Vec::new(), write },
            Action::Finish { target: None },
        ),
    }
}

impl Redirect {
    /// Takes the answer to the pending request and returns what to do next.
    pub fn advance(&mut self, ok: bool) -> (next: Action)
        ensures
            (final(self)@, next@) == step(old(self)@, ok),
    {
        match self.phase {
            Phase::UpperExists => {
                if ok {
                    self.finish(true)
                } else if !self.write {
                    self.finish(false)
                } else {
                    match parent(self.path.as_slice()) {
                        Some(lower_parent) => {
                            self.phase = Phase::LowerParentExists;
                            Action::Exists { path: lower_parent }
                        },
                        None => self.finish(false),
                    }
                }
            },
            Phase::LowerParentExists => {
                if !ok {
                    self.finish(true)
                } else {
                    match parent(self.candidate.as_slice()) {
                        Some(upper_parent) => {
                            self.phase = Phase::CreateUpperDirs;
                            Action::CreateDirAll { path: upper_parent }
                        },
                        None => self.finish(false),
                    }
                }
            },
            Phase::CreateUpperDirs => {
                if ok {
                    self.phase = Phase::LowerIsFile;
                    Action::IsFile { path: to_vec(self.path.as_slice()) }
                } else {
                    self.finish(false)
                }
            },
            Phase::LowerIsFile => {
                if ok {
                    self.phase = Phase::CopyUp;
                    Action::Copy {
                        from: to_vec(self.path.as_slice()),
                        to: to_vec(self.candidate.as_slice()),
                    }
                } else {
                    self.finish(true)
                }
            },
            Phase::CopyUp => {
                if ok {
                    self.phase = Phase::ClearReadOnly;
                    Action::ClearReadOnly { path: to_vec(self.candidate.as_slice()) }
                } else {
                    self.finish(false)
                }
            },
            Phase::ClearReadOnly => self.finish(ok),
            Phase::Redirected => Action::Finish { target: Some(to_vec(self.candidate.as_slice())) },
            Phase::Declined => Action::Finish { target: None },
        }
    }

    fn finish(&mut self, redirected: bool) -> (last: Action)
        ensures
            (final(self)@, last@) == if redirected {
                redirect(old(self)@)
            } else {
                decline(old(self)@)
            },
    {
        if redirected {
            self.phase = Phase::Redirected;
            Action::Finish { target: Some(to_vec(self.candidate.as_slice())) }
        } else {
            self.phase = Phase::Declined;
            Action::Finish { target: None }
        }
    }

    /// Tells whether the decision has ended.
    pub fn is_finished(&self) -> (finished: bool)
        ensures
            finished == (outcome(self@) is Some),
    {
        match self.phase {
            Phase::Redirected => true,
            Phase::Declined => true,
            _ => false,
        }
    }

    /// What the decision has come to: `None` while it is under way, else
    /// the path to use instead, or `Some(None)` for "no redirection".
    pub fn result(&self) -> (decided: Option<Option<Vec<u8>>>)
        ensures
            match decided {
                Some(target) => outcome(self@) == Some(bytes_of(target)),
                None => outcome(self@) is None,
            },
    {
        match self.phase {
            Phase::Redirected => Some(Some(to_vec(self.candidate.as_slice()))),
            Phase::Declined => Some(None),
            _ => None,
        }
    }
}

/// A request for an absolute path that does not lie under the lower
/// directory is never redirected, whatever it means to do.
pub proof fn lemma_outside_lower_declines(config: ConfigView, path: Seq<u8>, write: bool)
    requires
        is_absolute(path),
        !starts_with(path, config.lower_dir),
    ensures
        begin(Some(config), path, write) == declined(path, write),
        outcome(begin(Some(config), path, write).0) == Some(None::<Seq<u8>>),
{
}

/// A request for a relative path is never redirected, whatever the context
/// and whatever it means to do.
pub proof fn lemma_relative_declines(config: Option<ConfigView>, path: Seq<u8>, write: bool)
    requires
        !is_absolute(path),
    ensures
        begin(config, path, write) == declined(path, write),
        outcome(begin(config, path, write).0) == Some(None::<Seq<u8>>),
{
}

/// Without a context, and with a value for one that is not valid, no
/// request is redirected.
pub proof fn lemma_without_context_declines(
    config: Option<ConfigView>,
    path: Seq<u8>,
    write: bool,
)
    requires
        match config {
            Some(config) => !config.valid(),
            None => true,
        },
    ensures
        begin(config, path, write) == declined(path, write),
{
}

/// A request is eligible exactly if the context is valid and its path lies
/// at or under the lower directory, which only an absolute path does; its
/// counterpart is then the upper directory joined with the rest of the
/// path.
pub proof fn lemma_eligible(config: ConfigView, path: Seq<u8>)
    ensures
        counterpart(config, path) is Some <==> config.valid() && starts_with(
            path,
            config.lower_dir,
        ),
        starts_with(path, config.lower_dir) ==> is_absolute(path),
        counterpart(config, path) is Some ==> counterpart(config, path)->0 == joined(
            config.upper_dir,
            tail_after(path, names(config.lower_dir).len() as int),
        ),
{
}

/// The counterpart mirrors the path: it lies at or under the upper
/// directory, and below it it has the names that the path has below the
/// lower directory.
pub proof fn lemma_counterpart_names(config: ConfigView, path: Seq<u8>)
    requires
        config.valid(),
        starts_with(path, config.lower_dir),
    ensures
        is_absolute(counterpart(config, path)->0),
        starts_with(counterpart(config, path)->0, config.upper_dir),
        names(counterpart(config, path)->0) == names(config.upper_dir) + names(path).skip(
            names(config.lower_dir).len() as int,
        ),
{
    lemma_stripped_names(path, config.lower_dir);
    lemma_joined_names(config.upper_dir, stripped(path, config.lower_dir)->0);
}

/// A path that lies below the lower directory, and is not that directory
/// itself, has a parent at or under the lower directory; its counterpart
/// has a parent at or under the upper directory; and the second mirrors the
/// first. So the directory that copy-up creates is the counterpart of the
/// directory that holds the requested path.
pub proof fn lemma_parents_mirror(config: ConfigView, path: Seq<u8>)
    requires
        config.valid(),
        starts_with(path, config.lower_dir),
        names(path).len() > names(config.lower_dir).len(),
    ensures
        parent_of(path) is Some,
        parent_of(counterpart(config, path)->0) is Some,
        starts_with(parent_of(path)->0, config.lower_dir),
        starts_with(parent_of(counterpart(config, path)->0)->0, config.upper_dir),
        names(parent_of(counterpart(config, path)->0)->0) == names(config.upper_dir) + names(
            parent_of(path)->0,
        ).skip(names(config.lower_dir).len() as int),
{
    lemma_counterpart_names(config, path);
    lemma_parent_names(path);
    lemma_parent_names(counterpart(config, path)->0);
}

/// In every context, a request under the lower directory whose counterpart
/// exists is redirected to the counterpart, whether it means to write or
/// not, and nothing else is asked for.
pub proof fn lemma_existing_counterpart_is_used(config: ConfigView, path: Seq<u8>, write: bool)
    requires
        config.valid(),
        starts_with(path, config.lower_dir),
    ensures
        ({
            let start = begin(Some(config), path, write);
            let upper = counterpart(config, path);
            &&& upper is Some
            &&& start.1 == ActionView::Exists { path: upper->0 }
            &&& step(start.0, true).1 == ActionView::Finish { target: upper }
            &&& outcome(step(start.0, true).0) == Some(upper)
        }),
{
}

/// In every context, a request under the lower directory that only reads,
/// and whose counterpart does not exist, is not redirected.
pub proof fn lemma_read_without_counterpart_declines(config: ConfigView, path: Seq<u8>)
    requires
        config.valid(),
        starts_with(path, config.lower_dir),
    ensures
        ({
            let start = begin(Some(config), path, false);
            &&& start.1 == ActionView::Exists { path: counterpart(config, path)->0 }
            &&& step(start.0, false).1 == ActionView::Finish { target: None }
            &&& outcome(step(start.0, false).0) == Some(None::<Seq<u8>>)
        }),
{
}

/// Copy-up, step by step, in every context. A request that means to write,
/// under the lower directory, whose counterpart does not exist: once the
/// parent of the requested path is found, the counterpart's parent
/// directory is created; once the requested path is found to be a file, it
/// is copied to the counterpart and the copy is made writable; then the
/// request is redirected to the counterpart. Nothing else is asked for on
/// the way.
///
/// The requested path and its counterpart each need a parent for this.
/// Every path below the lower directory has both, as `lemma_parents_mirror`
/// shows; the lower directory itself may have neither.
pub proof fn lemma_copy_up(config: ConfigView, path: Seq<u8>)
    requires
        config.valid(),
        starts_with(path, config.lower_dir),
        parent_of(path) is Some,
        parent_of(counterpart(config, path)->0) is Some,
    ensures
        ({
            let start = begin(Some(config), path, true);
            let upper = counterpart(config, path)->0;
            &&& start.1 == ActionView::Exists { path: upper }
            &&& action_after(start, seq![false]) == ActionView::Exists {
                path: parent_of(path)->0,
            }
            &&& action_after(start, seq![false, true]) == ActionView::CreateDirAll {
                path: parent_of(upper)->0,
            }
            &&& action_after(start, seq![false, true, true]) == ActionView::IsFile { path }
            &&& action_after(start, seq![false, true, true, true]) == ActionView::Copy {
                from: path,
                to: upper,
            }
            &&& action_after(start, seq![false, true, true, true, true])
                == ActionView::ClearReadOnly { path: upper }
            &&& action_after(start, seq![false, true, true, true, true, true])
                == ActionView::Finish { target: Some(upper) }
            &&& outcome(state_after(start.0, seq![false, true, true, true, true, true])) == Some(
                Some(upper),
            )
        }),
{
    // Each list of answers is the one before it with one more answer.
    let a1 = seq![false];
    let a2 = seq![false, true];
    let a3 = seq![false, true, true];
    let a4 = seq![false, true, true, true];
    let a5 = seq![false, true, true, true, true];
    let a6 = seq![false, true, true, true, true, true];
    assert(a2.drop_last() =~= a1);
    assert(a3.drop_last() =~= a2);
    assert(a4.drop_last() =~= a3);
    assert(a5.drop_last() =~= a4);
    assert(a6.drop_last() =~= a5);
}

/// A step changes the phase of a decision and nothing else.
pub proof fn lemma_step_keeps_request(state: RedirectView, ok: bool)
    ensures
        step(state, ok).0.path == state.path,
        step(state, ok).0.candidate == state.candidate,
        step(state, ok).0.write == state.write,
        outcome(state) is Some ==> step(state, ok).0 == state,
        outcome(state) is None ==> steps_left(step(state, ok).0.phase) < steps_left(state.phase),
{
}

/// A decision that has ended stays as it is, whatever is answered.
pub proof fn lemma_finished_stays(start: RedirectView, answers: Seq<bool>)
    requires
        outcome(start) is Some,
    ensures
        state_after(start, answers) == start,
    decreases answers.len(),
{
    if answers.len() > 0 {
        lemma_finished_stays(start, answers.drop_last());
    }
}

/// Every decision ends: after six answers at the latest it has an outcome.
pub proof fn lemma_decision_ends(start: RedirectView, answers: Seq<bool>)
    ensures
        steps_left(state_after(start, answers).phase) + answers.len() <= steps_left(start.phase)
            || outcome(state_after(start, answers)) is Some,
        answers.len() >= 6 ==> outcome(state_after(start, answers)) is Some,
    decreases answers.len(),
{
    if answers.len() > 0 {
        lemma_decision_ends(start, answers.drop_last());
    }
}

/// Once the counterpart exists, a decision asks for nothing more: it
/// redirects at its first answer, and no request of it ever writes. A
/// second call for a path that was copied up therefore copies nothing.
pub proof fn lemma_existing_counterpart_is_left_alone(
    config: ConfigView,
    path: Seq<u8>,
    write: bool,
    answers: Seq<bool>,
)
    requires
        config.valid(),
        starts_with(path, config.lower_dir),
        answers.len() > 0 ==> answers[0],
    ensures
        !is_write(action_after(begin(Some(config), path, write), answers)),
        answers.len() > 0 ==> action_after(begin(Some(config), path, write), answers) == (
            ActionView::Finish { target: counterpart(config, path) }),
        answers.len() > 0 ==> outcome(state_after(begin(Some(config), path, write).0, answers))
            == Some(counterpart(config, path)),
    decreases answers.len(),
{
    if answers.len() > 1 {
        lemma_existing_counterpart_is_left_alone(config, path, write, answers.drop_last());
    }
}

/// A decision that has come as far as creating directories or copying has
/// found the counterpart absent and the parent of the requested path
/// present, for a request that means to write.
proof fn lemma_history(start: RedirectView, answers: Seq<bool>)
    requires
        start.phase == Phase::UpperExists || outcome(start) is Some,
    ensures
        ({
            let state = state_after(start, answers);
            &&& state.path == start.path
            &&& state.candidate == start.candidate
            &&& state.write == start.write
            &&& outcome(start) is Some ==> state == start
            &&& state.phase == Phase::UpperExists ==> answers.len() == 0
            &&& state.phase == Phase::LowerParentExists ==> answers.len() == 1 && !answers[0]
                && start.write
            &&& (state.phase == Phase::CreateUpperDirs || state.phase == Phase::LowerIsFile
                || state.phase == Phase::CopyUp || state.phase == Phase::ClearReadOnly)
                ==> answers.len() >= 2 && !answers[0] && answers[1] && start.write
        }),
    decreases answers.len(),
{
    if answers.len() > 0 {
        lemma_history(start, answers.drop_last());
    }
}

/// Nothing is written without cause. Whenever a decision asks for
/// something that changes the disk, the request means to write, its
/// counterpart was found absent and the parent of the requested path was
/// found present; and what is written is the counterpart or its parent
/// directory, and nothing else.
pub proof fn lemma_writes_are_warranted(
    config: Option<ConfigView>,
    path: Seq<u8>,
    write: bool,
    answers: Seq<bool>,
)
    requires
        is_write(action_after(begin(config, path, write), answers)),
    ensures
        write,
        answers.len() >= 2,
        !answers[0],
        answers[1],
        eligible(config, path) is Some,
        (match action_after(begin(config, path, write), answers) {
            ActionView::CreateDirAll { path: made } => Some(made) == parent_of(
                eligible(config, path)->0,
            ),
            ActionView::Copy { from, to } => from == path && to == eligible(config, path)->0,
            ActionView::ClearReadOnly { path: changed } => changed == eligible(config, path)->0,
            _ => false,
        }),
{
    lemma_history(begin(config, path, write).0, answers.drop_last());
}

/// What copy-up writes for a path below the lower directory lies at or
/// under the upper directory: the counterpart, and the directory that holds
/// it. (For the lower directory itself the directory made is the one that
/// holds the upper directory.)
pub proof fn lemma_writes_stay_in_upper(
    config: ConfigView,
    path: Seq<u8>,
    write: bool,
    answers: Seq<bool>,
)
    requires
        is_write(action_after(begin(Some(config), path, write), answers)),
        names(path).len() > names(config.lower_dir).len(),
    ensures
        (match action_after(begin(Some(config), path, write), answers) {
            ActionView::CreateDirAll { path: made } => starts_with(made, config.upper_dir),
            ActionView::Copy { from, to } => from == path && starts_with(to, config.upper_dir),
            ActionView::ClearReadOnly { path: changed } => starts_with(changed, config.upper_dir),
            _ => false,
        }),
{
    lemma_writes_are_warranted(Some(config), path, write, answers);
    lemma_eligible(config, path);
    lemma_counterpart_names(config, path);
    lemma_parents_mirror(config, path);
}

} // verus!

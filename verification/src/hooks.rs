//! The intercepted calls, and what each of them means to do.
//!
//! Every intercepted call that names a path is held against the redirect
//! decision with a write intent of its own: a call that may change or create
//! what it names has its target copied up first, a call that only looks does
//! not. The decision, and the work that it asks for, run guarded; the call
//! that is finally handed on does not.

use vstd::prelude::*;
use crate::config::{Config, ConfigView, context_of};
use crate::guard::ReentrancyFlag;
use crate::redir::{
    action_after, begin, declined, is_write, lemma_finished_stays, lemma_writes_are_warranted,
    outcome, redirect_path, state_after, step, Action, ActionView, Redirect, RedirectView,
};

verus! {

/// The open flag "write only", as Linux has it.
pub const O_WRONLY: i32 = 0x0001;

/// The open flag "read and write", as Linux has it.
pub const O_RDWR: i32 = 0x0002;

/// The open flag "create the file if it is missing", as Linux has it.
pub const O_CREAT: i32 = 0x0040;

/// The character `r`, with which the mode of a stream open that reads
/// begins.
pub const MODE_READ: u8 = 0x72;

/// The character `+`, which in the mode of a stream open asks for reading
/// and writing both.
pub const MODE_UPDATE: u8 = 0x2b;

/// An open with these flags means to write: one of the bits for write
/// only, for read and write, or for create is set.
pub open spec fn open_writes(flags: i32) -> bool {
    flags & (O_RDWR | O_WRONLY | O_CREAT) != 0
}

/// A stream open with this mode means to write, unless the mode only
/// reads: it begins with `r` and holds no `+`. So `r` and `rb` read, and
/// `r+`, `w`, `a` and the empty mode count as writing.
pub open spec fn stream_open_writes(mode: Seq<u8>) -> bool {
    !(mode.len() > 0 && mode[0] == MODE_READ && !mode.contains(MODE_UPDATE))
}

/// An intercepted call that names a path.
#[derive(Debug)]
pub enum Call {
    /// `open`, `open64` or `openat`, with its flags.
    Open { flags: i32 },
    /// `fopen`, with its mode string.
    StreamOpen { mode: Vec<u8> },
    /// `mkdir`.
    MakeDir,
    /// `stat` or `lstat`.
    Stat,
    /// `opendir`.
    OpenDir,
}

/// A `Call` as plain values.
pub enum CallView {
    Open { flags: i32 },
    StreamOpen { mode: Seq<u8> },
    MakeDir,
    Stat,
    OpenDir,
}

impl View for Call {
    type V = CallView;

    open spec fn view(&self) -> CallView {
        match *self {
            Call::Open { flags } => CallView::Open { flags },
            Call::StreamOpen { mode } => CallView::StreamOpen { mode: mode@ },
            Call::MakeDir => CallView::MakeDir,
            Call::Stat => CallView::Stat,
            Call::OpenDir => CallView::OpenDir,
        }
    }
}

/// Whether a call means to write: an open by its flags, a stream open by
/// its mode, the creation of a directory always, and a call that looks at
/// metadata or lists a directory never.
pub open spec fn writes(call: CallView) -> bool {
    match call {
        CallView::Open { flags } => open_writes(flags),
        CallView::StreamOpen { mode } => stream_open_writes(mode),
        CallView::MakeDir => true,
        CallView::Stat => false,
        CallView::OpenDir => false,
    }
}

/// The write intent of an open with the given flags.
pub fn open_write_intent(flags: i32) -> (write: bool)
    ensures
        write == open_writes(flags),
{
    (flags & (O_RDWR | O_WRONLY | O_CREAT)) != 0
}

/// The write intent of a stream open with the given mode.
pub fn fopen_write_intent(mode: &[u8]) -> (write: bool)
    ensures
        write == stream_open_writes(mode@),
{
    if mode.len() == 0 || mode[0] != MODE_READ {
        return true;
    }
    let mut i: usize = 1;
    while i < mode.len()
        invariant
            1 <= i <= mode.len(),
            mode@[0] == MODE_READ,
            forall|k: int| 0 <= k < i ==> mode@[k] != MODE_UPDATE,
        decreases mode.len() - i,
    {
        if mode[i] == MODE_UPDATE {
            return true;
        }
        i += 1;
    }
    false
}

/// The write intent of an intercepted call.
pub fn write_intent(call: &Call) -> (write: bool)
    ensures
        write == writes(call@),
{
    match call {
        Call::Open { flags } => open_write_intent(*flags),
        Call::StreamOpen { mode } => fopen_write_intent(mode.as_slice()),
        Call::MakeDir => true,
        Call::Stat => false,
        Call::OpenDir => false,
    }
}

/// An open means to write exactly if one of the three bits is set, whatever
/// else is: write only, read and write, or create.
pub proof fn lemma_open_writes(flags: i32)
    ensures
        open_writes(flags) <==> (flags & O_WRONLY != 0 || flags & O_RDWR != 0 || flags & O_CREAT
            != 0),
        !open_writes(0),
{
    assert((flags & (0x0002i32 | 0x0001i32 | 0x0040i32) != 0) <==> (flags & 0x0001i32 != 0 || flags
        & 0x0002i32 != 0 || flags & 0x0040i32 != 0)) by (bit_vector);
    assert(0i32 & (0x0002i32 | 0x0001i32 | 0x0040i32) == 0) by (bit_vector);
}

/// A stream open that begins with `r` reads only, whatever follows, unless
/// a `+` follows; every mode that begins otherwise counts as writing.
pub proof fn lemma_stream_open_writes(mode: Seq<u8>)
    ensures
        mode.len() == 0 || mode[0] != MODE_READ ==> stream_open_writes(mode),
        mode.len() > 0 && mode[0] == MODE_READ ==> (stream_open_writes(mode) <==> exists|i: int|
            0 <= i < mode.len() && mode[i] == MODE_UPDATE),
{
}

/// How the decision for an intercepted call begins: on a thread that is
/// guarded already it has ended, with no redirection; on any other thread it
/// is the redirect decision for the path, with the write intent of the call.
pub open spec fn intercepted(
    call: CallView,
    guarded: bool,
    config: Option<ConfigView>,
    path: Seq<u8>,
) -> (RedirectView, ActionView) {
    if guarded {
        declined(path, writes(call))
    } else {
        begin(config, path, writes(call))
    }
}

/// The flag after a step of a decision: the step that ends the decision
/// clears it, and no other step touches it.
pub open spec fn guard_after_step(guarded: bool, before: RedirectView, after: RedirectView) -> bool {
    if outcome(before) is None && outcome(after) is Some {
        false
    } else {
        guarded
    }
}

/// The flag after the answers given so far to a decision that `intercept`
/// began on a thread that was not guarded.
pub open spec fn guard_after(start: RedirectView, answers: Seq<bool>) -> bool
    decreases answers.len(),
{
    if answers.len() == 0 {
        outcome(start) is None
    } else {
        guard_after_step(
            guard_after(start, answers.drop_last()),
            state_after(start, answers.drop_last()),
            state_after(start, answers),
        )
    }
}

/// Begins the redirect decision for an intercepted call of `path`, on the
/// thread whose flag is `flag`.
///
/// On a thread that is guarded already the call is left alone: the decision
/// has ended at once, and the flag stays set. Otherwise the decision begins
/// as `redirect_path` has it, and the flag is set for as long as it is
/// under way.
pub fn intercept(
    call: &Call,
    flag: &mut ReentrancyFlag,
    config: Option<&Config>,
    path: &[u8],
) -> (started: (Redirect, Action))
    ensures
        (started.0@, started.1@) == intercepted(call@, old(flag)@, context_of(config), path@),
        final(flag)@ == (old(flag)@ || outcome(started.0@) is None),
{
    let write = write_intent(call);
    if flag.enter() {
        let started = redirect_path(config, path, write);
        if started.0.is_finished() {
            flag.leave();
        }
        started
    } else {
        redirect_path(None, path, write)
    }
}

/// Takes the answer to the pending request of a decision that `intercept`
/// began, and returns what to do next. The step that ends the decision
/// clears the flag.
pub fn proceed(decision: &mut Redirect, flag: &mut ReentrancyFlag, ok: bool) -> (next: Action)
    ensures
        (final(decision)@, next@) == step(old(decision)@, ok),
        final(flag)@ == guard_after_step(old(flag)@, old(decision)@, final(decision)@),
{
    let was_finished = decision.is_finished();
    let next = decision.advance(ok);
    if !was_finished && decision.is_finished() {
        flag.leave();
    }
    next
}

/// The guard spans the decision and nothing else: from `intercept` on a
/// thread that was not guarded, the flag is set exactly as long as the
/// decision is under way, so it is set while the work that the decision asks
/// for is done, and it is clear again when the call is handed on.
pub proof fn lemma_guard_spans_decision(
    call: CallView,
    config: Option<ConfigView>,
    path: Seq<u8>,
    answers: Seq<bool>,
)
    ensures
        guard_after(intercepted(call, false, config, path).0, answers) == (outcome(
            state_after(intercepted(call, false, config, path).0, answers),
        ) is None),
    decreases answers.len(),
{
    if answers.len() > 0 {
        lemma_guard_spans_decision(call, config, path, answers.drop_last());
    }
}

/// On a thread that is guarded already nothing is looked at and nothing is
/// redirected, whatever the call, the context and the path.
pub proof fn lemma_guarded_thread_declines(
    call: CallView,
    config: Option<ConfigView>,
    path: Seq<u8>,
)
    ensures
        intercepted(call, true, config, path).1 == (ActionView::Finish { target: None }),
        outcome(intercepted(call, true, config, path).0) == Some(None::<Seq<u8>>),
{
}

/// A call that looks at metadata or lists a directory never has anything
/// copied up: its decision asks for nothing that writes.
pub proof fn lemma_reading_calls_never_write(
    call: CallView,
    guarded: bool,
    config: Option<ConfigView>,
    path: Seq<u8>,
    answers: Seq<bool>,
)
    requires
        call is Stat || call is OpenDir,
    ensures
        !is_write(action_after(intercepted(call, guarded, config, path), answers)),
{
    if !guarded {
        if is_write(action_after(begin(config, path, false), answers)) {
            lemma_writes_are_warranted(config, path, false, answers);
        }
    } else {
        lemma_finished_stays(declined(path, false).0, answers.drop_last());
    }
}

} // verus!

//! The reentrancy guard.
//!
//! While a redirect decision is being made, and while the copy-up that it
//! asks for is being carried out, the file-system calls made on its behalf
//! must not themselves be redirected. The flag marks that stretch. Each
//! thread has a flag of its own, and whoever runs on the thread hands it on
//! to what it calls.

use vstd::prelude::*;

verus! {

/// The mark of a thread: set while a guarded evaluation runs on it.
#[derive(Debug)]
pub struct ReentrancyFlag {
    active: bool,
}

impl View for ReentrancyFlag {
    type V = bool;

    closed spec fn view(&self) -> bool {
        self.active
    }
}

impl ReentrancyFlag {
    /// The flag of a thread that has just started: not set.
    pub fn new() -> (flag: ReentrancyFlag)
        ensures
            !flag@,
    {
        ReentrancyFlag { active: false }
    }

    /// Tells whether a guarded evaluation is running.
    pub fn is_active(&self) -> (active: bool)
        ensures
            active == self@,
    {
        self.active
    }

    /// Begins a guarded evaluation. Returns `false`, and changes nothing,
    /// where one is running already.
    pub fn enter(&mut self) -> (entered: bool)
        ensures
            entered == !old(self)@,
            final(self)@,
    {
        if self.active {
            false
        } else {
            self.active = true;
            true
        }
    }

    /// Ends the guarded evaluation that `enter` began.
    pub fn leave(&mut self)
        ensures
            !final(self)@,
    {
        self.active = false;
    }
}

/// Runs `call` guarded, or hands back `default_` where the thread is guarded
/// already.
///
/// The flag of the thread goes in and comes back. Where it is not set, it
/// is set, handed to `call` for as long as `call` runs, and cleared when
/// `call` has handed it back; so it comes back as it went in. Whatever
/// `call` guards in turn with the flag that it holds is not run: it gets
/// its own default. `call` needs to be callable with a flag that is set,
/// and only where the flag that goes in is not.
pub fn with_reentrancy_guard<R, F: FnOnce(ReentrancyFlag) -> (ReentrancyFlag, R)>(
    flag: ReentrancyFlag,
    default_: R,
    call: F,
) -> (out: (ReentrancyFlag, R))
    requires
        !flag@ ==> forall|set: ReentrancyFlag| set@ ==> call.requires((set,)),
    ensures
        out.0@ == flag@,
        flag@ ==> out.1 == default_,
        !flag@ ==> exists|set: ReentrancyFlag, back: ReentrancyFlag|
            set@ && #[trigger] call.ensures((set,), (back, out.1)),
{
    let mut mine = flag;
    if mine.enter() {
        let ghost set = mine;
        let (handed_back, ret) = call(mine);
        let ghost witness = handed_back;
        let mut back = handed_back;
        back.leave();
        let out = (back, ret);
        assert(exists|set: ReentrancyFlag, back: ReentrancyFlag|
            set@ && #[trigger] call.ensures((set,), (back, out.1))) by {
            assert(set@ && call.ensures((set,), (witness, out.1)));
        }
        out
    } else {
        (mine, default_)
    }
}

} // verus!

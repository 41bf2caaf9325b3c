//! A guard that runs an action when it goes out of scope.

use vstd::prelude::*;

verus! {

/// Holds an action and runs it once when the guard is dropped, on whatever
/// path the scope is left. A guard whose action was taken out runs nothing.
///
/// The action must not fail: containing a failure is up to the one who wrote
/// the action. A guard can only be made around an action that may be called.
pub struct DeferGuard<F: FnOnce()>(Option<F>);

/// Calls `Option::take`, which hands out what the option held and leaves
/// `None` in its place. It does not unwind.
#[verifier::external_body]
fn take_action<F: FnOnce()>(slot: &mut Option<F>) -> (action: Option<F>)
    ensures
        action == *old(slot),
        *final(slot) is None,
    opens_invariants none
    no_unwind
{
    slot.take()
}

/// Calls the action that the guard was given. What is taken on trust is that
/// the action does what it promises and neither unwinds nor opens an
/// invariant, as whoever wrote it owes.
#[verifier::external_body]
fn call_action<F: FnOnce()>(action: F) -> (done: ())
    requires
        action.requires(()),
    ensures
        action.ensures((), done),
    opens_invariants none
    no_unwind
{
    action()
}

impl<F: FnOnce()> DeferGuard<F> {
    /// The action of a guard may be called for as long as the guard holds it.
    #[verifier::type_invariant]
    spec fn callable(self) -> bool {
        self.0 matches Some(action) ==> action.requires(())
    }

    /// The action that is still to run, if there is one.
    pub closed spec fn action(&self) -> Option<F> {
        self.0
    }

    /// Whether the action is still to run.
    pub open spec fn armed(&self) -> bool {
        self.action() is Some
    }

    /// A guard that will run `action` when it is dropped.
    pub fn new(action: F) -> (guard: Self)
        requires
            action.requires(()),
        ensures
            guard.action() == Some(action),
            guard.armed(),
    {
        DeferGuard(Some(action))
    }

    /// Whether the action is still to run.
    pub fn is_armed(&self) -> (armed: bool)
        ensures
            armed == self.armed(),
    {
        self.0.is_some()
    }

    /// Takes the action out of the guard without running it: dropping the
    /// guard then does nothing.
    pub fn release(&mut self) -> (action: Option<F>)
        ensures
            action == old(self).action(),
            !final(self).armed(),
        opens_invariants none
        no_unwind
    {
        take_action(&mut self.0)
    }

    /// Runs the action if it is still there, and leaves the guard empty, so
    /// that the action cannot run a second time.
    pub fn run(&mut self)
        ensures
            !final(self).armed(),
            old(self).action() matches Some(action) ==> action.ensures((), ()),
        opens_invariants none
        no_unwind
    {
        proof {
            use_type_invariant(&*self);
        }
        match take_action(&mut self.0) {
            Some(action) => call_action(action),
            None => {},
        }
    }
}

impl<F: FnOnce()> Drop for DeferGuard<F> {
    /// Runs the action if the guard still holds it: once, at the end of the
    /// scope, however the scope is left. A guard that was released, or has
    /// run already, does nothing.
    fn drop(&mut self)
        ensures
            !final(self).armed(),
            old(self).action() matches Some(action) ==> action.ensures((), ()),
        opens_invariants none
        no_unwind
    {
        self.run()
    }
}

} // verus!

//! Host functions whose implementation can be exchanged, for instance by a test.
use vstd::prelude::*;

verus! {

/// Whether an exchangeable function runs the implementation it was created with.
#[derive(Clone, Copy, Debug, PartialEq, Eq, Structural)]
pub enum ExchangeableFunctionState {
    /// The implementation it was created with is in use.
    Native,
    /// The function has been replaced.
    Replaced,
}

/// A function whose implementation can be exchanged.
pub struct ExchangeableFunction<T> {
    current: T,
    state: ExchangeableFunctionState,
    /// Identifies the function, so that a guard goes back to the function that
    /// handed it out. `new` promises nothing of it; callers learn it only
    /// through the guard that `replace_implementation` returns, so a verified
    /// caller can restore a guard only into the function it came from.
    owner: Ghost<int>,
}

/// Holds the implementation that a replacement displaced, until it is put
/// back into the function it came from.
pub struct RestoreImplementation<T> {
    orig: T,
    owner: Ghost<int>,
}

impl<T: Copy> ExchangeableFunction<T> {
    /// The implementation in use.
    pub closed spec fn implementation(&self) -> T {
        self.current
    }

    /// Whether the implementation in use replaced the one the function was created with.
    pub closed spec fn is_replaced(&self) -> bool {
        self.state == ExchangeableFunctionState::Replaced
    }

    /// The identity of the function.
    pub closed spec fn owner(&self) -> int {
        self.owner@
    }

    /// The function after its implementation was replaced by `new_impl`.
    pub closed spec fn replaced_by(self, new_impl: T) -> Self {
        ExchangeableFunction { current: new_impl, state: ExchangeableFunctionState::Replaced, ..self }
    }

    /// The guard that a replacement hands out: the displaced implementation,
    /// bound to this function.
    pub closed spec fn guard(self) -> RestoreImplementation<T> {
        RestoreImplementation { orig: self.current, owner: self.owner }
    }

    /// The function after `orig` was put back.
    pub closed spec fn restored(self, orig: T) -> Self {
        ExchangeableFunction { current: orig, state: ExchangeableFunctionState::Native, ..self }
    }

    /// A function created with the implementation `impl_`.
    pub fn new(impl_: T) -> (f: Self)
        ensures
            f.implementation() == impl_,
            !f.is_replaced(),
    {
        ExchangeableFunction { current: impl_, state: ExchangeableFunctionState::Native, owner: Ghost(0) }
    }

    /// Replaces the implementation with `new_impl` and hands back the displaced one,
    /// wrapped to be put back later. An implementation that was already replaced
    /// cannot be replaced again.
    pub fn replace_implementation(&mut self, new_impl: T) -> (restore: RestoreImplementation<T>)
        requires
            !old(self).is_replaced(),
        ensures
            *final(self) == old(self).replaced_by(new_impl),
            restore == old(self).guard(),
            final(self).implementation() == new_impl,
            final(self).is_replaced(),
            restore.saved() == old(self).implementation(),
            restore.owner() == old(self).owner(),
            final(self).owner() == old(self).owner(),
    {
        let old = self.current;
        self.current = new_impl;
        self.state = ExchangeableFunctionState::Replaced;
        RestoreImplementation { orig: old, owner: self.owner }
    }

    /// Puts `orig` back as the implementation in use.
    fn restore_orig_implementation(&mut self, orig: T)
        ensures
            *final(self) == old(self).restored(orig),
    {
        self.current = orig;
        self.state = ExchangeableFunctionState::Native;
    }

    /// The implementation in use.
    pub fn get(&self) -> (t: T)
        ensures
            t == self.implementation(),
    {
        self.current
    }
}

impl<T: Copy> RestoreImplementation<T> {
    /// The implementation to put back.
    pub closed spec fn saved(&self) -> T {
        self.orig
    }

    /// The function that the guard belongs to.
    pub closed spec fn owner(&self) -> int {
        self.owner@
    }

    /// Puts the held implementation back into `f`, the function it came from.
    pub fn restore(self, f: &mut ExchangeableFunction<T>)
        requires
            old(f).owner() == self.owner(),
        ensures
            *final(f) == old(f).restored(self.saved()),
            final(f).implementation() == self.saved(),
            !final(f).is_replaced(),
            final(f).owner() == old(f).owner(),
    {
        f.restore_orig_implementation(self.orig);
    }
}

/// Whether a plugin run was a success: the host reports success as status zero.
pub fn plugin_accepted(status: u32) -> (ok: bool)
    ensures
        ok == (status == 0),
{
    status == 0
}

/// Replacing the implementation of a function that is not replaced, and
/// putting back the guard that `replace_implementation` handed out, leaves
/// the function exactly as it was: the next replacement is allowed again.
/// So over any sequence of replacements each followed by the restore of its
/// guard, at most one guard is out at a time, the function runs the
/// replacement while the guard is out, and it runs the implementation it was
/// created with whenever no guard is out.
pub proof fn replace_then_restore_is_identity<T: Copy>(f: ExchangeableFunction<T>, g: T)
    requires
        !f.is_replaced(),
    ensures
        f.replaced_by(g).implementation() == g,
        f.replaced_by(g).is_replaced(),
        f.guard().owner() == f.replaced_by(g).owner(),
        f.replaced_by(g).restored(f.guard().saved()) == f,
        !f.replaced_by(g).restored(f.guard().saved()).is_replaced(),
{
}

/// The sequence of two replacements, each restored before the next: after
/// both the function is as it started, and during each the replacement runs.
pub proof fn replacements_in_sequence<T: Copy>(f: ExchangeableFunction<T>, g1: T, g2: T)
    requires
        !f.is_replaced(),
    ensures
        ({
            let f1 = f.replaced_by(g1);
            let f2 = f1.restored(f.guard().saved());
            let f3 = f2.replaced_by(g2);
            let f4 = f3.restored(f2.guard().saved());
            &&& f1.implementation() == g1
            &&& f2 == f
            &&& f3.implementation() == g2
            &&& f4 == f
            &&& f4.implementation() == f.implementation()
        }),
{
}

} // verus!

//! The optimizer's state-space interface.
//!
//! A candidate type offers a step to a nearby candidate; the annealing loop
//! itself weighs candidates with floating-point energies and so lives with
//! the unverified callers of this crate.

use vstd::prelude::*;

verus! {

/// A candidate that can propose a randomly perturbed nearby candidate.
pub trait Neighbor: Sized {
    /// A nearby candidate, usually differing in one random element.
    fn neighbor(&self) -> Self;
}

/// A visit callback that does nothing: the default observer of an
/// optimization run.
pub fn default_cb<T>(_t: &T) {
}

} // verus!

//! An entity-component-system core: archetype storage, latches, access
//! validation, queries and a phase-based scheduler, modelled as sequential
//! state machines whose every step is verified.

use vstd::prelude::*;

pub mod app;
pub mod component;
pub mod entity;
pub mod future;
pub mod query;
pub mod resource;
pub mod schedule;
pub mod system;
pub mod util;
pub mod world;

verus! {

/// The outcome of one non-blocking attempt.
pub enum Poll<T> {
    /// The attempt finished with a value.
    Ready(T),
    /// The attempt could not finish now and changed nothing; it may be repeated.
    Pending,
}

impl<T> Poll<T> {
    /// Whether the attempt finished.
    pub fn is_ready(&self) -> (b: bool)
        ensures
            b == (self is Ready),
    {
        match self {
            Poll::Ready(_) => true,
            Poll::Pending => false,
        }
    }

    /// Whether the attempt has to be repeated.
    pub fn is_pending(&self) -> (b: bool)
        ensures
            b == (self is Pending),
    {
        match self {
            Poll::Ready(_) => false,
            Poll::Pending => true,
        }
    }
}

} // verus!

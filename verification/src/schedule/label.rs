//! Labels: the keys under which systems are scheduled.

use vstd::prelude::*;

verus! {

/// A label that groups systems to be run together. Two labels are the
/// same label exactly when their ids are equal: the id is a function of
/// the value, so that two values of one type are two labels, and an
/// application gives every label value of every type an id of its own.
/// The ids below `FIRST_FREE_LABEL` belong to the labels of this crate.
pub trait ScheduleLabel {
    /// The id of the label.
    spec fn spec_label_id(&self) -> u64;

    /// The id of the label.
    fn label_id(&self) -> (id: u64)
        ensures
            id == self.spec_label_id(),
    ;
}

/// The id of [`Always`].
pub const ALWAYS: u64 = 0;

/// The id of [`PreStartup`].
pub const PRE_STARTUP: u64 = 1;

/// The id of [`Startup`].
pub const STARTUP: u64 = 2;

/// The id of [`Cycle`].
pub const CYCLE: u64 = 3;

/// The id of [`Shutdown`].
pub const SHUTDOWN: u64 = 4;

/// The id of [`PostShutdown`].
pub const POST_SHUTDOWN: u64 = 5;

/// The first id that a label of an application can take.
pub const FIRST_FREE_LABEL: u64 = 6;

/// The schedule that runs and loops for as long as the application lives,
/// through every phase.
#[derive(PartialEq, Eq, Clone, Copy, Debug, Structural)]
pub struct Always;

impl ScheduleLabel for Always {
    open spec fn spec_label_id(&self) -> u64 {
        ALWAYS
    }

    fn label_id(&self) -> (id: u64) {
        ALWAYS
    }
}

/// The schedule that runs first. Every system of it has completed before
/// the application goes on to [`Startup`].
#[derive(PartialEq, Eq, Clone, Copy, Debug, Structural)]
pub struct PreStartup;

impl ScheduleLabel for PreStartup {
    open spec fn spec_label_id(&self) -> u64 {
        PRE_STARTUP
    }

    fn label_id(&self) -> (id: u64) {
        PRE_STARTUP
    }
}

/// The schedule that runs once after [`PreStartup`] has completed,
/// alongside [`Cycle`].
#[derive(PartialEq, Eq, Clone, Copy, Debug, Structural)]
pub struct Startup;

impl ScheduleLabel for Startup {
    open spec fn spec_label_id(&self) -> u64 {
        STARTUP
    }

    fn label_id(&self) -> (id: u64) {
        STARTUP
    }
}

/// The schedule that runs and loops after [`PreStartup`] has completed,
/// until the application begins to exit.
#[derive(PartialEq, Eq, Clone, Copy, Debug, Structural)]
pub struct Cycle;

impl ScheduleLabel for Cycle {
    open spec fn spec_label_id(&self) -> u64 {
        CYCLE
    }

    fn label_id(&self) -> (id: u64) {
        CYCLE
    }
}

/// The schedule that runs when the application begins to exit.
#[derive(PartialEq, Eq, Clone, Copy, Debug, Structural)]
pub struct Shutdown;

impl ScheduleLabel for Shutdown {
    open spec fn spec_label_id(&self) -> u64 {
        SHUTDOWN
    }

    fn label_id(&self) -> (id: u64) {
        SHUTDOWN
    }
}

/// The schedule that runs after the application has begun to exit and
/// every other system has completed.
#[derive(PartialEq, Eq, Clone, Copy, Debug, Structural)]
pub struct PostShutdown;

impl ScheduleLabel for PostShutdown {
    open spec fn spec_label_id(&self) -> u64 {
        POST_SHUTDOWN
    }

    fn label_id(&self) -> (id: u64) {
        POST_SHUTDOWN
    }
}

} // verus!

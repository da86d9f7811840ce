//! Conditions: systems that say whether another system runs.

use vstd::prelude::*;

verus! {

/// A system of the kind `C` that returns `true` or `false` and gates
/// another system.
pub struct ConditionSystemConfig<C> {
    run: C,
}

impl<C> ConditionSystemConfig<C> {
    /// The condition system.
    pub closed spec fn view(&self) -> C {
        self.run
    }

    /// The condition system, to look at.
    pub fn system(&self) -> (run: &C)
        ensures
            *run == self@,
    {
        &self.run
    }

    /// The condition system, to run.
    pub fn system_mut(&mut self) -> (run: &mut C)
        ensures
            *run == old(self)@,
            final(self)@ == *final(run),
    {
        &mut self.run
    }
}

/// What can be turned into a condition.
pub trait IntoConditionSystemConfig<C>: Sized {
    /// The condition that `self` stands for.
    spec fn spec_condition(self) -> C;

    /// Turns `self` into a condition.
    fn into_condition_system_config(self) -> (config: ConditionSystemConfig<C>)
        ensures
            config@ == self.spec_condition(),
    ;
}

impl<C> IntoConditionSystemConfig<C> for ConditionSystemConfig<C> {
    open spec fn spec_condition(self) -> C {
        self@
    }

    fn into_condition_system_config(self) -> (config: ConditionSystemConfig<C>) {
        self
    }
}

/// Makes a condition of a system that returns `true` or `false`.
pub fn condition<C>(run: C) -> (config: ConditionSystemConfig<C>)
    ensures
        config@ == run,
{
    ConditionSystemConfig { run }
}

} // verus!

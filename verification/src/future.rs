//! Futures that know of the world.

use vstd::prelude::*;
use crate::world::World;
use crate::Poll;

verus! {

/// A task that is given up as soon as the application begins to exit.
pub struct UntilExitFuture<F> {
    fut: F,
}

impl<F> UntilExitFuture<F> {
    /// The task.
    pub closed spec fn task(&self) -> F {
        self.fut
    }

    /// The task `fut`, to be given up when the application begins to exit.
    pub fn new(fut: F) -> (future: Self)
        ensures
            future.task() == fut,
    {
        UntilExitFuture { fut }
    }

    /// One poll: nothing, at once, when the application is exiting; else
    /// what one poll of the task brings.
    pub fn poll<V, T>(&self, world: &World<V>) -> (res: Poll<Option<T>>) where F: Fn() -> Poll<T>
        requires
            self.task().requires(()),
        ensures
            world.spec_is_exiting() ==> res == Poll::Ready(None::<T>),
            !world.spec_is_exiting() ==> match res {
                Poll::Ready(Some(out)) => self.task().ensures((), Poll::Ready(out)),
                Poll::Ready(None) => false,
                Poll::Pending => self.task().ensures((), Poll::<T>::Pending),
            },
    {
        if world.is_exiting() {
            Poll::Ready(None)
        } else {
            match (self.fut)() {
                Poll::Ready(out) => Poll::Ready(Some(out)),
                Poll::Pending => Poll::Pending,
            }
        }
    }
}

} // verus!

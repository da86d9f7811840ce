//! Small state machines that stand for futures: a call that is repeated,
//! and a set of tasks that is waited for.

use vstd::prelude::*;
use crate::Poll;

verus! {

/// A future that is polled by calling a function.
pub struct FunctionCallFuture<F> {
    f: F,
}

impl<F> FunctionCallFuture<F> {
    /// The function.
    pub closed spec fn function(&self) -> F {
        self.f
    }

    /// The future that is polled by calling `f`.
    pub fn new(f: F) -> (future: Self)
        ensures
            future.function() == f,
    {
        FunctionCallFuture { f }
    }

    /// Polls the future: calls the function once.
    pub fn poll<T>(&self) -> (res: Poll<T>) where F: Fn() -> Poll<T>
        requires
            self.function().requires(()),
        ensures
            self.function().ensures((), res),
    {
        (self.f)()
    }
}

/// A set of tasks that is complete when each of them is: the outputs come
/// out together, in the order of the tasks.
pub struct VecMultijoinFuture<T> {
    futures: Option<Vec<Option<T>>>,
}

/// Whether every task has its output.
pub open spec fn all_done<T>(outputs: Seq<Option<T>>) -> bool {
    forall|i: int| 0 <= i < outputs.len() ==> (#[trigger] outputs[i]) is Some
}

/// The outputs after a poll: a task that had none takes the one that the
/// poll brought, if it brought one.
pub open spec fn merged<T>(outputs: Seq<Option<T>>, polled: Seq<Option<T>>) -> Seq<Option<T>> {
    Seq::new(
        outputs.len(),
        |i: int|
            if outputs[i] is None && i < polled.len() {
                polled[i]
            } else {
                outputs[i]
            },
    )
}

/// The outputs of tasks that are all done.
pub open spec fn unwrapped<T>(outputs: Seq<Option<T>>) -> Seq<T> {
    Seq::new(outputs.len(), |i: int| outputs[i]->0)
}

impl<T> VecMultijoinFuture<T> {
    /// The output of each task so far, `None` once the outputs were handed out.
    pub closed spec fn view(&self) -> Option<Seq<Option<T>>> {
        match self.futures {
            Some(outputs) => Some(outputs@),
            None => None,
        }
    }

    /// The future of `count` tasks, none of which is done.
    pub fn new(count: usize) -> (future: Self)
        ensures
            future@ == Some(Seq::new(count as nat, |i: int| None::<T>)),
    {
        let mut outputs: Vec<Option<T>> = Vec::new();
        let mut i: usize = 0;
        while i < count
            invariant
                i <= count,
                outputs@ == Seq::new(i as nat, |i: int| None::<T>),
            decreases count - i,
        {
            outputs.push(None);
            assert(outputs@ =~= Seq::new((i + 1) as nat, |i: int| None::<T>));
            i += 1;
        }
        VecMultijoinFuture { futures: Some(outputs) }
    }

    /// One poll: `polled` holds, for each task that was not done, the
    /// output that it has produced since, if any. The future is ready when
    /// every task is done, and it is ready once.
    pub fn poll(&mut self, polled: Vec<Option<T>>) -> (res: Poll<Vec<T>>)
        requires
            old(self)@ is Some,
        ensures
            res is Ready == all_done(merged(old(self)@->0, polled@)),
            res matches Poll::Ready(outputs) ==> outputs@ == unwrapped(
                merged(old(self)@->0, polled@),
            ) && final(self)@ is None,
            res is Pending ==> final(self)@ == Some(merged(old(self)@->0, polled@)),
    {
        let mut outputs = self.futures.take().unwrap();
        let mut polled = polled;
        let ghost start = outputs@;
        let ghost brought = polled@;
        let n = outputs.len();
        let mut done = true;
        let mut i: usize = 0;
        while i < n
            invariant
                i <= n,
                n == outputs@.len(),
                n == start.len(),
                polled@.len() == brought.len(),
                forall|j: int| i <= j < polled@.len() ==> polled@[j] == brought[j],
                forall|j: int|
                    0 <= j < n ==> #[trigger] outputs@[j] == if j < i {
                        merged(start, brought)[j]
                    } else {
                        start[j]
                    },
                done == all_done(merged(start, brought).take(i as int)),
            decreases n - i,
        {
            if outputs[i].is_none() && i < polled.len() {
                let mut output: Option<T> = None;
                core::mem::swap(&mut polled[i], &mut output);
                outputs[i] = output;
            }
            proof {
                let all = merged(start, brought);
                let seen = all.take(i as int);
                let next = all.take(i + 1);
                assert(outputs@[i as int] == all[i as int]);
                assert(next[i as int] == all[i as int]);
                if all_done(next) {
                    assert forall|j: int| 0 <= j < seen.len() implies (#[trigger] seen[j]) is Some by {
                        assert(next[j] is Some);
                    }
                }
                if all_done(seen) && all[i as int] is Some {
                    assert forall|j: int| 0 <= j < next.len() implies (#[trigger] next[j]) is Some by {
                        if j < i {
                            assert(seen[j] is Some);
                        }
                    }
                }
            }
            if outputs[i].is_none() {
                done = false;
            }
            i += 1;
        }
        proof {
            assert(outputs@ =~= merged(start, brought));
            assert(merged(start, brought).take(n as int) == merged(start, brought));
        }
        if done {
            let mut results: Vec<T> = Vec::new();
            let mut k: usize = 0;
            while k < n
                invariant
                    k <= n,
                    n == outputs@.len(),
                    forall|j: int| k <= j < n ==> outputs@[j] == merged(start, brought)[j],
                    all_done(merged(start, brought)),
                    merged(start, brought).len() == n,
                    results@ == unwrapped(merged(start, brought)).take(k as int),
                decreases n - k,
            {
                let mut output: Option<T> = None;
                core::mem::swap(&mut outputs[k], &mut output);
                assert(output == merged(start, brought)[k as int]);
                results.push(output.unwrap());
                assert(results@ =~= unwrapped(merged(start, brought)).take(k + 1));
                k += 1;
            }
            proof {
                let all = unwrapped(merged(start, brought));
                assert(all.take(n as int) == all);
            }
            Poll::Ready(results)
        } else {
            self.futures = Some(outputs);
            Poll::Pending
        }
    }
}

} // verus!

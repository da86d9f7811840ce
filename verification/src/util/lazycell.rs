//! A value that is made when it is first asked for.

use vstd::prelude::*;

verus! {

/// A value of type `T` that is made from an argument of type `A` when it is
/// first asked for, and kept from then on.
pub struct LazyCell<T, F> {
    init: Option<F>,
    inner: Option<T>,
}

impl<T, F> LazyCell<T, F> {
    /// The function that will make the value, while it has not been made.
    pub closed spec fn init(&self) -> Option<F> {
        self.init
    }

    /// The value, once it has been made.
    pub closed spec fn value(&self) -> Option<T> {
        self.inner
    }

    /// A cell is either waiting to be made or made.
    pub closed spec fn wf(&self) -> bool {
        self.init is Some <==> self.inner is None
    }

    /// A cell whose value `f` will make.
    pub fn new(f: F) -> (cell: Self)
        ensures
            cell.wf(),
            cell.init() == Some(f),
            cell.value() is None,
    {
        LazyCell { init: Some(f), inner: None }
    }

    /// The value, made from `a` if this is the first time it is asked for.
    pub fn get_mut<A>(&mut self, a: A) -> (value: &mut T) where F: FnOnce(A) -> T
        requires
            old(self).wf(),
            old(self).init() matches Some(f) ==> f.requires((a,)),
        ensures
            match old(self).init() {
                Some(f) => f.ensures((a,), *value),
                None => Some(*value) == old(self).value(),
            },
            final(self).wf(),
            final(self).init() is None,
            final(self).value() == Some(*final(value)),
    {
        if let Some(init) = self.init.take() {
            self.inner = Some(init(a));
        }
        self.inner.as_mut().unwrap()
    }
}

} // verus!

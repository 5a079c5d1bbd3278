//! A cell for data that only one hart touches.
use vstd::prelude::*;

verus! {

pub struct UPSafeCell<T> {
    inner: T,
}

impl<T> UPSafeCell<T> {
    pub closed spec fn value(&self) -> T {
        self.inner
    }

    pub fn new(value: T) -> (c: Self)
        ensures c.value() == value,
    {
        UPSafeCell { inner: value }
    }

    pub fn borrow(&self) -> (r: &T)
        ensures *r == self.value(),
    {
        &self.inner
    }

    pub fn borrow_mut(&mut self) -> (r: &mut T)
        ensures *r == old(self).value(), final(self).value() == *final(r),
    {
        &mut self.inner
    }
}

} // verus!

//! Cells that are set once, during initialisation, and read afterwards.
use vstd::prelude::*;

verus! {

/// Proof that there is no concurrency or preemption in the kernel; it must
/// only be made while that holds (for example before interrupts are enabled).
pub struct NoConcurrency {
    _private: (),
}

impl NoConcurrency {
    /// Claims that nothing else runs at the moment.
    pub fn new() -> (r: Self) {
        NoConcurrency { _private: () }
    }
}

/// A cell that is set once, when there is no concurrency, and read from then on.
pub struct InitCell<T> {
    value: Option<T>,
}

impl<T> InitCell<T> {
    /// What the cell holds.
    pub closed spec fn value(&self) -> Option<T> {
        self.value
    }

    /// An empty cell.
    pub fn new() -> (r: Self)
        ensures
            r.value() is None,
    {
        InitCell { value: None }
    }

    /// Sets the cell; it must not have been set before.
    pub fn set(&mut self, value: T, _no_concurrency: &NoConcurrency)
        requires
            old(self).value() is None,
        ensures
            final(self).value() == Some(value),
    {
        self.value = Some(value);
    }

    /// The value, once the cell is set.
    pub fn get(&self) -> (r: Option<&T>)
        ensures
            r is None <==> self.value() is None,
            r matches Some(v) ==> *v == self.value()->0,
    {
        self.value.as_ref()
    }
}

} // verus!

//! Values built on first use.
use vstd::prelude::*;

verus! {

/// A value built by `initializer` the first time it is used.
pub struct Lazy<T, F> {
    value: Option<T>,
    initializer: F,
}

impl<T, F> Lazy<T, F> {
    /// The value, once built.
    pub closed spec fn value(&self) -> Option<T> {
        self.value
    }

    /// The function that builds it.
    pub closed spec fn initializer(&self) -> F {
        self.initializer
    }
}

impl<T, F: Fn() -> T> Lazy<T, F> {
    /// A value not yet built.
    pub fn new(initializer: F) -> (r: Self)
        ensures
            r.value() is None,
            r.initializer() == initializer,
    {
        Lazy { value: None, initializer }
    }

    /// Whether the value has been built.
    pub fn is_initialized(value: &Self) -> (r: bool)
        ensures
            r == value.value() is Some,
    {
        value.value.is_some()
    }

    /// Builds the value if it has not been built.
    fn initialize(&mut self)
        requires
            old(self).value() is None ==> old(self).initializer().requires(()),
        ensures
            final(self).initializer() == old(self).initializer(),
            final(self).value() is Some,
            old(self).value() is Some ==> final(self).value() == old(self).value(),
            old(self).value() is None ==> old(self).initializer().ensures((), final(self).value()->0),
    {
        if self.value.is_none() {
            let value = (self.initializer)();
            self.value = Some(value);
        }
    }

    /// The value, built first if need be.
    pub fn get(&mut self) -> (r: &T)
        requires
            old(self).value() is None ==> old(self).initializer().requires(()),
        ensures
            final(self).initializer() == old(self).initializer(),
            final(self).value() == Some(*r),
            old(self).value() is Some ==> *r == old(self).value()->0,
            old(self).value() is None ==> old(self).initializer().ensures((), *r),
    {
        self.initialize();
        match &self.value {
            Some(value) => value,
            None => vstd::pervasive::unreached(),
        }
    }

    /// The value, built first if need be, for changing in place.
    pub fn get_mut(&mut self) -> (r: &mut T)
        requires
            old(self).value() is None ==> old(self).initializer().requires(()),
        ensures
            old(self).value() is Some ==> *r == old(self).value()->0,
            old(self).value() is None ==> old(self).initializer().ensures((), *r),
            final(self).value() == Some(*final(r)),
            final(self).initializer() == old(self).initializer(),
    {
        self.initialize();
        match &mut self.value {
            Some(value) => value,
            None => vstd::pervasive::unreached(),
        }
    }
}

} // verus!

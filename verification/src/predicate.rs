use vstd::prelude::*;

verus! {

/// A test on elements. Closures and functions of type `Fn(&T) -> bool` are
/// tests.
pub trait Predicate<T> {
    /// The test may be applied to `value`.
    spec fn accepts(&self, value: T) -> bool;

    /// `r` is an answer that the test can give for `value`.
    spec fn yields(&self, value: T, r: bool) -> bool;

    fn test(&self, value: &T) -> (r: bool)
        requires
            self.accepts(*value),
        ensures
            self.yields(*value, r),
    ;
}

impl<T, F: Fn(&T) -> bool> Predicate<T> for F {
    open spec fn accepts(&self, value: T) -> bool {
        call_requires(*self, (&value,))
    }

    open spec fn yields(&self, value: T, r: bool) -> bool {
        call_ensures(*self, (&value,), r)
    }

    fn test(&self, value: &T) -> (r: bool) {
        self(value)
    }
}

} // verus!

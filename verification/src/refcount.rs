//! A wrapper for values whose lifetime is governed by a foreign reference
//! count.
//!
//! The foreign library hands out objects that stay alive while their count
//! is positive; a holder bumps the count through [`RefCountable::incref`]
//! when sharing and releases through [`RefCountable::decref`] when done.
//! The wrapper carries one such reference and hands out borrows of it; the
//! count itself lives on the foreign side, so the two trait methods are
//! implemented by the code that owns the foreign binding.

use vstd::prelude::*;

verus! {

/// A type whose instances are kept alive by a foreign reference count.
pub trait RefCountable {
    /// Takes one more reference.
    fn incref(&self);

    /// Gives one reference back.
    fn decref(&self);
}

/// One counted reference to a foreign object.
#[derive(Debug)]
pub struct RefCounted<T: RefCountable>(pub T);

impl<T: RefCountable> RefCounted<T> {
    /// Wraps an already-counted reference; the wrapper takes its ownership.
    pub fn new(value: T) -> (r: RefCounted<T>)
        ensures
            r.0 == value,
    {
        RefCounted(value)
    }

    /// A borrow of the referenced object.
    pub fn get(&self) -> (r: &T)
        ensures
            *r == self.0,
    {
        &self.0
    }
}

} // verus!

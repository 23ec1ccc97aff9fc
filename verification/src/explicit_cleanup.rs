//! A cell whose contents are torn down explicitly, once, rather than
//! implicitly on drop.
//!
//! The bridge hands storage to collaborators that must be released at a
//! chosen moment; this wrapper makes the release a visible step and turns a
//! later access into a contract violation instead of a silent use of freed
//! state.

use vstd::prelude::*;

verus! {

/// A value that is present until explicitly cleaned up.
#[derive(Clone, Debug)]
pub enum ExplicitCleanup<T> {
    /// The value is still there.
    Exists(T),
    /// The value was taken by `cleanup`.
    Cleaned,
}

impl<T> ExplicitCleanup<T> {
    /// Wraps a value, present until cleaned up.
    pub fn new(value: T) -> (r: ExplicitCleanup<T>)
        ensures
            r == ExplicitCleanup::Exists(value),
    {
        ExplicitCleanup::Exists(value)
    }

    /// Takes the value out, leaving the cell cleaned; a second call finds
    /// nothing and returns `None`.
    pub fn cleanup(this: &mut Self) -> (r: Option<T>)
        ensures
            *final(this) is Cleaned,
            *old(this) is Exists ==> r == Some(old(this)->Exists_0),
            *old(this) is Cleaned ==> r is None,
    {
        let mut taken = ExplicitCleanup::Cleaned;
        core::mem::swap(this, &mut taken);
        match taken {
            ExplicitCleanup::Exists(value) => Some(value),
            ExplicitCleanup::Cleaned => None,
        }
    }

    /// A borrow of the value; accessing a cleaned cell is a contract
    /// violation, so the precondition forbids it.
    pub fn value(&self) -> (r: &T)
        requires
            self is Exists,
        ensures
            *r == self->Exists_0,
    {
        match self {
            ExplicitCleanup::Exists(value) => value,
            ExplicitCleanup::Cleaned => unreached(),
        }
    }
}

} // verus!

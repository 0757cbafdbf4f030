//! Values that must be gone before something else is done.
use vstd::prelude::*;

verus! {

/// Shows that a value was given up. The only way to one is to hand the value
/// over, so whoever asks for one knows that the value is no more.
pub struct Released<T> {
    was: Ghost<T>,
}

impl<T> View for Released<T> {
    type V = T;

    /// The value that was given up.
    closed spec fn view(&self) -> T {
        self.was@
    }
}

/// Gives up a value: it is dropped here.
pub fn release<T>(value: T) -> (released: Released<T>)
    ensures
        released@ == value,
{
    Released { was: Ghost(value) }
}

} // verus!

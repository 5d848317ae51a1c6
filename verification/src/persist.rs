//! Persisting a value to an external medium and rebuilding it from there,
//! whatever the value and whatever the medium.

use vstd::prelude::*;

verus! {

/// Types that implement `Persistent` can have their values persisted to
/// and rebuilt from some external medium.
///
/// Note that this trait is designed with the assumption that only one
/// value of an implementing type will be persisted at a time, as the
/// `rebuild` function provides no means of distinguishing between
/// different values.
pub trait Persistent<Medium>: Sized {
    /// The one channel through which either operation reports a failure.
    type Error;

    /// Writes the current value to the medium. The value itself is left as
    /// it is; a failure of the medium is reported, not retried.
    fn persist(&self, medium: &Medium) -> Result<(), Self::Error>;

    /// Reads the value that was persisted last and constructs a fresh instance
    /// from it. Nothing is substituted for a value that cannot be read.
    fn rebuild(medium: &Medium) -> Result<Self, Self::Error>;
}

} // verus!

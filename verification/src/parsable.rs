//! Module for the [`Parsable`] trait in order to match and parse custom objects.
use vstd::prelude::*;
use crate::view::View;

verus! {

/// Trait for parsable objects, which can be built from a string.
///
/// The trait is for users to implement; it states nothing of the objects it builds.
pub trait Parsable<'a, F>: Sized {
    /// Error type.
    type Error;

    /// Parses the object from a string.
    ///
    /// If match doesn't happen then [`Parsable::Error`] is returned.
    fn parse(st: View<'a, F>) -> Result<(Self, View<'a, F>), Self::Error>;
}

} // verus!

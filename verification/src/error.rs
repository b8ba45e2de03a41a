//! The failures a load can end in.

use vstd::prelude::*;

verus! {

/// Why a load was abandoned.
///
/// Every failure is final for the load at hand: nothing is retried and no
/// partial result is handed out.
#[derive(Clone, Copy, Debug, PartialEq, Eq, Hash, Structural)]
pub enum LoadError {
    /// The bytes do not decode: the interchange stream is broken, or a flat
    /// model describes geometry that is not made of whole triangles.
    MalformedStream,
    /// A recognised node does not carry exactly one property of the numeric
    /// array kind that its name calls for.
    UnexpectedPropertyShape,
    /// The tree lacks a node that mesh assembly cannot do without.
    MissingRequiredNode,
    /// An index points outside the array it selects from.
    IndexOutOfRange,
    /// The byte source ended before a field was complete, or a string field
    /// does not hold UTF-8.
    IoFailure,
}

} // verus!

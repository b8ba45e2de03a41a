//! Fixed-size numeric records.
//!
//! A [`Scalar`] stands for one single-precision number and holds its IEEE-754
//! bit pattern. Two scalars are equal when their bit patterns are, which is
//! finer than numeric equality (`0.0` and `-0.0` differ, a NaN equals itself).
//! A scalar read from bytes keeps its bits as they stand there. One that has
//! been a float on its way, as the elements of the interchange tree's float
//! arrays have, comes with every NaN turned into the one quiet NaN.

use vstd::prelude::*;

verus! {

/// One single-precision number, held as its IEEE-754 bit pattern.
#[derive(Clone, Copy, Debug, PartialEq, Eq, Hash, Structural)]
pub struct Scalar {
    pub bits: u32,
}

impl Scalar {
    /// The scalar with the given bit pattern.
    pub fn from_bits(bits: u32) -> (s: Scalar)
        ensures
            s.bits == bits,
    {
        Scalar { bits }
    }

    /// The bit pattern of this scalar.
    pub fn to_bits(&self) -> (bits: u32)
        ensures
            bits == self.bits,
    {
        self.bits
    }
}

/// Two scalars: a texture coordinate.
#[derive(Clone, Copy, Debug, PartialEq, Eq, Hash, Structural)]
pub struct Vector2 {
    pub x: Scalar,
    pub y: Scalar,
}

/// Three scalars: a position or a normal.
#[derive(Clone, Copy, Debug, PartialEq, Eq, Hash, Structural)]
pub struct Vector3 {
    pub x: Scalar,
    pub y: Scalar,
    pub z: Scalar,
}

/// Four scalars: one column of a [`Matrix4`].
#[derive(Clone, Copy, Debug, PartialEq, Eq, Hash, Structural)]
pub struct Vector4 {
    pub x: Scalar,
    pub y: Scalar,
    pub z: Scalar,
    pub w: Scalar,
}

/// A 4×4 matrix, stored column by column.
#[derive(Clone, Copy, Debug, PartialEq, Eq, Hash, Structural)]
pub struct Matrix4 {
    pub x: Vector4,
    pub y: Vector4,
    pub z: Vector4,
    pub w: Vector4,
}

impl DeepView for Vector2 {
    type V = Vector2;

    open spec fn deep_view(&self) -> Vector2 {
        *self
    }
}

impl DeepView for Vector3 {
    type V = Vector3;

    open spec fn deep_view(&self) -> Vector3 {
        *self
    }
}

} // verus!

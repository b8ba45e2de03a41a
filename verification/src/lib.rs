//! Asset ingestion for a small real-time viewer.
//!
//! Three paths lead from the bytes of an asset to mesh data for a renderer:
//!
//! * [`fbx`] decodes an interchange stream into a tree of typed nodes, and
//!   [`mesh`] resolves the separately indexed attribute streams of that tree
//!   into one flat vertex list with an identity draw-index list;
//! * [`model_loader`] reads the flat big-endian model layout into a
//!   [`model::Model`];
//! * [`md2`] reads the keyframe model layout and resolves the corners of
//!   its triangles in the first frame.
//!
//! Beside them, [`image`] decodes the images that become textures, and
//! [`gfx`] hands out texture units.
//!
//! Every number that is a float on disk is carried as its IEEE-754 bit
//! pattern (see [`math::Scalar`]): the library moves, groups and indexes such
//! values but never computes with them. Where a renderer needs arithmetic on
//! them (the V coordinate of the interchange format counts from the bottom
//! edge, a keyframe vertex is stored compressed) the values are handed out as
//! stored, and the documentation of the type says what is left to do.

pub mod byte_reader;
pub mod endian;
pub mod error;
pub mod fbx;
pub mod gfx;
pub mod image;
pub mod math;
pub mod md2;
pub mod mesh;
pub mod model;
pub mod model_loader;
pub mod text;

//! The interchange tree: decoding a byte stream into typed nodes, and
//! finding geometry in the result.
//!
//! [`read`] goes from bytes to a tree. Underneath, [`event`] holds the flat
//! stream of node events that the bytes decode to, [`classify`] turns the
//! name and the raw properties of one node into a typed node, and [`decode`]
//! builds the tree from the events. [`find`] searches a tree depth-first.
//!
//! Two things are to be known of [`read`] before it is given bytes from a
//! source that is not trusted; its documentation says them in full. A stream
//! can announce more items than the machine can reserve, and then the event
//! decoder does not return. And the library tells no NaN from another: a NaN
//! in a float array comes out as the one quiet NaN (see
//! [`property::canonical`]).

pub mod classify;
pub mod decode;
pub mod event;
pub mod find;
pub mod node;
pub mod property;

pub use self::decode::read;
pub use self::decode::read_tree;
pub use self::node::FbxNode;
pub use self::node::NodeType;

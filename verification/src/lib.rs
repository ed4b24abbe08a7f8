//! Writer for a versioned binary archive of sparse volumetric grids.
//!
//! The archive holds a header with a random textual UUID, a bag of typed
//! metadata, and one or more named grids, each backed by a fixed-depth
//! sparse tree. Identical trees shared by several grids are written once
//! and referenced by name. Every byte of the output is pinned down by the
//! specification functions beside each encoder.

pub mod codec;
pub mod metadata;
pub mod names;
pub mod sink;
pub mod tree;
pub mod uuid;
pub mod writer;

pub use sink::ByteSink;
pub use writer::{VdbWriter, WriteError};

//! Stitches same-width raster pages into one tall composite, partitions it
//! into height-bounded slices, rebuilds a composite from cached slices, and
//! cuts it again at caller-chosen separators.

use vstd::prelude::*;

pub mod cache;
pub mod codec;
pub mod error;
pub mod partition;
pub mod processor;
pub mod raster;
pub mod sources;

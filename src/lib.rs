//! Codec for the geometry part of the Esri Shapefile format.
//!
//! Coordinates are carried as the bit patterns of IEEE-754 doubles (`u64`),
//! exactly as they appear on the wire.

use vstd::prelude::*;

pub mod bytes;
pub mod error;
pub mod header;
pub mod multipoint;
pub mod point;
pub mod poly;
pub mod record;
pub mod rings;
pub mod shape_type;

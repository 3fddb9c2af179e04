//! CRC-32 checksums over byte streams, with algebraic combination of
//! checksums of adjacent ranges, and a small PNG writer that uses them.

use vstd::prelude::*;

pub mod gf2;
pub mod model;
pub mod table;
pub mod slice16;
pub mod crc32;
pub mod png;
pub mod request;
pub mod response;

pub use crate::png::generate_png;

verus! {

/// The version of this library.
pub const VERSION: [u8; 3] = [0, 0, 0];

} // verus!

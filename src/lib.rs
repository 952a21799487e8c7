//! Reading, filtering and writing uncompressed 24-bit bitmap images.
//!
//! The header codec lives in [`fileinfo`], the pixel grid and its transforms
//! in [`pixel`]. All functions work on in-memory bytes; reading and writing
//! files is left to the caller.
use vstd::prelude::*;

pub mod error;
pub mod bytes;
pub mod fileinfo;
pub mod pixel;
pub mod image;

verus! {

} // verus!

//! Chunked wave-function-collapse terrain synthesis and unit reachability
//! over dense tile grids.
pub mod grid;
pub mod random;
pub mod sector;
pub mod terrain;
pub mod utility;

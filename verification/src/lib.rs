//! Engine for assembling one tall image out of a sequence of overlapping
//! screen captures taken while a document is scrolled.
//!
//! The library holds the capture-compare-stitch logic: deciding when two
//! consecutive captures show no new content, deciding which frames of a batch
//! are redundant by an overlap-region similarity test, and merging an ordered
//! list of same-width frames into one composite by cutting at a computed
//! overlap boundary. Screen access, key injection, file I/O and the user
//! interface live outside the library and hand it plain values.

pub mod compare;
pub mod errors;
pub mod laws;
pub mod presets;
pub mod raster;
pub mod region;
pub mod session;
pub mod stitch;

use vstd::prelude::*;

verus! {

/// The capture engine. It is stateless: each method computes from its
/// arguments alone. Platform collaborators (screen source, key injection)
/// live outside the library.
pub struct ScreenCapture {}

impl ScreenCapture {
    pub fn new() -> ScreenCapture {
        ScreenCapture {}
    }
}

} // verus!

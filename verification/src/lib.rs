//! Photomosaic construction.
//!
//! Builds an image "mosaic": every pixel of a source image is replaced by the
//! small candidate image ("tile") whose average color lies closest to that
//! pixel, so that the assembled result, viewed at reduced scale, resembles the
//! source. On top of the single-level builder sits a multi-level pyramid
//! generator that mosaics one capture at a geometric sequence of tile-grid
//! sizes, the tiles of each level being crops of the capture itself.

use vstd::prelude::*;

pub mod image_buf;
pub mod mosaic;
pub mod pyramid;
pub mod squaring;
pub mod tiles;
pub mod util;

verus! {

use crate::squaring::Size;

/// Everything that can go wrong while building a mosaic or a pyramid.
#[derive(Clone, Copy, Debug, PartialEq, Eq, Structural)]
pub enum Error {
    /// A tile palette was built from an empty list of images.
    EmptyTileSet,
    /// Tile images do not all share one size, or the palette's tile size is
    /// not the size the builder was asked for.
    DimensionMismatch {
        /// The size every tile was expected to have.
        expected: Size,
        /// The offending size actually found.
        actual: Size,
    },
    /// An image with zero pixels was used where an average color is needed.
    ZeroPixelImage,
    /// The capture is too small to yield even one pyramid level.
    CaptureTooSmall,
    /// A computed output or intermediate buffer would exceed the allocatable
    /// bounds this library enforces before allocating.
    OutputTooLarge,
    /// A source pixel's color was missing from its own precomputed map at
    /// assembly time. The mosaic builder's contracts rule this out; the
    /// variant is kept so the error taxonomy is complete.
    InternalConsistency,
}

} // verus!

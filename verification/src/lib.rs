//! An editor core for sequences of small monochrome bitmaps ("frames")
//! aimed at tiled LED-matrix displays, where both canvas dimensions are
//! multiples of 8 pixels.
//!
//! The crate has two layers: the frame store ([`image_matrix::ImageSequence`]),
//! which owns an ordered sequence of fixed-size boolean grids and offers
//! pixel access, frame lifecycle operations and byte packing; and the slide
//! generator ([`image_matrix::ImageSequence::slide`]), a pure algorithm that
//! expands one frame into a run of frames showing its content translated
//! pixel by pixel along one axis.

pub mod image_matrix;
pub mod packing;
pub mod params;
pub mod shifting;
pub mod text;

pub use params::Direction;
pub use params::SlideAnimation;

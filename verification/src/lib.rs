//! Packs the frames of sprite sources into one texture atlas.
//!
//! A build takes an ordered list of named sprite sources, asks a skyline
//! packer for a rectangle per frame, paints every frame into one canvas and
//! records where each frame went.
//!
//! - [`geometry`]: rectangles, overlap, containment and extent.
//! - [`sheet`]: the rectangles of one sheet and the rules they are held to.
//! - [`engine`]: the skyline engine of the `texture_packer` crate.
//! - [`packer`]: the rectangle packer, which places and vouches.
//! - [`bitmap`]: RGBA pixel buffers: content box, region, blit.
//! - [`identifier`]: how frames and source files are named.
//! - [`registry`]: the frame registry of an atlas.
//! - [`model`]: what a build is, as a function of its inputs.
//! - [`config`]: the options of a build.
//! - [`atlas`]: the builder and the finished atlas.

pub mod atlas;
pub mod bitmap;
pub mod config;
pub mod engine;
pub mod geometry;
pub mod identifier;
pub mod model;
pub mod packer;
pub mod registry;
pub mod sheet;

pub use atlas::{AsepritePacker, AtlasBuilder, BuildError, SourceFrames, SpriteSource};
pub use bitmap::Bitmap;
pub use config::AsepritePackerConfig;
pub use geometry::Placement;
pub use packer::{PackingOverflow, RectanglePacker};
pub use registry::{AseTextureData, FrameEntry, FrameRegistry};

//! The skyline engine of the `texture_packer` crate, as far as the packer
//! relies on it. Nothing in this file is proved: every contract here is a
//! statement about that crate's code.

use crate::geometry::Placement;
use image::{ImageBuffer, Rgba};
use texture_packer::{TexturePacker, TexturePackerConfig};
use vstd::prelude::*;

verus! {

/// A texture packer of the `texture_packer` crate that owns its textures and
/// keys its frames by name. Verus sees nothing inside it: the packer's type
/// is generic over a pixel trait of the `image` crate.
#[verifier::external_body]
pub struct SkylineEngine {
    inner: TexturePacker<'static, ImageBuffer<Rgba<u8>, Vec<u8>>, String>,
}

/// One frame that an engine has placed: its key and its rectangle.
pub type Placed = (Seq<char>, Placement);

/// The frames that the engine has placed so far, oldest first. The engine's
/// skyline is a function of this sequence and of its bounds.
pub uninterp spec fn engine_log(engine: SkylineEngine) -> Seq<Placed>;

/// The maximum width and height that the engine was made with.
pub uninterp spec fn engine_bounds(engine: SkylineEngine) -> (int, int);

/// The rectangle that an engine with these bounds and this history gives to a
/// texture of `width` by `height` pixels; `None` where it finds no room.
pub uninterp spec fn skyline_frame(
    bounds: (int, int),
    log: Seq<Placed>,
    width: int,
    height: int,
) -> Option<Placement>;

/// The rectangle of the last frame in the log that carries `key`.
pub open spec fn latest_frame(log: Seq<Placed>, key: Seq<char>) -> Option<Placement>
    decreases log.len(),
{
    if log.len() == 0 {
        None
    } else if log.last().0 == key {
        Some(log.last().1)
    } else {
        latest_frame(log.drop_last(), key)
    }
}

/// `TexturePacker::new_skyline`, with a configuration that switches off
/// rotation, trimming, outlines, padding and extrusion. The new engine has
/// placed nothing and keeps the two bounds it was given.
#[verifier::external_body]
pub(crate) fn engine_new(max_width: u32, max_height: u32) -> (engine: SkylineEngine)
    ensures
        engine_log(engine) == Seq::<Placed>::empty(),
        engine_bounds(engine) == (max_width as int, max_height as int),
{
    let config = TexturePackerConfig {
        max_width,
        max_height,
        allow_rotation: false,
        texture_outlines: false,
        border_padding: 0,
        texture_padding: 0,
        trim: false,
        ..Default::default()
    };
    SkylineEngine { inner: TexturePacker::new_skyline(config) }
}

/// `TexturePacker::pack_own`, handed a blank texture of the given size.
///
/// The call answers `Ok` exactly when the skyline has room, and then the
/// engine holds one more frame under `key`; otherwise it holds what it held.
/// Which rectangle the frame gets is the engine's choice; it depends on the
/// bounds, on what was placed before and on the size asked for, and on
/// nothing else.
///
/// The engine computes right and bottom edges in `u32` from columns below
/// its width bound and rows below its height bound, and the blank texture is
/// a vector of four bytes per pixel: the `requires` keeps all of them in range.
#[verifier::external_body]
pub(crate) fn engine_pack(engine: &mut SkylineEngine, key: &String, width: u32, height: u32) -> (packed: bool)
    requires
        width >= 1,
        height >= 1,
        engine_bounds(*old(engine)).0 >= 1,
        engine_bounds(*old(engine)).1 >= 1,
        engine_bounds(*old(engine)).0 - 1 + width <= u32::MAX,
        engine_bounds(*old(engine)).1 - 1 + height <= u32::MAX,
        4 * width * height <= isize::MAX,
    ensures
        engine_bounds(*final(engine)) == engine_bounds(*old(engine)),
        packed == skyline_frame(
            engine_bounds(*old(engine)),
            engine_log(*old(engine)),
            width as int,
            height as int,
        ).is_some(),
        engine_log(*final(engine)) == match skyline_frame(
            engine_bounds(*old(engine)),
            engine_log(*old(engine)),
            width as int,
            height as int,
        ) {
            Some(frame) => engine_log(*old(engine)).push((key@, frame)),
            None => engine_log(*old(engine)),
        },
{
    engine.inner.pack_own(key.clone(), ImageBuffer::new(width, height)).is_ok()
}

/// `TexturePacker::get_frame`: the rectangle of the frame that the engine
/// keeps under `key`, which is the last one packed under it.
#[verifier::external_body]
pub(crate) fn engine_frame(engine: &SkylineEngine, key: &String) -> (found: Option<Placement>)
    ensures
        found == latest_frame(engine_log(*engine), key@),
{
    engine.inner.get_frame(key).map(
        |f| Placement { x: f.frame.x, y: f.frame.y, width: f.frame.w, height: f.frame.h },
    )
}

} // verus!

//! Texture bookkeeping: scale modes, alternative textures, text outlines and the
//! packed texture references handed to scripts.

use vstd::prelude::*;

verus! {

/// How a texture is filtered when scaled
#[derive(Clone, Copy, Debug, PartialEq, Eq, Structural)]
pub enum TextureScaleMode {
    Nearest,
    Linear,
}

/// An alternative version of a texture: another file or another part of an atlas.
/// All other settings are those of the main texture.
#[derive(Clone, Debug)]
pub struct TextureAltConfig {
    pub filename: String,
    /// x, y, width, height of the part of the image to use
    pub subrect: Option<(i32, i32, i32, i32)>,
}

/// Which alternative of a texture to use
#[derive(Clone, Copy, Debug, PartialEq, Eq, Structural)]
pub enum TexAlt {
    /// the main texture
    Main,
    /// intended to be tinted and drawn over the main texture
    Decal,
    /// object in active state (thrusting, flying, walking, etc.)
    Active,
    /// in the process of taking damage
    Damage,
}

/// How text is outlined
#[derive(Clone, Copy, Debug, PartialEq, Eq, Structural)]
pub enum TextOutline {
    /// No outline
    NoOutline,
    /// Draw outline (if font has outline)
    Outline,
    /// Use outline as a drop shadow
    Shadow,
}

/// An error reported by SDL, with the context it happened in
#[derive(Clone, Debug)]
pub struct SdlError {
    pub message: String,
}

/// Sprite should be rotated to look natural
pub const TEXTURE_FLAG_NEED_ROTATION: u16 = 0x1000;

/// Sprite should be flipped when moving to the left
pub const TEXTURE_FLAG_FLIPPABLE: u16 = 0x2000;

/// The part of the flags that holds the frame count
pub const TEXTURE_FLAG_FRAME_MASK: u16 = 0x0fff;

/// A reference to a stored texture: its offset in the store and packed flags
#[derive(Clone, Copy, Debug, PartialEq, Eq, Structural)]
pub struct TextureId {
    offset: u16,
    flags: u16,
}

impl TextureId {
    pub closed spec fn spec_offset(&self) -> u16 {
        self.offset
    }

    pub closed spec fn spec_flags(&self) -> u16 {
        self.flags
    }

    /// The reference to texture number `offset` with `frames` animation frames
    pub fn from_parts(offset: u16, frames: i32, needs_rotation: bool, flippable: bool) -> (r: Self)
        requires
            0 <= frames <= TEXTURE_FLAG_FRAME_MASK,
        ensures
            r.spec_offset() == offset,
            r.spec_flags() == (frames as u16) | (if needs_rotation {
                TEXTURE_FLAG_NEED_ROTATION
            } else {
                0
            }) | (if flippable {
                TEXTURE_FLAG_FLIPPABLE
            } else {
                0
            }),
    {
        let rot: u16 = if needs_rotation {
            TEXTURE_FLAG_NEED_ROTATION
        } else {
            0
        };
        let flip: u16 = if flippable {
            TEXTURE_FLAG_FLIPPABLE
        } else {
            0
        };
        let f = (frames as u16) & TEXTURE_FLAG_FRAME_MASK;
        proof {
            let fr = frames as u16;
            assert(fr <= 0x0fff ==> fr & 0x0fffu16 == fr) by (bit_vector);
        }
        TextureId { offset, flags: f | rot | flip }
    }

    pub fn offset(&self) -> (r: u16)
        ensures
            r == self.spec_offset(),
    {
        self.offset
    }

    /// Number of animation frames
    pub fn frames(&self) -> (r: i32)
        ensures
            r == self.spec_flags() & TEXTURE_FLAG_FRAME_MASK,
    {
        (self.flags & TEXTURE_FLAG_FRAME_MASK) as i32
    }

    pub fn needs_rotation(&self) -> (r: bool)
        ensures
            r == (self.spec_flags() & TEXTURE_FLAG_NEED_ROTATION != 0),
    {
        (self.flags & TEXTURE_FLAG_NEED_ROTATION) != 0
    }

    pub fn flippable(&self) -> (r: bool)
        ensures
            r == (self.spec_flags() & TEXTURE_FLAG_FLIPPABLE != 0),
    {
        (self.flags & TEXTURE_FLAG_FLIPPABLE) != 0
    }
}

/// The frame count and the two hints packed into a texture reference read back unchanged
pub proof fn law_texture_flags_roundtrip(frames: u16, needs_rotation: bool, flippable: bool)
    requires
        frames <= TEXTURE_FLAG_FRAME_MASK,
    ensures
        ({
            let flags = frames | (if needs_rotation {
                TEXTURE_FLAG_NEED_ROTATION
            } else {
                0
            }) | (if flippable {
                TEXTURE_FLAG_FLIPPABLE
            } else {
                0
            });
            &&& flags & TEXTURE_FLAG_FRAME_MASK == frames
            &&& (flags & TEXTURE_FLAG_NEED_ROTATION != 0) == needs_rotation
            &&& (flags & TEXTURE_FLAG_FLIPPABLE != 0) == flippable
        }),
{
    let r: u16 = if needs_rotation {
        0x1000
    } else {
        0
    };
    let f: u16 = if flippable {
        0x2000
    } else {
        0
    };
    assert(frames <= 0x0fff && (r == 0 || r == 0x1000) && (f == 0 || f == 0x2000) ==> {
        &&& (frames | r | f) & 0x0fffu16 == frames
        &&& ((frames | r | f) & 0x1000u16 != 0) == (r == 0x1000)
        &&& ((frames | r | f) & 0x2000u16 != 0) == (f == 0x2000)
    }) by (bit_vector);
}

} // verus!

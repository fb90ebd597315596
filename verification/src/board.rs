//! Placement of a display board's SDRAM buffers, taken from its memory
//! layout: two frame buffers, the font texture, and the heap.

use vstd::prelude::*;

use crate::memory::MemoryLayout;
use crate::memory::section::MemorySection;
use crate::texture::{spec_stride_bytes, PixelFormat, Texture};

verus! {

/// Width in pixels of the font texture.
pub const FONT_TEXTURE_WIDTH: u32 = 1600;

/// Height in pixels of the font texture.
pub const FONT_TEXTURE_HEIGHT: u32 = 200;

/// Marker type for a board's memory layout.
pub struct Memory {}

/// Marker type for a board.
pub struct Board {}

/// Where a frame buffer lies: its address and its length in 32-bit pixels.
#[derive(Clone, Copy, Debug, PartialEq, Eq)]
pub struct FramebufferPlan {
    pub origin: usize,
    pub words: usize,
}

/// Where the SDRAM buffers go.
pub struct BufferPlan {
    pub fb0: FramebufferPlan,
    pub fb1: FramebufferPlan,
    pub font_texture: Texture,
    pub heap_origin: usize,
    pub heap_length: usize,
}

/// The section `name` of `SDRAM` in `layout`, which must exist.
pub open spec fn sdram_section(layout: MemoryLayout, name: Seq<char>) -> MemorySection {
    layout.spec_section("SDRAM"@, name)->Some_0
}

/// The section `name` of `SDRAM` can be looked up and exists.
pub open spec fn has_sdram_section(layout: MemoryLayout, name: Seq<char>) -> bool {
    &&& layout.can_resolve_section("SDRAM"@, name)
    &&& layout.spec_section("SDRAM"@, name) is Some
}

/// The layout has what the buffers need: the `SDRAM` and `QSPI` regions, the
/// `fb0`, `fb1`, `tex` and `heap` sections of `SDRAM`, and a texture section
/// that does not start at address zero.
pub open spec fn plan_possible(layout: MemoryLayout) -> bool {
    &&& layout.spec_region("SDRAM"@) is Some
    &&& layout.spec_region("QSPI"@) is Some
    &&& has_sdram_section(layout, "fb0"@)
    &&& has_sdram_section(layout, "fb1"@)
    &&& has_sdram_section(layout, "tex"@)
    &&& has_sdram_section(layout, "heap"@)
    &&& sdram_section(layout, "tex"@).origin != 0
}

fn framebuffer_plan(section: MemorySection) -> (r: FramebufferPlan)
    ensures
        r.origin == section.origin,
        r.words == section.length / 4,
{
    FramebufferPlan { origin: section.origin, words: section.length / 4 }
}

/// The buffers of a board whose layout has what they need: a frame buffer
/// over each of `fb0` and `fb1`, an 8-bit font texture of
/// `FONT_TEXTURE_WIDTH` by `FONT_TEXTURE_HEIGHT` pixels at `tex`, and the
/// heap over `heap`.
pub fn memory_plan(layout: MemoryLayout) -> (r: BufferPlan)
    requires
        plan_possible(layout),
    ensures
        r.fb0 == (FramebufferPlan {
            origin: sdram_section(layout, "fb0"@).origin,
            words: sdram_section(layout, "fb0"@).length / 4,
        }),
        r.fb1 == (FramebufferPlan {
            origin: sdram_section(layout, "fb1"@).origin,
            words: sdram_section(layout, "fb1"@).length / 4,
        }),
        r.font_texture.data == sdram_section(layout, "tex"@).origin,
        r.font_texture.width == FONT_TEXTURE_WIDTH,
        r.font_texture.height == FONT_TEXTURE_HEIGHT,
        r.font_texture.format == PixelFormat::A8,
        r.font_texture.stride_bytes == FONT_TEXTURE_WIDTH,
        r.heap_origin == sdram_section(layout, "heap"@).origin,
        r.heap_length == sdram_section(layout, "heap"@).length,
{
    let _sdram = layout.region("SDRAM");
    let _qspi = layout.region("QSPI");
    let fb0 = layout.section("SDRAM", "fb0").unwrap();
    let fb1 = layout.section("SDRAM", "fb1").unwrap();
    let tex = layout.section("SDRAM", "tex").unwrap();
    let heap = layout.section("SDRAM", "heap").unwrap();
    assert(spec_stride_bytes(FONT_TEXTURE_WIDTH, PixelFormat::A8) == Some(1600nat));
    let font_texture = Texture::new(tex.origin, FONT_TEXTURE_WIDTH, FONT_TEXTURE_HEIGHT, PixelFormat::A8);
    BufferPlan {
        fb0: framebuffer_plan(fb0),
        fb1: framebuffer_plan(fb1),
        font_texture,
        heap_origin: heap.origin,
        heap_length: heap.length,
    }
}

/// Size of the heap: the length of the `heap` section of `SDRAM`.
pub fn heap_size(layout: MemoryLayout) -> (r: usize)
    requires
        has_sdram_section(layout, "heap"@),
    ensures
        r == sdram_section(layout, "heap"@).length,
{
    layout.section("SDRAM", "heap").unwrap().length
}

} // verus!

//! Memory sections: named sub-ranges of a memory region.

use vstd::prelude::*;

use super::MpuAttrs;

verus! {

/// Resolved memory section: an absolute origin inside its region.
#[derive(Clone, Copy, Debug, PartialEq, Eq)]
pub struct MemorySection {
    pub name: &'static str,
    pub origin: usize,
    pub length: usize,
    pub align: usize,
    pub mpu: Option<MpuAttrs>,
}

/// Section as declared in a region: either at a fixed offset from the region
/// origin, or placed after the previous section at the next aligned offset.
#[derive(Clone, Copy, Debug, PartialEq, Eq)]
pub struct MemorySectionSpec {
    pub name: &'static str,
    pub offset: Option<usize>,
    pub length: usize,
    pub align: usize,
    pub mpu: Option<MpuAttrs>,
}

impl MemorySectionSpec {
    /// The same section at the fixed offset `offset`.
    pub open spec fn with_offset_spec(self, offset: usize) -> Self {
        MemorySectionSpec { offset: Some(offset), ..self }
    }

    /// A section of `length` bytes, placed after its predecessor, 4-byte aligned, without MPU attributes.
    pub fn new(name: &'static str, length: usize) -> (s: Self)
        ensures
            s == (MemorySectionSpec { name, offset: None, length, align: 4, mpu: None }),
    {
        Self { name, offset: None, length, align: 4, mpu: None }
    }

    /// The same section with alignment `align`.
    pub fn with_align(self, align: usize) -> (s: Self)
        ensures
            s == (MemorySectionSpec { align, ..self }),
    {
        let mut s = self;
        s.align = align;
        s
    }

    /// The same section at the fixed offset `offset` from the region origin.
    pub fn with_offset(self, offset: usize) -> (s: Self)
        ensures
            s == self.with_offset_spec(offset),
    {
        let mut s = self;
        s.offset = Some(offset);
        s
    }

    /// The same section with MPU attributes `attrs`.
    pub fn with_mpu(self, attrs: MpuAttrs) -> (s: Self)
        ensures
            s == (MemorySectionSpec { mpu: Some(attrs), ..self }),
    {
        let mut s = self;
        s.mpu = Some(attrs);
        s
    }
}

} // verus!

//! Board memory definitions as a board file describes them, their validation,
//! and what is generated from them: the `memory.x` linker script and the Rust
//! source of the board's [`MemoryLayout`](crate::memory::MemoryLayout).

use vstd::prelude::*;

pub mod expr;
pub mod resolve;
pub mod validate;
pub mod generate;
pub mod emit;

verus! {

/// A board's memory: regions and aliases.
#[derive(Debug, Clone)]
pub struct MemoryDef {
    pub regions: Vec<MemoryRegionDef>,
    pub aliases: Vec<MemoryAliasDef>,
}

/// Another name for a region.
#[derive(Debug, Clone)]
pub struct MemoryAliasDef {
    pub name: String,
    pub target: String,
}

/// A memory region.
#[derive(Debug, Clone)]
pub struct MemoryRegionDef {
    pub name: String,
    pub origin: IntOrString,
    pub length: IntOrString,
    pub kind: RegionKindDef,
    pub mpu: Option<MpuAttrsDef>,
    pub sections: Vec<MemorySectionDef>,
}

/// A section of a region.
#[derive(Debug, Clone)]
pub struct MemorySectionDef {
    pub name: String,
    pub length: IntOrString,
    pub origin: Option<IntOrString>,
    pub align: Option<u64>,
}

#[derive(Debug, Clone, Copy, PartialEq, Eq)]
pub enum RegionKindDef {
    Flash,
    Ram,
    Reserved,
    ExternalRam,
}

/// MPU attributes of a region.
#[derive(Debug, Clone, Copy)]
pub struct MpuAttrsDef {
    pub tex: u8,
    pub executable: bool,
    pub shareable: bool,
    pub cacheable: bool,
    pub bufferable: bool,
}

/// A number, or a size expression such as `"2MiB - 256B"`.
#[derive(Debug, Clone)]
pub enum IntOrString {
    Int(u64),
    String(String),
}

} // verus!

//! Memory regions and the placement of their sections.

use vstd::prelude::*;

use crate::{align_up, is_power_of_two, lemma_spec_align_up, spec_align_up, str_eq};
use vstd::arithmetic::power2::pow2;

use super::section::{MemorySection, MemorySectionSpec};
use super::{first_match, lemma_first_match, MpuAttrs};

verus! {

#[derive(Clone, Copy, Debug, PartialEq, Eq)]
pub enum RegionKind {
    Flash,
    Ram,
    ExternalRam,
    ExternalFlash,
    Reserved,
}

/// Resolved memory region
#[derive(Clone, Copy, Debug, PartialEq, Eq)]
pub struct MemoryRegion {
    pub name: &'static str,
    pub origin: usize,
    pub length: usize,
    pub kind: RegionKind,
    pub mpu: Option<MpuAttrs>,
    pub sections: Option<&'static [MemorySection]>,
}

#[derive(Clone, Copy, Debug, PartialEq, Eq)]
pub struct MemoryRegionSpec {
    pub name: &'static str,
    pub origin: usize,
    pub length: usize,
    pub kind: RegionKind,
    pub mpu: Option<MpuAttrs>,
    pub sections: Option<&'static [MemorySectionSpec]>,
}

/// Names of a sequence of sections, in order.
pub open spec fn section_names(secs: Seq<MemorySectionSpec>) -> Seq<Seq<char>> {
    Seq::new(secs.len(), |i: int| secs[i].name@)
}

/// The alignment a section is placed with: an alignment of 0 means 1.
pub open spec fn effective_align(align: usize) -> nat {
    if align == 0 {
        1
    } else {
        align as nat
    }
}

/// Offset of a section whose predecessors end at `cursor`: its fixed offset,
/// or `cursor` aligned up to the section's alignment.
pub open spec fn placed_offset(s: MemorySectionSpec, cursor: int) -> int {
    match s.offset {
        Some(o) => o as int,
        None => spec_align_up(cursor as nat, effective_align(s.align)) as int,
    }
}

/// End of the `i`-th section's predecessor (0 for the first section).
pub open spec fn cursor_before(secs: Seq<MemorySectionSpec>, i: int) -> int
    decreases i,
{
    if i <= 0 {
        0
    } else {
        placed_offset(secs[i - 1], cursor_before(secs, i - 1)) + secs[i - 1].length
    }
}

/// Offset of the `i`-th section from the region origin.
pub open spec fn section_offset(secs: Seq<MemorySectionSpec>, i: int) -> int {
    placed_offset(secs[i], cursor_before(secs, i))
}

/// The `i`-th section can be placed: its alignment is a power of two and the
/// aligned offset is representable (when it follows its predecessor), and it
/// ends within the region's `length`.
pub open spec fn placement_step_ok(length: usize, secs: Seq<MemorySectionSpec>, i: int) -> bool {
    &&& secs[i].offset is None ==> {
        &&& is_power_of_two(effective_align(secs[i].align))
        &&& cursor_before(secs, i) + effective_align(secs[i].align) - 1 <= usize::MAX
    }
    &&& section_offset(secs, i) + secs[i].length <= length
}

/// The first `n` sections can all be placed.
pub open spec fn placement_ok_upto(length: usize, secs: Seq<MemorySectionSpec>, n: int) -> bool {
    forall|j: int| 0 <= j < n ==> placement_step_ok(length, secs, j)
}

/// Every section of `region` can be placed, at a representable absolute address.
pub open spec fn region_placeable(region: MemoryRegionSpec) -> bool {
    let secs = region.section_list();
    &&& placement_ok_upto(region.length, secs, secs.len() as int)
    &&& forall|i: int| 0 <= i < secs.len() ==> region.origin + section_offset(secs, i) <= usize::MAX
}

/// Whether `a` is a power of two.
fn power_of_two(a: usize) -> (r: bool)
    ensures
        r == is_power_of_two(a as nat),
{
    let mut p: usize = 1;
    let ghost mut k: nat = 0;
    proof {
        vstd::arithmetic::power2::lemma2_to64();
    }
    while p < a
        invariant
            p == pow2(k),
            p >= 1,
            forall|j: nat| j < k ==> #[trigger] pow2(j) < a,
        decreases usize::MAX - p,
    {
        if p > usize::MAX / 2 {
            proof {
                vstd::arithmetic::power2::lemma_pow2_unfold(k + 1);
                assert forall|j: nat| pow2(j) != a by {
                    if j > k {
                        vstd::arithmetic::power2::lemma_pow2_strictly_increases(k, j);
                        if j > k + 1 {
                            vstd::arithmetic::power2::lemma_pow2_strictly_increases(k + 1, j);
                        }
                    }
                }
            }
            return false;
        }
        proof {
            vstd::arithmetic::power2::lemma_pow2_unfold(k + 1);
            k = k + 1;
        }
        p = p * 2;
    }
    proof {
        if p != a {
            assert forall|j: nat| pow2(j) != a by {
                if j >= k {
                    if j > k {
                        vstd::arithmetic::power2::lemma_pow2_strictly_increases(k, j);
                    }
                }
            }
        }
    }
    p == a
}

/// A section without a fixed offset starts after its predecessor ends, at a
/// multiple of its alignment; a placeable section ends within the region.
pub proof fn lemma_placed_after_predecessor(length: usize, secs: Seq<MemorySectionSpec>, i: int)
    requires
        0 < i < secs.len(),
        secs[i].offset is None,
        placement_step_ok(length, secs, i),
    ensures
        section_offset(secs, i) >= section_offset(secs, i - 1) + secs[i - 1].length,
        section_offset(secs, i) % (effective_align(secs[i].align) as int) == 0,
        section_offset(secs, i) + secs[i].length <= length,
{
    let cursor = cursor_before(secs, i);
    assert(cursor == section_offset(secs, i - 1) + secs[i - 1].length);
    lemma_section_offset_nonneg(secs, i - 1);
    lemma_spec_align_up(cursor as nat, effective_align(secs[i].align));
}

/// Looking a section up by its index or by its name gives the same section
/// when no earlier section has its name: `resolve_section_index(i)` and
/// `resolve_section` with the name of section `i` both return
/// `resolved_section(i)`, and the condition that each requires (every section
/// up to `i` fits the region and the origin of section `i` is representable)
/// is the same.
pub proof fn lemma_index_and_name_agree(r: MemoryRegionSpec, i: int)
    requires
        0 <= i < r.section_list().len(),
        forall|j: int| 0 <= j < i ==> r.section_list()[j].name@ != r.section_list()[i].name@,
    ensures
        r.spec_resolve_section(r.section_list()[i].name@) == Some(r.resolved_section(i)),
        r.can_resolve_named(r.section_list()[i].name@) == r.can_resolve(i),
{
    let secs = r.section_list();
    let names = section_names(secs);
    let name = secs[i].name@;
    assert forall|j: int| 0 <= j < i implies names[j] != name by {
        assert(names[j] == secs[j].name@);
    }
    assert(names[i] == name);
    lemma_first_match(names, name, i);
}

/// Offsets of placed sections are never negative.
proof fn lemma_section_offset_nonneg(secs: Seq<MemorySectionSpec>, i: int)
    requires
        0 <= i < secs.len(),
    ensures
        cursor_before(secs, i) >= 0,
        section_offset(secs, i) >= 0,
    decreases i,
{
    if i > 0 {
        lemma_section_offset_nonneg(secs, i - 1);
    }
    if secs[i].offset is None {
        lemma_spec_align_up(cursor_before(secs, i) as nat, effective_align(secs[i].align));
    }
}

impl MemoryRegionSpec {
    /// The declared sections, empty when there are none.
    pub open spec fn section_list(self) -> Seq<MemorySectionSpec> {
        match self.sections {
            Some(s) => s@,
            None => Seq::empty(),
        }
    }

    /// The `i`-th section at its absolute address.
    pub open spec fn resolved_section(self, i: int) -> MemorySection {
        let secs = self.section_list();
        MemorySection {
            name: secs[i].name,
            origin: (self.origin + section_offset(secs, i)) as usize,
            length: secs[i].length,
            align: effective_align(secs[i].align) as usize,
            mpu: secs[i].mpu,
        }
    }

    /// The sections up to and including the `i`-th can be placed, and the
    /// `i`-th section's absolute origin is representable.
    pub open spec fn can_resolve(self, i: int) -> bool {
        &&& placement_ok_upto(self.length, self.section_list(), i + 1)
        &&& self.origin + section_offset(self.section_list(), i) <= usize::MAX
    }

    /// Index of the first section named `name` (the number of sections when none is).
    pub open spec fn section_index(self, name: Seq<char>) -> int {
        first_match(section_names(self.section_list()), name)
    }

    /// What `resolve_section(name)` computes.
    pub open spec fn spec_resolve_section(self, name: Seq<char>) -> Option<MemorySection> {
        let k = self.section_index(name);
        if k < self.section_list().len() {
            Some(self.resolved_section(k))
        } else {
            None
        }
    }

    /// `resolve_section(name)` does not fail on this region.
    pub open spec fn can_resolve_named(self, name: Seq<char>) -> bool {
        let k = self.section_index(name);
        if k < self.section_list().len() {
            self.can_resolve(k)
        } else {
            placement_ok_upto(self.length, self.section_list(), self.section_list().len() as int)
        }
    }

    /// The region without its sections.
    pub open spec fn spec_resolve(self) -> MemoryRegion {
        MemoryRegion {
            name: self.name,
            origin: self.origin,
            length: self.length,
            kind: self.kind,
            mpu: self.mpu,
            sections: None,
        }
    }

    /// Find a section by name; the section comes back at offset 0.
    pub fn section(&self, name: &str) -> (r: Option<MemorySectionSpec>)
        ensures
            r == (if self.section_index(name@) < self.section_list().len() {
                Some(self.section_list()[self.section_index(name@)].with_offset_spec(0))
            } else {
                None
            }),
    {
        let sections = match self.sections {
            Some(sections) => sections,
            None => {
                proof {
                    lemma_first_match(section_names(self.section_list()), name@, 0);
                }
                return None;
            },
        };
        let ghost names = section_names(sections@);
        let mut i: usize = 0;
        while i < sections.len()
            invariant
                sections@ == self.section_list(),
                names == section_names(sections@),
                i <= sections@.len(),
                forall|j: int| 0 <= j < i ==> names[j] != name@,
            decreases sections@.len() - i,
        {
            let s = sections[i];
            if str_eq(s.name, name) {
                proof {
                    lemma_first_match(names, name@, i as int);
                }
                return Some(s.with_offset(0));
            }
            i += 1;
        }
        proof {
            lemma_first_match(names, name@, i as int);
        }
        None
    }

    /// Resolve the section at `index` to its absolute address.
    pub fn resolve_section_index(&self, index: usize) -> (r: Option<MemorySection>)
        requires
            index < self.section_list().len() ==> self.can_resolve(index as int),
        ensures
            r == (if index < self.section_list().len() {
                Some(self.resolved_section(index as int))
            } else {
                None
            }),
    {
        let sections = match self.sections {
            Some(sections) => sections,
            None => return None,
        };
        if index >= sections.len() {
            return None;
        }
        let ghost secs = sections@;
        let mut cursor: usize = 0;
        let mut i: usize = 0;
        while i < sections.len()
            invariant
                secs == sections@,
                secs == self.section_list(),
                index < secs.len(),
                i <= index,
                cursor == cursor_before(secs, i as int),
                self.can_resolve(index as int),
            decreases secs.len() - i,
        {
            let section = sections[i];
            assert(placement_step_ok(self.length, secs, i as int));
            let align = if section.align == 0 {
                1
            } else {
                section.align
            };
            let offset = match section.offset {
                Some(offset) => offset,
                None => align_up(cursor, align),
            };
            assert(offset == section_offset(secs, i as int));
            if i == index {
                return Some(
                    MemorySection {
                        name: section.name,
                        origin: self.origin + offset,
                        length: section.length,
                        align,
                        mpu: section.mpu,
                    },
                );
            }
            cursor = offset + section.length;
            i += 1;
        }
        None
    }

    /// Resolve the first section named `name` to its absolute address.
    pub fn resolve_section(&self, name: &str) -> (r: Option<MemorySection>)
        requires
            self.can_resolve_named(name@),
        ensures
            r == self.spec_resolve_section(name@),
    {
        let sections = match self.sections {
            Some(sections) => sections,
            None => {
                proof {
                    lemma_first_match(section_names(self.section_list()), name@, 0);
                }
                return None;
            },
        };
        let ghost secs = sections@;
        let ghost names = section_names(secs);
        let ghost k = self.section_index(name@);
        proof {
            super::lemma_first_match_props(names, name@);
        }
        let mut cursor: usize = 0;
        let mut i: usize = 0;
        while i < sections.len()
            invariant
                secs == sections@,
                secs == self.section_list(),
                names == section_names(secs),
                k == first_match(names, name@),
                0 <= k <= secs.len(),
                k < secs.len() ==> names[k] == name@,
                forall|j: int| 0 <= j < k ==> names[j] != name@,
                i <= k,
                cursor == cursor_before(secs, i as int),
                self.can_resolve_named(name@),
            decreases secs.len() - i,
        {
            let section = sections[i];
            assert(placement_step_ok(self.length, secs, i as int));
            let align = if section.align == 0 {
                1
            } else {
                section.align
            };
            let offset = match section.offset {
                Some(offset) => offset,
                None => align_up(cursor, align),
            };
            assert(offset == section_offset(secs, i as int));
            assert(names[i as int] == section.name@);
            if str_eq(section.name, name) {
                assert(i == k);
                return Some(
                    MemorySection {
                        name: section.name,
                        origin: self.origin + offset,
                        length: section.length,
                        align,
                        mpu: section.mpu,
                    },
                );
            }
            cursor = offset + section.length;
            i += 1;
        }
        None
    }

    /// Whether every section can be placed, at a representable absolute address.
    pub fn sections_fit(&self) -> (r: bool)
        ensures
            r == region_placeable(*self),
    {
        let sections = match self.sections {
            Some(sections) => sections,
            None => return true,
        };
        let ghost secs = sections@;
        let mut cursor: usize = 0;
        let mut i: usize = 0;
        while i < sections.len()
            invariant
                secs == sections@,
                secs == self.section_list(),
                i <= secs.len(),
                cursor == cursor_before(secs, i as int),
                placement_ok_upto(self.length, secs, i as int),
                forall|j: int| 0 <= j < i ==> self.origin + section_offset(secs, j) <= usize::MAX,
            decreases secs.len() - i,
        {
            let section = sections[i];
            let offset: usize = match section.offset {
                Some(o) => o,
                None => {
                    let align = if section.align == 0 {
                        1
                    } else {
                        section.align
                    };
                    if !power_of_two(align) {
                        assert(!placement_step_ok(self.length, secs, i as int));
                        return false;
                    }
                    if cursor > usize::MAX - (align - 1) {
                        assert(!placement_step_ok(self.length, secs, i as int));
                        return false;
                    }
                    align_up(cursor, align)
                },
            };
            assert(offset == section_offset(secs, i as int));
            if offset > self.length || section.length > self.length - offset {
                assert(!placement_step_ok(self.length, secs, i as int));
                return false;
            }
            if offset > usize::MAX - self.origin {
                assert(!(self.origin + section_offset(secs, i as int) <= usize::MAX));
                return false;
            }
            assert(placement_step_ok(self.length, secs, i as int));
            cursor = offset + section.length;
            i += 1;
        }
        true
    }

    /// The region itself, without its sections.
    pub fn resolve(self) -> (r: MemoryRegion)
        ensures
            r == self.spec_resolve(),
    {
        MemoryRegion {
            name: self.name,
            origin: self.origin,
            length: self.length,
            kind: self.kind,
            mpu: self.mpu,
            sections: None,
        }
    }
}

} // verus!

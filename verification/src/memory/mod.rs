//! Memory layout configuration.
//!
//! Memory layout definitions for a board: physical regions, the sections
//! placed inside them, and aliases that give the linker other names for
//! regions. Regions, sections, lengths and MPU flags can be looked up by name.
//!
//! Each region and section can carry MPU attributes for automatic MPU setup.

use vstd::prelude::*;

use crate::str_eq;

pub mod region;
pub mod section;

use region::{placement_ok_upto, region_placeable, section_names, MemoryRegion, MemoryRegionSpec};
use section::MemorySection;

verus! {

/// A board's memory layout, as a constant of a type of the board.
pub trait BoardMemory {
    const MEMORY: MemoryLayout;
}

#[derive(Clone, Copy, Debug, PartialEq, Eq)]
pub struct MpuAttrs {
    pub tex: u8,
    pub executable: bool,
    pub shareable: bool,
    pub cacheable: bool,
    pub bufferable: bool,
}

impl MpuAttrs {
    pub fn new(tex: u8, executable: bool, shareable: bool, cacheable: bool, bufferable: bool) -> (r: Self)
        ensures
            r == (MpuAttrs { tex, executable, shareable, cacheable, bufferable }),
    {
        Self { tex, executable, shareable, cacheable, bufferable }
    }
}

/// Memory aliases give physical regions other names. On dual core targets,
/// for example, flash may be split between two cores and defined in the base
/// layout, while each core's build gets FLASH and RAM aliases that point the
/// linker at its own regions.
#[derive(Clone, Copy, Debug, PartialEq, Eq)]
pub struct MemoryAlias {
    pub name: &'static str,
    pub target: &'static str,
}

/// A board's memory layout.
#[derive(Clone, Copy, Debug, PartialEq, Eq)]
pub struct MemoryLayout {
    pub regions: &'static [MemoryRegionSpec],
    pub aliases: &'static [MemoryAlias],
}

/// Index of the first name equal to `name`, or the number of names when none is.
pub open spec fn first_match(names: Seq<Seq<char>>, name: Seq<char>) -> int
    decreases names.len(),
{
    if names.len() == 0 {
        0
    } else if names[0] == name {
        0
    } else {
        1 + first_match(names.drop_first(), name)
    }
}

/// When none of the first `i` names is `name`, the first match is at `i` or later.
pub proof fn lemma_first_match(names: Seq<Seq<char>>, name: Seq<char>, i: int)
    requires
        0 <= i <= names.len(),
        forall|j: int| 0 <= j < i ==> names[j] != name,
    ensures
        i < names.len() && names[i] == name ==> first_match(names, name) == i,
        i == names.len() ==> first_match(names, name) == i,
    decreases i,
{
    if i > 0 {
        let rest = names.drop_first();
        assert forall|j: int| 0 <= j < i - 1 implies rest[j] != name by {
            assert(rest[j] == names[j + 1]);
        }
        lemma_first_match(rest, name, i - 1);
    }
}

/// The first match is a match, and no earlier name matches.
pub proof fn lemma_first_match_props(names: Seq<Seq<char>>, name: Seq<char>)
    ensures
        0 <= first_match(names, name) <= names.len(),
        first_match(names, name) < names.len() ==> names[first_match(names, name)] == name,
        forall|j: int| 0 <= j < first_match(names, name) ==> names[j] != name,
    decreases names.len(),
{
    if names.len() > 0 && names[0] != name {
        let rest = names.drop_first();
        lemma_first_match_props(rest, name);
        assert forall|j: int| 0 <= j < first_match(names, name) implies names[j] != name by {
            if j > 0 {
                assert(names[j] == rest[j - 1]);
            }
        }
    }
}

/// Names of a sequence of regions, in order.
pub open spec fn region_names(regions: Seq<MemoryRegionSpec>) -> Seq<Seq<char>> {
    Seq::new(regions.len(), |i: int| regions[i].name@)
}

/// Names of a sequence of aliases, in order.
pub open spec fn alias_names(aliases: Seq<MemoryAlias>) -> Seq<Seq<char>> {
    Seq::new(aliases.len(), |i: int| aliases[i].name@)
}

impl MemoryLayout {
    /// Index of the first region named `name` (the number of regions when none is).
    pub open spec fn region_index(self, name: Seq<char>) -> int {
        first_match(region_names(self.regions@), name)
    }

    /// Index of the first alias named `name` (the number of aliases when none is).
    pub open spec fn alias_index(self, name: Seq<char>) -> int {
        first_match(alias_names(self.aliases@), name)
    }

    /// What `region(name)` returns.
    pub open spec fn spec_region(self, name: Seq<char>) -> Option<MemoryRegion> {
        let k = self.region_index(name);
        if k < self.regions@.len() {
            Some(self.regions@[k].spec_resolve())
        } else {
            None
        }
    }

    /// What `alias(name)` returns.
    pub open spec fn spec_alias(self, name: Seq<char>) -> Option<MemoryRegion> {
        let k = self.alias_index(name);
        if k < self.aliases@.len() {
            self.spec_region(self.aliases@[k].target@)
        } else {
            None
        }
    }

    /// `section(region_name, section_name)` does not fail on this layout.
    pub open spec fn can_resolve_section(self, region_name: Seq<char>, section_name: Seq<char>) -> bool {
        let k = self.region_index(region_name);
        k < self.regions@.len() ==> self.regions@[k].can_resolve_named(section_name)
    }

    /// What `section(region_name, section_name)` returns.
    pub open spec fn spec_section(self, region_name: Seq<char>, section_name: Seq<char>) -> Option<MemorySection> {
        let k = self.region_index(region_name);
        if k < self.regions@.len() {
            self.regions@[k].spec_resolve_section(section_name)
        } else {
            None
        }
    }

    /// Every section of every region can be placed.
    pub open spec fn layout_placeable(self) -> bool {
        forall|i: int| 0 <= i < self.regions@.len() ==> region_placeable(#[trigger] self.regions@[i])
    }

    /// When every section of every region can be placed, any section can be
    /// looked up by region and section name.
    pub proof fn lemma_placeable_sections_resolve(self, region_name: Seq<char>, section_name: Seq<char>)
        requires
            self.layout_placeable(),
        ensures
            self.can_resolve_section(region_name, section_name),
    {
        lemma_first_match_props(region_names(self.regions@), region_name);
        let k = self.region_index(region_name);
        if k < self.regions@.len() {
            let r = self.regions@[k];
            assert(region_placeable(r));
            let secs = r.section_list();
            lemma_first_match_props(section_names(secs), section_name);
            let m = r.section_index(section_name);
            if m < secs.len() {
                assert(placement_ok_upto(r.length, secs, m + 1));
            }
        }
    }

    /// Whether every section of every region can be placed.
    pub fn sections_fit(&self) -> (r: bool)
        ensures
            r == self.layout_placeable(),
    {
        let mut i: usize = 0;
        while i < self.regions.len()
            invariant
                i <= self.regions@.len(),
                forall|j: int| 0 <= j < i ==> region_placeable(#[trigger] self.regions@[j]),
            decreases self.regions@.len() - i,
        {
            if !self.regions[i].sections_fit() {
                return false;
            }
            i += 1;
        }
        true
    }

    /// The first region named `name`, without its sections.
    pub fn region(self, name: &str) -> (r: Option<MemoryRegion>)
        ensures
            r == self.spec_region(name@),
    {
        let ghost names = region_names(self.regions@);
        let mut i: usize = 0;
        while i < self.regions.len()
            invariant
                names == region_names(self.regions@),
                i <= self.regions@.len(),
                forall|j: int| 0 <= j < i ==> names[j] != name@,
            decreases self.regions@.len() - i,
        {
            let region = self.regions[i];
            if str_eq(region.name, name) {
                proof {
                    lemma_first_match(names, name@, i as int);
                }
                return Some(region.resolve());
            }
            i += 1;
        }
        proof {
            lemma_first_match(names, name@, i as int);
        }
        None
    }

    /// The region that the first alias named `name` points at.
    pub fn alias(self, name: &str) -> (r: Option<MemoryRegion>)
        ensures
            r == self.spec_alias(name@),
    {
        let ghost names = alias_names(self.aliases@);
        let mut i: usize = 0;
        while i < self.aliases.len()
            invariant
                names == alias_names(self.aliases@),
                i <= self.aliases@.len(),
                forall|j: int| 0 <= j < i ==> names[j] != name@,
            decreases self.aliases@.len() - i,
        {
            let alias = self.aliases[i];
            if str_eq(alias.name, name) {
                proof {
                    lemma_first_match(names, name@, i as int);
                }
                return self.region(alias.target);
            }
            i += 1;
        }
        proof {
            lemma_first_match(names, name@, i as int);
        }
        None
    }

    /// The section `section_name` of the first region named `region_name`.
    pub fn section(self, region_name: &str, section_name: &str) -> (r: Option<MemorySection>)
        requires
            self.can_resolve_section(region_name@, section_name@),
        ensures
            r == self.spec_section(region_name@, section_name@),
    {
        let ghost names = region_names(self.regions@);
        let mut i: usize = 0;
        while i < self.regions.len()
            invariant
                names == region_names(self.regions@),
                i <= self.regions@.len(),
                forall|j: int| 0 <= j < i ==> names[j] != region_name@,
                self.can_resolve_section(region_name@, section_name@),
            decreases self.regions@.len() - i,
        {
            let region = self.regions[i];
            if str_eq(region.name, region_name) {
                proof {
                    lemma_first_match(names, region_name@, i as int);
                }
                return region.resolve_section(section_name);
            }
            i += 1;
        }
        proof {
            lemma_first_match(names, region_name@, i as int);
        }
        None
    }
}

} // verus!

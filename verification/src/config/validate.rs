//! Validation of a board's memory definition.

use vstd::prelude::*;

use crate::text::{debug_str, decimal, push_debug_str, push_decimal, push_str};

use super::expr::result_view;
use super::{MemoryAliasDef, MemoryDef, MemoryRegionDef};

verus! {

/// `Ok(v)`'s value, 0 for an error.
pub open spec fn ok_or_zero(r: Result<u64, Seq<char>>) -> u64 {
    match r {
        Ok(v) => v,
        Err(_) => 0,
    }
}

/// `prefix` + `{:?}` of the region name + `mid` + `e`.
pub open spec fn msg_region_value(region: Seq<char>, what: Seq<char>, e: Seq<char>) -> Seq<char> {
    "region "@ + debug_str(region) + what + e
}

/// Sum of the lengths of sections `j..` added to `used`.
pub open spec fn sum_sections_from(region: MemoryRegionDef, j: int, used: u64) -> Result<u64, Seq<char>>
    decreases region.sections@.len() - j,
{
    if j < 0 || j >= region.sections@.len() {
        Ok(used)
    } else {
        let s = region.sections@[j];
        match s.length.spec_value() {
            Err(e) => Err(
                "region "@ + debug_str(region.name@) + " section "@ + debug_str(s.name@) + " length: "@ + e,
            ),
            Ok(len) => if used + len > u64::MAX {
                Err("section total overflow in region "@ + debug_str(region.name@))
            } else {
                sum_sections_from(region, j + 1, (used + len) as u64)
            },
        }
    }
}

/// Checks of one region: origin and length parse, the region fits in the
/// address space, and its sections' lengths add up to at most its length.
pub open spec fn check_region(region: MemoryRegionDef) -> Result<(), Seq<char>> {
    match region.origin.spec_value() {
        Err(e) => Err(msg_region_value(region.name@, " origin: "@, e)),
        Ok(origin) => match region.length.spec_value() {
            Err(e) => Err(msg_region_value(region.name@, " length: "@, e)),
            Ok(length) => if origin + length > u64::MAX {
                Err("region "@ + debug_str(region.name@) + " overflows address space"@)
            } else {
                match sum_sections_from(region, 0, 0) {
                    Err(e) => Err(e),
                    Ok(used) => if used > length {
                        Err(
                            "sections in region "@ + debug_str(region.name@)
                                + " exceed region length: used "@ + decimal(used as nat) + " > "@
                                + decimal(length as nat),
                        )
                    } else {
                        Ok(())
                    },
                }
            },
        },
    }
}

/// Checks of regions `i..`, in order.
pub open spec fn check_regions_from(regions: Seq<MemoryRegionDef>, i: int) -> Result<(), Seq<char>>
    decreases regions.len() - i,
{
    if i < 0 || i >= regions.len() {
        Ok(())
    } else {
        match check_region(regions[i]) {
            Err(e) => Err(e),
            Ok(()) => check_regions_from(regions, i + 1),
        }
    }
}

/// The address range of a region: origin and end, or the error met on the way.
pub open spec fn region_range(r: MemoryRegionDef) -> Result<(u64, u64), Seq<char>> {
    match r.origin.spec_value() {
        Err(e) => Err(e),
        Ok(o) => match r.length.spec_value() {
            Err(e) => Err(e),
            Ok(l) => if o + l > u64::MAX {
                Err("region "@ + debug_str(r.name@) + " overflows address space"@)
            } else {
                Ok((o, (o + l) as u64))
            },
        },
    }
}

/// Overlap checks of region `a` (spanning `a_origin..a_end`) against regions `j..`.
pub open spec fn check_against_from(
    regions: Seq<MemoryRegionDef>,
    a: int,
    a_origin: u64,
    a_end: u64,
    j: int,
) -> Result<(), Seq<char>>
    decreases regions.len() - j,
{
    if j < 0 || j >= regions.len() {
        Ok(())
    } else {
        match region_range(regions[j]) {
            Err(e) => Err(e),
            Ok((b_origin, b_end)) => if a_origin < b_end && b_origin < a_end {
                Err(
                    "memory regions "@ + debug_str(regions[a].name@) + " and "@ + debug_str(
                        regions[j].name@,
                    ) + " overlap"@,
                )
            } else {
                check_against_from(regions, a, a_origin, a_end, j + 1)
            },
        }
    }
}

/// Overlap checks of regions `i..` against the regions after them.
pub open spec fn check_pairs_from(regions: Seq<MemoryRegionDef>, i: int) -> Result<(), Seq<char>>
    decreases regions.len() - i,
{
    if i < 0 || i >= regions.len() {
        Ok(())
    } else {
        match region_range(regions[i]) {
            Err(e) => Err(e),
            Ok((o, end)) => match check_against_from(regions, i, o, end, i + 1) {
                Err(e) => Err(e),
                Ok(()) => check_pairs_from(regions, i + 1),
            },
        }
    }
}

/// Names of a sequence of region definitions, in order.
pub open spec fn region_def_names(regions: Seq<MemoryRegionDef>) -> Seq<Seq<char>> {
    Seq::new(regions.len(), |i: int| regions[i].name@)
}

/// Checks of aliases `k..`: each must name an existing region.
pub open spec fn check_aliases_from(def: MemoryDef, k: int) -> Result<(), Seq<char>>
    decreases def.aliases@.len() - k,
{
    if k < 0 || k >= def.aliases@.len() {
        Ok(())
    } else {
        let a = def.aliases@[k];
        if !region_def_names(def.regions@).contains(a.target@) {
            Err(
                "alias "@ + debug_str(a.name@) + " points to unknown region "@ + debug_str(a.target@),
            )
        } else {
            check_aliases_from(def, k + 1)
        }
    }
}

impl MemoryDef {
    /// What `validate` returns.
    pub open spec fn spec_validate(self) -> Result<(), Seq<char>> {
        match check_regions_from(self.regions@, 0) {
            Err(e) => Err(e),
            Ok(()) => match check_pairs_from(self.regions@, 0) {
                Err(e) => Err(e),
                Ok(()) => check_aliases_from(self, 0),
            },
        }
    }
}

/// Regions `a` and `b` lie in address ranges that do not meet.
pub open spec fn ranges_apart(a: MemoryRegionDef, b: MemoryRegionDef) -> bool {
    &&& region_range(a) is Ok
    &&& region_range(b) is Ok
    &&& {
        let (ao, ae) = region_range(a)->Ok_0;
        let (bo, be) = region_range(b)->Ok_0;
        !(ao < be && bo < ae)
    }
}

/// A memory definition that passes validation has regions that each pass
/// their own checks (origin and length parse, the region fits in the address
/// space, its sections add up to at most its length), no two regions that
/// overlap, and aliases that each name an existing region.
pub proof fn lemma_validated_layout(def: MemoryDef)
    requires
        def.spec_validate() is Ok,
    ensures
        forall|i: int| 0 <= i < def.regions@.len() ==> #[trigger] check_region(def.regions@[i]) is Ok,
        forall|i: int, j: int|
            #![trigger def.regions@[i], def.regions@[j]]
            0 <= i < j < def.regions@.len() ==> ranges_apart(def.regions@[i], def.regions@[j]),
        forall|k: int|
            0 <= k < def.aliases@.len() ==> region_def_names(def.regions@).contains(
                (#[trigger] def.aliases@[k]).target@,
            ),
{
    lemma_regions_ok(def.regions@, 0);
    lemma_pairs_ok(def.regions@, 0);
    lemma_aliases_ok(def, 0);
}

/// Total of the lengths of sections `j..` of a region, each length taken as
/// its value (0 where it does not parse).
pub open spec fn section_lengths_total(ss: Seq<super::MemorySectionDef>, j: int) -> int
    decreases ss.len() - j,
{
    if j < 0 || j >= ss.len() {
        0
    } else {
        ok_or_zero(ss[j].length.spec_value()) + section_lengths_total(ss, j + 1)
    }
}

/// A region whose origin, length and section lengths all parse, that fits
/// in the address space and whose sections' lengths add up to at most its
/// length; a total equal to the length is within it.
pub open spec fn region_sound(r: MemoryRegionDef) -> bool {
    &&& r.origin.spec_value() is Ok
    &&& r.length.spec_value() is Ok
    &&& r.origin.spec_value()->Ok_0 + r.length.spec_value()->Ok_0 <= u64::MAX
    &&& forall|k: int| 0 <= k < r.sections@.len() ==> (#[trigger] r.sections@[k]).length.spec_value() is Ok
    &&& section_lengths_total(r.sections@, 0) <= r.length.spec_value()->Ok_0
}

/// The address ranges `[origin, origin + length)` of two regions do not meet.
pub open spec fn disjoint_ranges(a: MemoryRegionDef, b: MemoryRegionDef) -> bool {
    let ao = a.origin.spec_value()->Ok_0;
    let ae = ao + a.length.spec_value()->Ok_0;
    let bo = b.origin.spec_value()->Ok_0;
    let be = bo + b.length.spec_value()->Ok_0;
    ae <= bo || be <= ao
}

/// Validation accepts every definition it should: when each region's values
/// parse, the region fits in the address space and its sections fit in its
/// length (filling it exactly is fine), no two regions' address ranges meet,
/// and every alias names a region, `validate` returns `Ok`.
pub proof fn lemma_sound_definition_validates(def: MemoryDef)
    requires
        forall|i: int| 0 <= i < def.regions@.len() ==> region_sound(#[trigger] def.regions@[i]),
        forall|i: int, j: int|
            #![trigger def.regions@[i], def.regions@[j]]
            0 <= i < j < def.regions@.len() ==> disjoint_ranges(def.regions@[i], def.regions@[j]),
        forall|k: int|
            0 <= k < def.aliases@.len() ==> exists|i: int|
                0 <= i < def.regions@.len() && #[trigger] def.regions@[i].name@ == (
                #[trigger] def.aliases@[k]).target@,
    ensures
        def.spec_validate() == Ok::<(), Seq<char>>(()),
{
    let rs = def.regions@;
    lemma_sound_regions_check(rs, 0);
    lemma_sound_pairs_check(rs, 0);
    lemma_sound_aliases_check(def, 0);
}

proof fn lemma_sound_sum(r: MemoryRegionDef, j: int, used: u64)
    requires
        0 <= j <= r.sections@.len(),
        forall|k: int| 0 <= k < r.sections@.len() ==> (#[trigger] r.sections@[k]).length.spec_value() is Ok,
        used + section_lengths_total(r.sections@, j) <= u64::MAX,
    ensures
        sum_sections_from(r, j, used) == Ok::<u64, Seq<char>>((used + section_lengths_total(r.sections@, j)) as u64),
    decreases r.sections@.len() - j,
{
    if j < r.sections@.len() {
        assert(r.sections@[j].length.spec_value() is Ok);
        lemma_total_nonneg(r.sections@, j + 1);
        let len = r.sections@[j].length.spec_value()->Ok_0;
        lemma_sound_sum(r, j + 1, (used + len) as u64);
    }
}

proof fn lemma_total_nonneg(ss: Seq<super::MemorySectionDef>, j: int)
    ensures
        section_lengths_total(ss, j) >= 0,
    decreases ss.len() - j,
{
    if 0 <= j < ss.len() {
        lemma_total_nonneg(ss, j + 1);
    }
}

proof fn lemma_sound_regions_check(rs: Seq<MemoryRegionDef>, i: int)
    requires
        0 <= i <= rs.len(),
        forall|m: int| 0 <= m < rs.len() ==> region_sound(#[trigger] rs[m]),
    ensures
        check_regions_from(rs, i) == Ok::<(), Seq<char>>(()),
    decreases rs.len() - i,
{
    if i < rs.len() {
        let r = rs[i];
        assert(region_sound(r));
        lemma_total_nonneg(r.sections@, 0);
        lemma_sound_sum(r, 0, 0);
        let total = section_lengths_total(r.sections@, 0);
        assert(sum_sections_from(r, 0, 0) == Ok::<u64, Seq<char>>(total as u64));
        assert(check_region(r) is Ok);
        lemma_sound_regions_check(rs, i + 1);
    }
}

proof fn lemma_sound_against(rs: Seq<MemoryRegionDef>, a: int, j: int)
    requires
        0 <= a < j <= rs.len(),
        forall|m: int| 0 <= m < rs.len() ==> region_sound(#[trigger] rs[m]),
        forall|x: int, y: int|
            #![trigger rs[x], rs[y]]
            0 <= x < y < rs.len() ==> disjoint_ranges(rs[x], rs[y]),
    ensures
        check_against_from(rs, a, region_range(rs[a])->Ok_0.0, region_range(rs[a])->Ok_0.1, j) == Ok::<
            (),
            Seq<char>,
        >(()),
    decreases rs.len() - j,
{
    if j < rs.len() {
        assert(region_sound(rs[a]));
        assert(region_sound(rs[j]));
        assert(disjoint_ranges(rs[a], rs[j]));
        lemma_sound_against(rs, a, j + 1);
    }
}

proof fn lemma_sound_pairs_check(rs: Seq<MemoryRegionDef>, i: int)
    requires
        0 <= i <= rs.len(),
        forall|m: int| 0 <= m < rs.len() ==> region_sound(#[trigger] rs[m]),
        forall|x: int, y: int|
            #![trigger rs[x], rs[y]]
            0 <= x < y < rs.len() ==> disjoint_ranges(rs[x], rs[y]),
    ensures
        check_pairs_from(rs, i) == Ok::<(), Seq<char>>(()),
    decreases rs.len() - i,
{
    if i < rs.len() {
        assert(region_sound(rs[i]));
        lemma_sound_against(rs, i, i + 1);
        lemma_sound_pairs_check(rs, i + 1);
    }
}

proof fn lemma_sound_aliases_check(def: MemoryDef, k: int)
    requires
        0 <= k <= def.aliases@.len(),
        forall|m: int|
            0 <= m < def.aliases@.len() ==> exists|i: int|
                0 <= i < def.regions@.len() && #[trigger] def.regions@[i].name@ == (
                #[trigger] def.aliases@[m]).target@,
    ensures
        check_aliases_from(def, k) == Ok::<(), Seq<char>>(()),
    decreases def.aliases@.len() - k,
{
    if k < def.aliases@.len() {
        let t = def.aliases@[k].target@;
        let i = choose|i: int| 0 <= i < def.regions@.len() && #[trigger] def.regions@[i].name@ == t;
        let names = region_def_names(def.regions@);
        assert(names[i] == t);
        assert(names.contains(t));
        lemma_sound_aliases_check(def, k + 1);
    }
}

pub(crate) proof fn lemma_regions_ok(regions: Seq<MemoryRegionDef>, i: int)
    requires
        0 <= i,
        check_regions_from(regions, i) is Ok,
    ensures
        forall|m: int| i <= m < regions.len() ==> #[trigger] check_region(regions[m]) is Ok,
    decreases regions.len() - i,
{
    if i < regions.len() {
        lemma_regions_ok(regions, i + 1);
    }
}

proof fn lemma_against_ok(regions: Seq<MemoryRegionDef>, a: int, ao: u64, ae: u64, j: int)
    requires
        0 <= j,
        check_against_from(regions, a, ao, ae, j) is Ok,
    ensures
        forall|m: int|
            j <= m < regions.len() ==> region_range(#[trigger] regions[m]) is Ok && !(ao
                < region_range(regions[m])->Ok_0.1 && region_range(regions[m])->Ok_0.0 < ae),
    decreases regions.len() - j,
{
    if j < regions.len() {
        lemma_against_ok(regions, a, ao, ae, j + 1);
    }
}

proof fn lemma_pairs_ok(regions: Seq<MemoryRegionDef>, i: int)
    requires
        0 <= i,
        check_pairs_from(regions, i) is Ok,
    ensures
        forall|a: int, b: int|
            #![trigger regions[a], regions[b]]
            i <= a < b < regions.len() ==> ranges_apart(regions[a], regions[b]),
    decreases regions.len() - i,
{
    if i < regions.len() {
        let (o, end) = region_range(regions[i])->Ok_0;
        lemma_against_ok(regions, i, o, end, i + 1);
        lemma_pairs_ok(regions, i + 1);
        assert forall|a: int, b: int|
            #![trigger regions[a], regions[b]]
            i <= a < b < regions.len() implies ranges_apart(regions[a], regions[b]) by {
            if a == i {
                assert(region_range(regions[b]) is Ok);
            }
        }
    }
}

pub(crate) proof fn lemma_aliases_ok(def: MemoryDef, k: int)
    requires
        0 <= k,
        check_aliases_from(def, k) is Ok,
    ensures
        forall|m: int|
            k <= m < def.aliases@.len() ==> region_def_names(def.regions@).contains(
                (#[trigger] def.aliases@[m]).target@,
            ),
    decreases def.aliases@.len() - k,
{
    if k < def.aliases@.len() {
        lemma_aliases_ok(def, k + 1);
    }
}

// ----- execution -----

fn region_value_message(region: &String, what: &str, e: &String) -> (r: String)
    ensures
        r@ == msg_region_value(region@, what@, e@),
{
    let mut m = String::new();
    push_str(&mut m, "region ");
    push_debug_str(&mut m, region.as_str());
    push_str(&mut m, what);
    push_str(&mut m, e.as_str());
    m
}

fn overflow_message(region: &String) -> (r: String)
    ensures
        r@ == "region "@ + debug_str(region@) + " overflows address space"@,
{
    let mut m = String::new();
    push_str(&mut m, "region ");
    push_debug_str(&mut m, region.as_str());
    push_str(&mut m, " overflows address space");
    m
}

impl MemoryRegionDef {
    fn check(&self) -> (r: Result<(), String>)
        ensures
            match r {
                Ok(()) => check_region(*self) == Ok::<(), Seq<char>>(()),
                Err(e) => check_region(*self) == Err::<(), Seq<char>>(e@),
            },
    {
        let origin = match self.origin_u64() {
            Ok(v) => v,
            Err(e) => return Err(region_value_message(&self.name, " origin: ", &e)),
        };
        let length = match self.length_u64() {
            Ok(v) => v,
            Err(e) => return Err(region_value_message(&self.name, " length: ", &e)),
        };
        let _end = match origin.checked_add(length) {
            Some(v) => v,
            None => return Err(overflow_message(&self.name)),
        };
        let mut used: u64 = 0;
        let mut j: usize = 0;
        while j < self.sections.len()
            invariant
                j <= self.sections@.len(),
                self.origin.spec_value() == Ok::<u64, Seq<char>>(origin),
                self.length.spec_value() == Ok::<u64, Seq<char>>(length),
                origin + length <= u64::MAX,
                sum_sections_from(*self, 0, 0) == sum_sections_from(*self, j as int, used),
            decreases self.sections@.len() - j,
        {
            let section = &self.sections[j];
            let len = match section.length_u64() {
                Ok(v) => v,
                Err(e) => {
                    let mut m = String::new();
                    push_str(&mut m, "region ");
                    push_debug_str(&mut m, self.name.as_str());
                    push_str(&mut m, " section ");
                    push_debug_str(&mut m, section.name.as_str());
                    push_str(&mut m, " length: ");
                    push_str(&mut m, e.as_str());
                    return Err(m);
                },
            };
            used = match used.checked_add(len) {
                Some(v) => v,
                None => {
                    let mut m = String::new();
                    push_str(&mut m, "section total overflow in region ");
                    push_debug_str(&mut m, self.name.as_str());
                    return Err(m);
                },
            };
            j += 1;
        }
        if used > length {
            let mut m = String::new();
            push_str(&mut m, "sections in region ");
            push_debug_str(&mut m, self.name.as_str());
            push_str(&mut m, " exceed region length: used ");
            push_decimal(&mut m, used);
            push_str(&mut m, " > ");
            push_decimal(&mut m, length);
            return Err(m);
        }
        Ok(())
    }

    fn range(&self) -> (r: Result<(u64, u64), String>)
        ensures
            match r {
                Ok(v) => region_range(*self) == Ok::<(u64, u64), Seq<char>>(v),
                Err(e) => region_range(*self) == Err::<(u64, u64), Seq<char>>(e@),
            },
    {
        let o = match self.origin_u64() {
            Ok(v) => v,
            Err(e) => return Err(e),
        };
        let l = match self.length_u64() {
            Ok(v) => v,
            Err(e) => return Err(e),
        };
        match o.checked_add(l) {
            Some(end) => Ok((o, end)),
            None => Err(overflow_message(&self.name)),
        }
    }
}

fn names_contain(regions: &Vec<MemoryRegionDef>, name: &String) -> (r: bool)
    ensures
        r == region_def_names(regions@).contains(name@),
{
    let ghost names = region_def_names(regions@);
    let mut i: usize = 0;
    while i < regions.len()
        invariant
            names == region_def_names(regions@),
            i <= regions@.len(),
            forall|j: int| 0 <= j < i ==> names[j] != name@,
        decreases regions@.len() - i,
    {
        assert(names[i as int] == regions@[i as int].name@);
        if regions[i].name == *name {
            assert(names.contains(name@));
            return true;
        }
        i += 1;
    }
    assert(!names.contains(name@));
    false
}

impl MemoryDef {
    /// Check the memory definition: every region's origin and length parse,
    /// no region runs past the address space, the sections of a region fit in
    /// its length, no two regions overlap, and every alias names a region.
    pub fn validate(&self) -> (r: Result<(), String>)
        ensures
            match r {
                Ok(()) => self.spec_validate() == Ok::<(), Seq<char>>(()),
                Err(e) => self.spec_validate() == Err::<(), Seq<char>>(e@),
            },
    {
        let mut i: usize = 0;
        while i < self.regions.len()
            invariant
                i <= self.regions@.len(),
                check_regions_from(self.regions@, 0) == check_regions_from(self.regions@, i as int),
            decreases self.regions@.len() - i,
        {
            match self.regions[i].check() {
                Ok(()) => {},
                Err(e) => return Err(e),
            }
            i += 1;
        }

        let mut i: usize = 0;
        while i < self.regions.len()
            invariant
                i <= self.regions@.len(),
                check_regions_from(self.regions@, 0) == Ok::<(), Seq<char>>(()),
                check_pairs_from(self.regions@, 0) == check_pairs_from(self.regions@, i as int),
            decreases self.regions@.len() - i,
        {
            let (a_origin, a_end) = match self.regions[i].range() {
                Ok(v) => v,
                Err(e) => return Err(e),
            };
            let ghost after = check_pairs_from(self.regions@, i + 1);
            assert(check_pairs_from(self.regions@, i as int) == match check_against_from(
                self.regions@,
                i as int,
                a_origin,
                a_end,
                i + 1,
            ) {
                Err(e) => Err(e),
                Ok(()) => after,
            });
            let mut j: usize = i + 1;
            while j < self.regions.len()
                invariant
                    check_regions_from(self.regions@, 0) == Ok::<(), Seq<char>>(()),
                    check_pairs_from(self.regions@, 0) == check_pairs_from(self.regions@, i as int),
                    after == check_pairs_from(self.regions@, i + 1),
                    check_pairs_from(self.regions@, i as int) == match check_against_from(
                        self.regions@,
                        i as int,
                        a_origin,
                        a_end,
                        i + 1,
                    ) {
                        Err(e) => Err(e),
                        Ok(()) => after,
                    },
                    i < self.regions@.len(),
                    i + 1 <= j <= self.regions@.len(),
                    region_range(self.regions@[i as int]) == Ok::<(u64, u64), Seq<char>>((a_origin, a_end)),
                    check_against_from(self.regions@, i as int, a_origin, a_end, i + 1)
                        == check_against_from(self.regions@, i as int, a_origin, a_end, j as int),
                decreases self.regions@.len() - j,
            {
                let (b_origin, b_end) = match self.regions[j].range() {
                    Ok(v) => v,
                    Err(e) => return Err(e),
                };
                if a_origin < b_end && b_origin < a_end {
                    let mut m = String::new();
                    push_str(&mut m, "memory regions ");
                    push_debug_str(&mut m, self.regions[i].name.as_str());
                    push_str(&mut m, " and ");
                    push_debug_str(&mut m, self.regions[j].name.as_str());
                    push_str(&mut m, " overlap");
                    return Err(m);
                }
                j += 1;
            }
            i += 1;
        }

        let mut k: usize = 0;
        while k < self.aliases.len()
            invariant
                k <= self.aliases@.len(),
                check_regions_from(self.regions@, 0) == Ok::<(), Seq<char>>(()),
                check_pairs_from(self.regions@, 0) == Ok::<(), Seq<char>>(()),
                check_aliases_from(*self, 0) == check_aliases_from(*self, k as int),
            decreases self.aliases@.len() - k,
        {
            let alias: &MemoryAliasDef = &self.aliases[k];
            if !names_contain(&self.regions, &alias.target) {
                let mut m = String::new();
                push_str(&mut m, "alias ");
                push_debug_str(&mut m, alias.name.as_str());
                push_str(&mut m, " points to unknown region ");
                push_debug_str(&mut m, alias.target.as_str());
                return Err(m);
            }
            k += 1;
        }
        Ok(())
    }
}

} // verus!

//! Placement of a region's sections: offsets from the region origin, checked
//! against alignment, region bounds and each other.

use vstd::prelude::*;

use crate::text::{debug_str, hex_padded, push_debug_str, push_decimal, push_hex_padded, push_str};

use super::expr::result_view;
use super::{MemoryRegionDef, MemorySectionDef};

verus! {

/// A section with its offset from the region origin.
pub struct ResolvedSection<'a> {
    pub section: &'a MemorySectionDef,
    pub offset: u64,
}

/// Align `value` up with `align - 1` as the mask of low bits (1 and 0 leave it
/// unchanged); `None` when that overflows.
pub open spec fn spec_align_up_mask(value: u64, align: u64) -> Option<u64> {
    if align <= 1 {
        Some(value)
    } else if value + (align - 1) > u64::MAX {
        None
    } else {
        Some(((value + (align - 1)) as u64) & !((align - 1) as u64))
    }
}

fn align_up(value: u64, align: u64) -> (r: Option<u64>)
    ensures
        r == spec_align_up_mask(value, align),
{
    if align <= 1 {
        return Some(value);
    }
    let mask = align - 1;
    match value.checked_add(mask) {
        Some(v) => Some(v & !mask),
        None => None,
    }
}

impl MemorySectionDef {
    /// The section's alignment: its `align`, at least 1.
    pub open spec fn spec_align(self) -> u64 {
        match self.align {
            Some(a) => if a >= 1 {
                a
            } else {
                1
            },
            None => 1,
        }
    }

    /// What `origin_u64` returns.
    pub open spec fn spec_origin(self) -> Result<Option<u64>, Seq<char>> {
        match self.origin {
            Some(v) => match v.spec_value() {
                Ok(x) => Ok(Some(x)),
                Err(e) => Err(e),
            },
            None => Ok(None),
        }
    }

    pub fn length_u64(&self) -> (r: Result<u64, String>)
        ensures
            result_view(r) == self.length.spec_value(),
    {
        self.length.parse_u64()
    }

    pub fn origin_u64(&self) -> (r: Result<Option<u64>, String>)
        ensures
            match r {
                Ok(o) => self.spec_origin() == Ok::<Option<u64>, Seq<char>>(o),
                Err(e) => self.spec_origin() == Err::<Option<u64>, Seq<char>>(e@),
            },
    {
        match &self.origin {
            Some(v) => match v.parse_u64() {
                Ok(x) => Ok(Some(x)),
                Err(e) => Err(e),
            },
            None => Ok(None),
        }
    }

    pub fn align(&self) -> (r: u64)
        ensures
            r == self.spec_align(),
    {
        let a = match self.align {
            Some(a) => a,
            None => 1,
        };
        if a >= 1 {
            a
        } else {
            1
        }
    }
}

impl MemoryRegionDef {
    pub fn origin_u64(&self) -> (r: Result<u64, String>)
        ensures
            result_view(r) == self.origin.spec_value(),
    {
        self.origin.parse_u64()
    }

    pub fn length_u64(&self) -> (r: Result<u64, String>)
        ensures
            result_view(r) == self.length.spec_value(),
    {
        self.length.parse_u64()
    }
}

// ----- messages -----

pub open spec fn msg_region_overflow(region: Seq<char>) -> Seq<char> {
    "region "@ + debug_str(region) + " overflows address space"@
}

pub open spec fn msg_before_region(section: Seq<char>, abs: u64, region: Seq<char>, origin: u64) -> Seq<char> {
    "section "@ + debug_str(section) + " origin 0x"@ + hex_padded(abs as nat, 8) + " is before region "@
        + debug_str(region) + " origin 0x"@ + hex_padded(origin as nat, 8)
}

pub open spec fn msg_align_overflow_section(section: Seq<char>, region: Seq<char>) -> Seq<char> {
    "alignment overflow for section "@ + debug_str(section) + " in region "@ + debug_str(region)
}

pub open spec fn msg_not_aligned(section: Seq<char>, abs: u64, align: u64) -> Seq<char> {
    "section "@ + debug_str(section) + " origin 0x"@ + hex_padded(abs as nat, 8) + " is not aligned to "@
        + crate::text::decimal(align as nat)
}

pub open spec fn msg_in_region(prefix: Seq<char>, region: Seq<char>) -> Seq<char> {
    prefix + debug_str(region)
}

pub open spec fn msg_exceeds(section: Seq<char>, region: Seq<char>, end: u64, region_end: u64) -> Seq<char> {
    "section "@ + debug_str(section) + " exceeds region "@ + debug_str(region) + ": end 0x"@ + hex_padded(
        end as nat,
        8,
    ) + " > 0x"@ + hex_padded(region_end as nat, 8)
}

pub open spec fn msg_overlap(a: Seq<char>, b: Seq<char>, region: Seq<char>) -> Seq<char> {
    "sections "@ + debug_str(a) + " and "@ + debug_str(b) + " overlap in region "@ + debug_str(region)
}

fn region_message(prefix: &str, region: &String) -> (r: String)
    ensures
        r@ == msg_in_region(prefix@, region@),
{
    let mut m = String::new();
    push_str(&mut m, prefix);
    push_debug_str(&mut m, region.as_str());
    m
}

fn region_overflow_message(region: &String) -> (r: String)
    ensures
        r@ == msg_region_overflow(region@),
{
    let mut m = String::new();
    push_str(&mut m, "region ");
    push_debug_str(&mut m, region.as_str());
    push_str(&mut m, " overflows address space");
    m
}

fn before_region_message(section: &String, abs: u64, region: &String, origin: u64) -> (r: String)
    ensures
        r@ == msg_before_region(section@, abs, region@, origin),
{
    let mut m = String::new();
    push_str(&mut m, "section ");
    push_debug_str(&mut m, section.as_str());
    push_str(&mut m, " origin 0x");
    push_hex_padded(&mut m, abs, 8);
    push_str(&mut m, " is before region ");
    push_debug_str(&mut m, region.as_str());
    push_str(&mut m, " origin 0x");
    push_hex_padded(&mut m, origin, 8);
    m
}

fn align_overflow_message(section: &String, region: &String) -> (r: String)
    ensures
        r@ == msg_align_overflow_section(section@, region@),
{
    let mut m = String::new();
    push_str(&mut m, "alignment overflow for section ");
    push_debug_str(&mut m, section.as_str());
    push_str(&mut m, " in region ");
    push_debug_str(&mut m, region.as_str());
    m
}

fn not_aligned_message(section: &String, abs: u64, align: u64) -> (r: String)
    ensures
        r@ == msg_not_aligned(section@, abs, align),
{
    let mut m = String::new();
    push_str(&mut m, "section ");
    push_debug_str(&mut m, section.as_str());
    push_str(&mut m, " origin 0x");
    push_hex_padded(&mut m, abs, 8);
    push_str(&mut m, " is not aligned to ");
    push_decimal(&mut m, align);
    m
}

fn exceeds_message(section: &String, region: &String, end: u64, region_end: u64) -> (r: String)
    ensures
        r@ == msg_exceeds(section@, region@, end, region_end),
{
    let mut m = String::new();
    push_str(&mut m, "section ");
    push_debug_str(&mut m, section.as_str());
    push_str(&mut m, " exceeds region ");
    push_debug_str(&mut m, region.as_str());
    push_str(&mut m, ": end 0x");
    push_hex_padded(&mut m, end, 8);
    push_str(&mut m, " > 0x");
    push_hex_padded(&mut m, region_end, 8);
    m
}

fn overlap_message(a: &String, b: &String, region: &String) -> (r: String)
    ensures
        r@ == msg_overlap(a@, b@, region@),
{
    let mut m = String::new();
    push_str(&mut m, "sections ");
    push_debug_str(&mut m, a.as_str());
    push_str(&mut m, " and ");
    push_debug_str(&mut m, b.as_str());
    push_str(&mut m, " overlap in region ");
    push_debug_str(&mut m, region.as_str());
    m
}

// ----- specification of the placement -----

/// The section's length parses and it ends within the address space when placed at `offset`.
pub open spec fn length_fits(s: MemorySectionDef, offset: u64) -> bool {
    match s.length.spec_value() {
        Ok(l) => offset + l <= u64::MAX,
        Err(_) => false,
    }
}

/// Placement of one section whose predecessors leave the cursor at `cursor`:
/// its offset and the new cursor.
pub open spec fn place_section(
    region: MemoryRegionDef,
    origin: u64,
    end: u64,
    cursor: u64,
    i: int,
) -> Result<(u64, u64), Seq<char>> {
    let s = region.sections@[i];
    match s.length.spec_value() {
        Err(e) => Err(e),
        Ok(len) => {
            let align = s.spec_align();
            let placed: Result<(u64, u64), Seq<char>> = match s.spec_origin() {
                Err(e) => Err(e),
                Ok(Some(abs)) => if abs < origin {
                    Err(msg_before_region(s.name@, abs, region.name@, origin))
                } else {
                    let rel = (abs - origin) as u64;
                    match spec_align_up_mask(rel, align) {
                        None => Err(msg_align_overflow_section(s.name@, region.name@)),
                        Some(aligned) => if aligned != rel {
                            Err(msg_not_aligned(s.name@, abs, align))
                        } else {
                            Ok((rel, cursor))
                        },
                    }
                },
                Ok(None) => match spec_align_up_mask(cursor, align) {
                    None => Err(msg_in_region("alignment overflow in region "@, region.name@)),
                    Some(c) => Ok((c, c)),
                },
            };
            match placed {
                Err(e) => Err(e),
                Ok((offset, cur)) => if offset + len > u64::MAX {
                    Err(msg_in_region("section overflow in region "@, region.name@))
                } else if origin + offset + len > u64::MAX {
                    Err(msg_in_region("section end overflow in region "@, region.name@))
                } else if origin + offset + len > end {
                    Err(
                        msg_exceeds(
                            s.name@,
                            region.name@,
                            (origin + offset + len) as u64,
                            end,
                        ),
                    )
                } else if s.origin is None {
                    Ok((offset, (offset + len) as u64))
                } else {
                    Ok((offset, cur))
                },
            }
        },
    }
}

/// Placement of the first `n` sections: (section index, offset) pairs in
/// declaration order, and the cursor after them.
pub open spec fn place_sections(region: MemoryRegionDef, origin: u64, end: u64, n: int) -> Result<
    (Seq<(nat, u64)>, u64),
    Seq<char>,
>
    decreases n,
{
    if n <= 0 {
        Ok((Seq::empty(), 0u64))
    } else {
        match place_sections(region, origin, end, n - 1) {
            Err(e) => Err(e),
            Ok((list, cursor)) => match place_section(region, origin, end, cursor, n - 1) {
                Err(e) => Err(e),
                Ok((offset, c)) => Ok((list.push(((n - 1) as nat, offset)), c)),
            },
        }
    }
}

/// Insert `x` into `sorted` after every entry whose offset is at most `x`'s.
pub open spec fn insert_by_offset(sorted: Seq<(nat, u64)>, x: (nat, u64)) -> Seq<(nat, u64)>
    decreases sorted.len(),
{
    if sorted.len() == 0 {
        seq![x]
    } else if sorted.last().1 <= x.1 {
        sorted.push(x)
    } else {
        insert_by_offset(sorted.drop_last(), x).push(sorted.last())
    }
}

/// Stable sort by offset: entries with equal offsets keep their order.
pub open spec fn sort_by_offset(s: Seq<(nat, u64)>) -> Seq<(nat, u64)>
    decreases s.len(),
{
    if s.len() == 0 {
        s
    } else {
        insert_by_offset(sort_by_offset(s.drop_last()), s.last())
    }
}

/// Offsets never decrease along `s`.
pub open spec fn offsets_sorted(s: Seq<(nat, u64)>) -> bool {
    forall|i: int, j: int| 0 <= i <= j < s.len() ==> s[i].1 <= s[j].1
}

/// The overlap check over sorted sections, from the `k`-th pair on.
pub open spec fn check_overlaps(region: MemoryRegionDef, sorted: Seq<(nat, u64)>, k: int) -> Result<(), Seq<char>>
    decreases sorted.len() - k,
{
    if k < 0 || k + 1 >= sorted.len() {
        Ok(())
    } else {
        let a = region.sections@[sorted[k].0 as int];
        let b = region.sections@[sorted[k + 1].0 as int];
        match a.length.spec_value() {
            Err(e) => Err(e),
            Ok(len) => if sorted[k].1 + len > sorted[k + 1].1 {
                Err(msg_overlap(a.name@, b.name@, region.name@))
            } else {
                check_overlaps(region, sorted, k + 1)
            },
        }
    }
}

impl MemoryRegionDef {
    /// What `resolve_sections` computes: (section index, offset) pairs sorted by offset.
    #[verifier::opaque]
    pub open spec fn spec_resolve_sections(self) -> Result<Seq<(nat, u64)>, Seq<char>> {
        match self.origin.spec_value() {
            Err(e) => Err(e),
            Ok(origin) => match self.length.spec_value() {
                Err(e) => Err(e),
                Ok(len) => if origin + len > u64::MAX {
                    Err(msg_region_overflow(self.name@))
                } else {
                    match place_sections(self, origin, (origin + len) as u64, self.sections@.len() as int) {
                        Err(e) => Err(e),
                        Ok((list, _)) => {
                            let sorted = sort_by_offset(list);
                            match check_overlaps(self, sorted, 0) {
                                Err(e) => Err(e),
                                Ok(()) => Ok(sorted),
                            }
                        },
                    }
                },
            },
        }
    }
}

// ----- completeness -----

/// The first `n` sections packed one after another from offset 0: each
/// starts where the one before it ends, rounded up to its alignment as
/// `resolve_sections` rounds. The offsets, and where the last one ends;
/// `None` when a length does not parse or an offset or end leaves the 64-bit
/// range.
pub open spec fn packed_offsets(ss: Seq<MemorySectionDef>, n: int) -> Option<(Seq<u64>, u64)>
    decreases n,
{
    if n <= 0 {
        Some((Seq::empty(), 0u64))
    } else {
        match packed_offsets(ss, n - 1) {
            None => None,
            Some((offs, end)) => match ss[n - 1].length.spec_value() {
                Err(_) => None,
                Ok(len) => match spec_align_up_mask(end, ss[n - 1].spec_align()) {
                    None => None,
                    Some(o) => if o + len > u64::MAX {
                        None
                    } else {
                        Some((offs.push(o), (o + len) as u64))
                    },
                },
            },
        }
    }
}

/// Resolution accepts every region whose sections fit: when the region's
/// origin and length parse and it fits in the address space, no section has
/// a fixed origin, and the sections packed one after another end at or
/// before the region's end (ending exactly there is within it), resolution
/// succeeds and lists every section, in declaration order, at its packed
/// offset.
pub proof fn lemma_packed_sections_resolve(r: MemoryRegionDef)
    requires
        r.origin.spec_value() is Ok,
        r.length.spec_value() is Ok,
        r.origin.spec_value()->Ok_0 + r.length.spec_value()->Ok_0 <= u64::MAX,
        forall|k: int| 0 <= k < r.sections@.len() ==> (#[trigger] r.sections@[k]).origin is None,
        packed_offsets(r.sections@, r.sections@.len() as int) is Some,
        packed_offsets(r.sections@, r.sections@.len() as int)->Some_0.1 <= r.length.spec_value()->Ok_0,
    ensures
        r.spec_resolve_sections() == Ok::<Seq<(nat, u64)>, Seq<char>>(
            Seq::new(
                r.sections@.len(),
                |k: int| (k as nat, packed_offsets(r.sections@, r.sections@.len() as int)->Some_0.0[k]),
            ),
        ),
{
    reveal(MemoryRegionDef::spec_resolve_sections);
    let ss = r.sections@;
    let n = ss.len() as int;
    let origin = r.origin.spec_value()->Ok_0;
    let end = (origin + r.length.spec_value()->Ok_0) as u64;
    let offs = packed_offsets(ss, n)->Some_0.0;
    let list = Seq::new(ss.len(), |k: int| (k as nat, offs[k]));
    lemma_packed_chain(ss, n);
    lemma_packed_place(r, origin, end, n);
    assert(place_sections(r, origin, end, n) == Ok::<(Seq<(nat, u64)>, u64), Seq<char>>(
        (list, packed_offsets(ss, n)->Some_0.1),
    ));
    assert(offsets_sorted(list));
    lemma_sort_of_sorted(list);
    lemma_packed_no_overlap(r, offs, list, 0);
}

/// Offsets of the first `n` sections as resolution places them, before it
/// checks them against the region's end and against each other: a section
/// with a fixed origin at that origin's distance from the region origin, a
/// section without one at the end of the last section without one before
/// it, rounded up to its alignment as `resolve_sections` rounds. The offsets,
/// and that end; `None` when a value does not parse, a fixed origin lies
/// before the region origin or is not a multiple of the alignment, or an
/// offset or end leaves the 64-bit range.
pub open spec fn planned_offsets(ss: Seq<MemorySectionDef>, origin: u64, n: int) -> Option<(Seq<u64>, u64)>
    decreases n,
{
    if n <= 0 {
        Some((Seq::empty(), 0u64))
    } else {
        match planned_offsets(ss, origin, n - 1) {
            None => None,
            Some((offs, cursor)) => {
                let s = ss[n - 1];
                match s.length.spec_value() {
                    Err(_) => None,
                    Ok(len) => match s.spec_origin() {
                        Err(_) => None,
                        Ok(Some(abs)) => if abs < origin {
                            None
                        } else if spec_align_up_mask((abs - origin) as u64, s.spec_align()) != Some(
                            (abs - origin) as u64,
                        ) {
                            None
                        } else if abs - origin + len > u64::MAX {
                            None
                        } else {
                            Some((offs.push((abs - origin) as u64), cursor))
                        },
                        Ok(None) => match spec_align_up_mask(cursor, s.spec_align()) {
                            None => None,
                            Some(o) => if o + len > u64::MAX {
                                None
                            } else {
                                Some((offs.push(o), (o + len) as u64))
                            },
                        },
                    },
                }
            },
        }
    }
}

/// Resolution accepts every region whose sections fit: when the region's
/// origin and length parse and it fits in the address space, every section
/// gets an offset (values parse, fixed origins lie in the region and are
/// aligned), every section ends at or before the region's end (ending
/// exactly there is within it), and every section ends at or before the
/// offset of any other section placed at or after it, resolution succeeds,
/// and lists each section once, at its offset, sorted by offset.
pub proof fn lemma_fitting_sections_resolve(r: MemoryRegionDef)
    requires
        r.origin.spec_value() is Ok,
        r.length.spec_value() is Ok,
        r.origin.spec_value()->Ok_0 + r.length.spec_value()->Ok_0 <= u64::MAX,
        planned_offsets(r.sections@, r.origin.spec_value()->Ok_0, r.sections@.len() as int) is Some,
        ({
            let offs = planned_offsets(r.sections@, r.origin.spec_value()->Ok_0, r.sections@.len() as int)->Some_0.0;
            &&& forall|k: int|
                0 <= k < r.sections@.len() ==> #[trigger] offs[k] + ok_len(r.sections@[k])
                    <= r.length.spec_value()->Ok_0
            &&& forall|i: int, j: int|
                #![trigger offs[i], offs[j]]
                0 <= i < r.sections@.len() && 0 <= j < r.sections@.len() && i != j && offs[i] <= offs[j]
                    ==> offs[i] + ok_len(r.sections@[i]) <= offs[j]
        }),
    ensures
        r.spec_resolve_sections() is Ok,
        ({
            let offs = planned_offsets(r.sections@, r.origin.spec_value()->Ok_0, r.sections@.len() as int)->Some_0.0;
            let out = r.spec_resolve_sections()->Ok_0;
            &&& out.len() == r.sections@.len()
            &&& offsets_sorted(out)
            &&& forall|e: (nat, u64)|
                #[trigger] out.contains(e) <==> (0 <= e.0 < r.sections@.len() && e.1 == offs[e.0 as int])
        }),
{
    reveal(MemoryRegionDef::spec_resolve_sections);
    let ss = r.sections@;
    let n = ss.len() as int;
    let origin = r.origin.spec_value()->Ok_0;
    let end = (origin + r.length.spec_value()->Ok_0) as u64;
    let offs = planned_offsets(ss, origin, n)->Some_0.0;
    let list = Seq::new(ss.len(), |k: int| (k as nat, offs[k]));
    lemma_planned_place(r, origin, end, n);
    assert(place_sections(r, origin, end, n)->Ok_0.0 == list);
    lemma_sort_sorted(list);
    assert(list.no_duplicates());
    lemma_sort_no_duplicates(list);
    let sorted = sort_by_offset(list);
    assert forall|e: (nat, u64)| list.contains(e) <==> (0 <= e.0 < n && e.1 == offs[e.0 as int]) by {
        if 0 <= e.0 < n && e.1 == offs[e.0 as int] {
            assert(list[e.0 as int] == e);
        }
    }
    lemma_planned_no_overlap(r, offs, list, sorted, 0);
}

/// Length of a section, 0 where it does not parse.
pub open spec fn ok_len(s: MemorySectionDef) -> u64 {
    match s.length.spec_value() {
        Ok(l) => l,
        Err(_) => 0,
    }
}

/// Planned sections are placed at their planned offsets.
proof fn lemma_planned_place(r: MemoryRegionDef, origin: u64, end: u64, n: int)
    requires
        0 <= n <= r.sections@.len(),
        origin <= end,
        planned_offsets(r.sections@, origin, n) is Some,
        forall|k: int|
            0 <= k < n ==> #[trigger] planned_offsets(r.sections@, origin, n)->Some_0.0[k] + ok_len(r.sections@[k])
                + origin <= end,
    ensures
        planned_offsets(r.sections@, origin, n)->Some_0.0.len() == n,
        forall|k: int| 0 <= k < n ==> (#[trigger] r.sections@[k]).length.spec_value() is Ok,
        place_sections(r, origin, end, n) == Ok::<(Seq<(nat, u64)>, u64), Seq<char>>(
            (
                Seq::new(n as nat, |k: int| (k as nat, planned_offsets(r.sections@, origin, n)->Some_0.0[k])),
                planned_offsets(r.sections@, origin, n)->Some_0.1,
            ),
        ),
    decreases n,
{
    let ss = r.sections@;
    lemma_planned_len(ss, origin, n);
    if n > 0 {
        let (prev, cursor) = planned_offsets(ss, origin, n - 1)->Some_0;
        let (offs, c2) = planned_offsets(ss, origin, n)->Some_0;
        lemma_planned_len(ss, origin, n - 1);
        let o = offs[n - 1];
        assert(offs == prev.push(o));
        assert forall|k: int| 0 <= k < n - 1 implies #[trigger] prev[k] + ok_len(ss[k]) + origin <= end by {
            assert(offs[k] == prev[k]);
            assert(offs[k] + ok_len(ss[k]) + origin <= end);
        }
        lemma_planned_place(r, origin, end, n - 1);
        assert(offs[n - 1] + ok_len(ss[n - 1]) + origin <= end);
        lemma_planned_step(r, origin, end, n);
        assert forall|k: int| 0 <= k < n implies (#[trigger] ss[k]).length.spec_value() is Ok by {}
        assert(Seq::new((n - 1) as nat, |k: int| (k as nat, prev[k])).push(((n - 1) as nat, o)) =~= Seq::new(
            n as nat,
            |k: int| (k as nat, offs[k]),
        ));
    } else {
        assert(Seq::new(0, |k: int| (k as nat, planned_offsets(ss, origin, n)->Some_0.0[k])) =~= Seq::<
            (nat, u64),
        >::empty());
    }
}

proof fn lemma_planned_len(ss: Seq<MemorySectionDef>, origin: u64, n: int)
    requires
        0 <= n,
        planned_offsets(ss, origin, n) is Some,
    ensures
        planned_offsets(ss, origin, n)->Some_0.0.len() == n,
        n > 0 ==> planned_offsets(ss, origin, n - 1) is Some,
    decreases n,
{
    if n > 0 {
        lemma_planned_len(ss, origin, n - 1);
    }
}

/// One planned section is placed at its planned offset.
#[verifier::rlimit(40)]
proof fn lemma_planned_step(r: MemoryRegionDef, origin: u64, end: u64, n: int)
    requires
        0 < n <= r.sections@.len(),
        origin <= end,
        planned_offsets(r.sections@, origin, n) is Some,
        planned_offsets(r.sections@, origin, n - 1) is Some,
        ({
            let offs = planned_offsets(r.sections@, origin, n)->Some_0.0;
            offs.len() == n && offs[n - 1] + ok_len(r.sections@[n - 1]) + origin <= end
        }),
    ensures
        r.sections@[n - 1].length.spec_value() is Ok,
        place_section(r, origin, end, planned_offsets(r.sections@, origin, n - 1)->Some_0.1, n - 1) == Ok::<
            (u64, u64),
            Seq<char>,
        >((planned_offsets(r.sections@, origin, n)->Some_0.0[n - 1], planned_offsets(r.sections@, origin, n)->Some_0.1)),
{
    let s = r.sections@[n - 1];
    match s.spec_origin() {
        Ok(Some(_)) => {
            assert(s.origin is Some);
        },
        Ok(None) => {
            assert(s.origin is None);
        },
        Err(_) => {},
    }
}

/// Sorting by offset keeps entries distinct.
proof fn lemma_sort_no_duplicates(s: Seq<(nat, u64)>)
    requires
        s.no_duplicates(),
    ensures
        sort_by_offset(s).no_duplicates(),
    decreases s.len(),
{
    if s.len() > 0 {
        let d = s.drop_last();
        assert(d.no_duplicates());
        lemma_sort_no_duplicates(d);
        lemma_sort_sorted(d);
        let sd = sort_by_offset(d);
        let x = s.last();
        assert(!d.contains(x));
        assert(!sd.contains(x));
        let p = prefix_at_most(sd, x.1, 0);
        lemma_prefix_at_most(sd, x.1, 0);
        lemma_insert_by_offset(sd, x, p);
        let r = sd.insert(p, x);
        sd.insert_ensures(p, x);
        assert forall|i: int, j: int| 0 <= i < r.len() && 0 <= j < r.len() && i != j implies r[i] != r[j] by {
            if i == p {
                if j < p {
                    assert(sd[j] == r[j]);
                } else {
                    assert(sd[j - 1] == r[j]);
                }
            } else if j == p {
                if i < p {
                    assert(sd[i] == r[i]);
                } else {
                    assert(sd[i - 1] == r[i]);
                }
            } else {
                let a = if i < p { i } else { i - 1 };
                let b = if j < p { j } else { j - 1 };
                assert(r[i] == sd[a]);
                assert(r[j] == sd[b]);
            }
        }
    }
}

/// Planned sections that keep apart pass the overlap check in sorted order.
proof fn lemma_planned_no_overlap(
    r: MemoryRegionDef,
    offs: Seq<u64>,
    list: Seq<(nat, u64)>,
    sorted: Seq<(nat, u64)>,
    k: int,
)
    requires
        0 <= k,
        offs.len() == r.sections@.len(),
        forall|m: int| 0 <= m < r.sections@.len() ==> (#[trigger] r.sections@[m]).length.spec_value() is Ok,
        forall|i: int, j: int|
            #![trigger offs[i], offs[j]]
            0 <= i < r.sections@.len() && 0 <= j < r.sections@.len() && i != j && offs[i] <= offs[j] ==> offs[i]
                + ok_len(r.sections@[i]) <= offs[j],
        forall|e: (nat, u64)| list.contains(e) <==> (0 <= e.0 < r.sections@.len() && e.1 == offs[e.0 as int]),
        offsets_sorted(sorted),
        sorted.no_duplicates(),
        forall|e: (nat, u64)| #[trigger] sorted.contains(e) <==> list.contains(e),
    ensures
        check_overlaps(r, sorted, k) == Ok::<(), Seq<char>>(()),
    decreases sorted.len() - k,
{
    if k + 1 < sorted.len() {
        let a = sorted[k];
        let b = sorted[k + 1];
        assert(sorted.contains(a));
        assert(sorted.contains(b));
        assert(list.contains(a));
        assert(list.contains(b));
        assert(a != b);
        let i = a.0 as int;
        let j = b.0 as int;
        assert(i != j);
        assert(a.1 <= b.1);
        assert(offs[i] + ok_len(r.sections@[i]) <= offs[j]);
        assert(r.sections@[i].length.spec_value() is Ok);
        lemma_planned_no_overlap(r, offs, list, sorted, k + 1);
    }
}

/// Packing keeps each section before the next, in order.
proof fn lemma_packed_chain(ss: Seq<MemorySectionDef>, n: int)
    requires
        0 <= n <= ss.len(),
        packed_offsets(ss, n) is Some,
    ensures
        ({
            let (offs, end) = packed_offsets(ss, n)->Some_0;
            &&& offs.len() == n
            &&& forall|k: int| 0 <= k < n ==> (#[trigger] ss[k]).length.spec_value() is Ok
            &&& forall|k: int|
                0 <= k < n ==> #[trigger] offs[k] + ss[k].length.spec_value()->Ok_0 <= end
            &&& forall|k: int|
                0 <= k < n - 1 ==> #[trigger] offs[k] + ss[k].length.spec_value()->Ok_0 <= offs[k + 1]
            &&& forall|i: int, j: int| 0 <= i <= j < n ==> offs[i] <= offs[j]
        }),
    decreases n,
{
    if n > 0 {
        lemma_packed_chain(ss, n - 1);
        let (prev, pend) = packed_offsets(ss, n - 1)->Some_0;
        let o = spec_align_up_mask(pend, ss[n - 1].spec_align())->Some_0;
        lemma_align_up_mask_ge(pend, ss[n - 1].spec_align());
        let (offs, end) = packed_offsets(ss, n)->Some_0;
        assert(offs == prev.push(o));
        assert forall|k: int| 0 <= k < n implies #[trigger] offs[k] + ss[k].length.spec_value()->Ok_0 <= end by {
            if k < n - 1 {
                assert(offs[k] == prev[k]);
                assert(prev[k] + ss[k].length.spec_value()->Ok_0 <= pend);
            }
        }
        assert forall|k: int| 0 <= k < n - 1 implies #[trigger] offs[k] + ss[k].length.spec_value()->Ok_0
            <= offs[k + 1] by {
            assert(offs[k] == prev[k]);
            if k < n - 2 {
                assert(offs[k + 1] == prev[k + 1]);
                assert(prev[k] + ss[k].length.spec_value()->Ok_0 <= prev[k + 1]);
            } else {
                assert(prev[k] + ss[k].length.spec_value()->Ok_0 <= pend);
            }
        }
        assert forall|i: int, j: int| 0 <= i <= j < n implies offs[i] <= offs[j] by {
            if j < n - 1 {
                assert(offs[i] == prev[i] && offs[j] == prev[j]);
            } else if i < n - 1 {
                assert(offs[i] == prev[i]);
                assert(prev[i] + ss[i].length.spec_value()->Ok_0 <= pend);
            }
        }
    }
}

/// Rounding up with a mask never goes below the value rounded.
proof fn lemma_align_up_mask_ge(value: u64, align: u64)
    requires
        spec_align_up_mask(value, align) is Some,
    ensures
        spec_align_up_mask(value, align)->Some_0 >= value,
{
    if align > 1 {
        let m = (align - 1) as u64;
        let w = (value + m) as u64;
        assert((w & !m) >= value) by (bit_vector)
            requires
                w == value + m,
        ;
    }
}

/// Packed sections are placed where packing puts them.
proof fn lemma_packed_place(r: MemoryRegionDef, origin: u64, end: u64, n: int)
    requires
        0 <= n <= r.sections@.len(),
        forall|k: int| 0 <= k < r.sections@.len() ==> (#[trigger] r.sections@[k]).origin is None,
        packed_offsets(r.sections@, n) is Some,
        origin + packed_offsets(r.sections@, n)->Some_0.1 <= end,
    ensures
        place_sections(r, origin, end, n) == Ok::<(Seq<(nat, u64)>, u64), Seq<char>>(
            (
                Seq::new(n as nat, |k: int| (k as nat, packed_offsets(r.sections@, n)->Some_0.0[k])),
                packed_offsets(r.sections@, n)->Some_0.1,
            ),
        ),
    decreases n,
{
    let ss = r.sections@;
    if n > 0 {
        let (prev, pend) = packed_offsets(ss, n - 1)->Some_0;
        let s = ss[n - 1];
        let o = spec_align_up_mask(pend, s.spec_align())->Some_0;
        lemma_align_up_mask_ge(pend, s.spec_align());
        lemma_packed_place(r, origin, end, n - 1);
        lemma_packed_chain(ss, n - 1);
        assert(s.origin is None);
        let len = s.length.spec_value()->Ok_0;
        assert(place_section(r, origin, end, pend, n - 1) == Ok::<(u64, u64), Seq<char>>((o, (o + len) as u64)));
        let offs = packed_offsets(ss, n)->Some_0.0;
        assert(offs == prev.push(o));
        assert forall|k: int| 0 <= k < n - 1 implies offs[k] == prev[k] by {}
        assert(offs[n - 1] == o);
        assert(Seq::new((n - 1) as nat, |k: int| (k as nat, prev[k])).push(((n - 1) as nat, o)) =~= Seq::new(
            n as nat,
            |k: int| (k as nat, offs[k]),
        ));
    } else {
        assert(Seq::new(0, |k: int| (k as nat, packed_offsets(ss, n)->Some_0.0[k])) =~= Seq::<(nat, u64)>::empty());
    }
}

/// Sorting a list already sorted by offset leaves it as it is.
proof fn lemma_sort_of_sorted(s: Seq<(nat, u64)>)
    requires
        offsets_sorted(s),
    ensures
        sort_by_offset(s) == s,
    decreases s.len(),
{
    if s.len() > 0 {
        let init = s.drop_last();
        assert(offsets_sorted(init));
        lemma_sort_of_sorted(init);
        if init.len() == 0 {
            assert(seq![s.last()] =~= s);
        } else {
            assert(init.last().1 <= s.last().1);
            assert(init.push(s.last()) =~= s);
        }
    }
}

/// Packed sections pass the overlap check.
proof fn lemma_packed_no_overlap(r: MemoryRegionDef, offs: Seq<u64>, list: Seq<(nat, u64)>, k: int)
    requires
        0 <= k,
        offs.len() == r.sections@.len(),
        list == Seq::new(r.sections@.len(), |m: int| (m as nat, offs[m])),
        forall|m: int| 0 <= m < r.sections@.len() ==> (#[trigger] r.sections@[m]).length.spec_value() is Ok,
        forall|m: int|
            0 <= m < r.sections@.len() - 1 ==> #[trigger] offs[m] + r.sections@[m].length.spec_value()->Ok_0
                <= offs[m + 1],
    ensures
        check_overlaps(r, list, k) == Ok::<(), Seq<char>>(()),
    decreases list.len() - k,
{
    if k + 1 < list.len() {
        assert(r.sections@[k].length.spec_value() is Ok);
        assert(offs[k] + r.sections@[k].length.spec_value()->Ok_0 <= offs[k + 1]);
        lemma_packed_no_overlap(r, offs, list, k + 1);
    }
}

// ----- sorting lemmas -----

proof fn lemma_insert_by_offset(sorted: Seq<(nat, u64)>, x: (nat, u64), p: int)
    requires
        offsets_sorted(sorted),
        0 <= p <= sorted.len(),
        forall|j: int| 0 <= j < p ==> sorted[j].1 <= x.1,
        p == sorted.len() || sorted[p].1 > x.1,
    ensures
        insert_by_offset(sorted, x) == sorted.insert(p, x),
        offsets_sorted(sorted.insert(p, x)),
    decreases sorted.len(),
{
    sorted.insert_ensures(p, x);
    if sorted.len() == 0 {
        assert(sorted.insert(p, x) =~= seq![x]);
    } else if sorted.last().1 <= x.1 {
        if p < sorted.len() {
            assert(sorted[p].1 <= sorted.last().1);
        }
        assert(sorted.insert(p, x) =~= sorted.push(x));
    } else {
        let d = sorted.drop_last();
        assert(p < sorted.len());
        lemma_insert_by_offset(d, x, p);
        assert(d.insert(p, x).push(sorted.last()) =~= sorted.insert(p, x));
    }
    let r = sorted.insert(p, x);
    assert forall|i: int, j: int| 0 <= i <= j < r.len() implies r[i].1 <= r[j].1 by {
        if i < p && j < p {
        } else if i < p && j == p {
        } else if i < p {
            assert(r[j] == sorted[j - 1]);
        } else if i == p && j == p {
        } else if i == p {
            assert(r[j] == sorted[j - 1]);
            assert(sorted[p].1 <= sorted[j - 1].1);
        } else {
            assert(r[i] == sorted[i - 1]);
            assert(r[j] == sorted[j - 1]);
        }
    }
}

proof fn lemma_sort_sorted(s: Seq<(nat, u64)>)
    ensures
        offsets_sorted(sort_by_offset(s)),
        sort_by_offset(s).len() == s.len(),
        forall|e: (nat, u64)|
            #![trigger sort_by_offset(s).contains(e)]
            #![trigger s.contains(e)]
            sort_by_offset(s).contains(e) <==> s.contains(e),
    decreases s.len(),
{
    if s.len() > 0 {
        let d = s.drop_last();
        lemma_sort_sorted(d);
        let sd = sort_by_offset(d);
        let x = s.last();
        let p = prefix_at_most(sd, x.1, 0);
        lemma_prefix_at_most(sd, x.1, 0);
        lemma_insert_by_offset(sd, x, p);
        let r = sort_by_offset(s);
        sd.insert_ensures(p, x);
        assert(r == sd.insert(p, x));
        assert forall|e: (nat, u64)| r.contains(e) <==> s.contains(e) by {
            if r.contains(e) {
                let i = choose|i: int| 0 <= i < r.len() && r[i] == e;
                if i < p {
                    assert(sd[i] == e);
                    assert(sd.contains(e));
                    let j = choose|j: int| 0 <= j < d.len() && d[j] == e;
                    assert(s[j] == e);
                } else if i == p {
                    assert(s[s.len() - 1] == e);
                } else {
                    assert(sd[i - 1] == e);
                    assert(sd.contains(e));
                    let j = choose|j: int| 0 <= j < d.len() && d[j] == e;
                    assert(s[j] == e);
                }
            }
            if s.contains(e) {
                let i = choose|i: int| 0 <= i < s.len() && s[i] == e;
                if i == s.len() - 1 {
                    assert(r[p] == e);
                } else {
                    assert(d[i] == e);
                    assert(d.contains(e));
                    let j = choose|j: int| 0 <= j < sd.len() && sd[j] == e;
                    if j < p {
                        assert(r[j] == e);
                    } else {
                        assert(r[j + 1] == e);
                    }
                }
            }
        }
    }
}

/// Length of the prefix of `s` (from `from` on) whose offsets are at most `key`.
spec fn prefix_at_most(s: Seq<(nat, u64)>, key: u64, from: int) -> int
    decreases s.len() - from,
{
    if from >= s.len() || from < 0 {
        from
    } else if s[from].1 <= key {
        prefix_at_most(s, key, from + 1)
    } else {
        from
    }
}

proof fn lemma_prefix_at_most(s: Seq<(nat, u64)>, key: u64, from: int)
    requires
        0 <= from <= s.len(),
        forall|j: int| 0 <= j < from ==> s[j].1 <= key,
    ensures
        from <= prefix_at_most(s, key, from) <= s.len(),
        forall|j: int| 0 <= j < prefix_at_most(s, key, from) ==> s[j].1 <= key,
        prefix_at_most(s, key, from) == s.len() || s[prefix_at_most(s, key, from)].1 > key,
    decreases s.len() - from,
{
    if from < s.len() && s[from].1 <= key {
        lemma_prefix_at_most(s, key, from + 1);
    }
}

// ----- execution -----

impl MemoryRegionDef {
    /// Place the `i`-th section after a cursor at `cursor`.
    fn place_one(&self, i: usize, region_origin: u64, region_end: u64, cursor: u64) -> (r: Result<(u64, u64), String>)
        requires
            i < self.sections@.len(),
        ensures
            match (r, place_section(*self, region_origin, region_end, cursor, i as int)) {
                (Ok(v), Ok(w)) => v == w && length_fits(self.sections@[i as int], v.0),
                (Err(e), Err(m)) => e@ == m,
                _ => false,
            },
    {
        let section = &self.sections[i];
        let len = match section.length_u64() {
            Ok(v) => v,
            Err(e) => return Err(e),
        };
        let align = section.align();
        let mut cursor = cursor;
        let offset = match section.origin_u64() {
            Err(e) => return Err(e),
            Ok(Some(abs_origin)) => {
                if abs_origin < region_origin {
                    return Err(before_region_message(&section.name, abs_origin, &self.name, region_origin));
                }
                let rel = abs_origin - region_origin;
                let aligned = match align_up(rel, align) {
                    Some(a) => a,
                    None => return Err(align_overflow_message(&section.name, &self.name)),
                };
                if aligned != rel {
                    return Err(not_aligned_message(&section.name, abs_origin, align));
                }
                rel
            },
            Ok(None) => {
                cursor = match align_up(cursor, align) {
                    Some(c) => c,
                    None => return Err(region_message("alignment overflow in region ", &self.name)),
                };
                cursor
            },
        };
        let end = match offset.checked_add(len) {
            Some(v) => v,
            None => return Err(region_message("section overflow in region ", &self.name)),
        };
        let abs_end = match region_origin.checked_add(end) {
            Some(v) => v,
            None => return Err(region_message("section end overflow in region ", &self.name)),
        };
        if abs_end > region_end {
            return Err(exceeds_message(&section.name, &self.name, abs_end, region_end));
        }
        if section.origin.is_none() {
            cursor = end;
        }
        Ok((offset, cursor))
    }

    /// Place the region's sections and check them: sections at a fixed origin
    /// must lie in the region and be aligned; the others follow their
    /// predecessor at the next aligned offset; every section must end within
    /// the region, and no two may overlap. The result is sorted by offset.
    pub fn resolve_sections(&self) -> (r: Result<Vec<ResolvedSection<'_>>, String>)
        ensures
            match (r, self.spec_resolve_sections()) {
                (Ok(v), Ok(list)) => v@.len() == list.len() && forall|k: int|
                    0 <= k < list.len() ==> list[k].0 < self.sections@.len()
                        && *v@[k].section == self.sections@[list[k].0 as int] && v@[k].offset
                        == list[k].1,
                (Err(e), Err(m)) => e@ == m,
                _ => false,
            },
    {
        reveal(MemoryRegionDef::spec_resolve_sections);
        let region_origin = match self.origin_u64() {
            Ok(v) => v,
            Err(e) => return Err(e),
        };
        let region_len = match self.length_u64() {
            Ok(v) => v,
            Err(e) => return Err(e),
        };
        let region_end = match region_origin.checked_add(region_len) {
            Some(v) => v,
            None => return Err(region_overflow_message(&self.name)),
        };

        let ghost spec_list: Seq<(nat, u64)> = Seq::empty();
        let mut out: Vec<ResolvedSection<'_>> = Vec::new();
        let mut cursor: u64 = 0;
        let mut i: usize = 0;
        while i < self.sections.len()
            invariant
                self.origin.spec_value() == Ok::<u64, Seq<char>>(region_origin),
                self.length.spec_value() == Ok::<u64, Seq<char>>(region_len),
                region_end == region_origin + region_len,
                i <= self.sections@.len(),
                place_sections(*self, region_origin, region_end, i as int) == Ok::<
                    (Seq<(nat, u64)>, u64),
                    Seq<char>,
                >((spec_list, cursor)),
                out@.len() == spec_list.len(),
                forall|k: int|
                    0 <= k < spec_list.len() ==> spec_list[k].0 < i && *out@[k].section
                        == self.sections@[spec_list[k].0 as int] && out@[k].offset == spec_list[k].1,
                forall|k: int|
                    0 <= k < spec_list.len() ==> length_fits(self.sections@[spec_list[k].0 as int], #[trigger] spec_list[k].1),
            decreases self.sections@.len() - i,
        {
            proof {
                reveal(MemoryRegionDef::spec_resolve_sections);
            }
            let section = &self.sections[i];
            let (offset, next_cursor) = match self.place_one(i, region_origin, region_end, cursor) {
                Ok(p) => p,
                Err(e) => {
                    proof {
                        lemma_place_err(*self, region_origin, region_end, i as int + 1, self.sections@.len() as int);
                    }
                    return Err(e);
                },
            };
            out.push(ResolvedSection { section, offset });
            proof {
                spec_list = spec_list.push((i as nat, offset));
            }
            cursor = next_cursor;
            i += 1;
        }
        assert(self.sections@.len() == i);
        proof {
            lemma_sort_sorted(spec_list);
        }

        // Stable insertion sort by offset.
        let ghost sorted_spec: Seq<(nat, u64)> = Seq::empty();
        let mut sorted: Vec<ResolvedSection<'_>> = Vec::new();
        let mut j: usize = 0;
        while j < out.len()
            invariant
                out@.len() == spec_list.len(),
                j <= out@.len(),
                forall|k: int|
                    0 <= k < spec_list.len() ==> spec_list[k].0 < self.sections@.len() && *out@[k].section
                        == self.sections@[spec_list[k].0 as int] && out@[k].offset == spec_list[k].1,
                sorted_spec == sort_by_offset(spec_list.take(j as int)),
                offsets_sorted(sorted_spec),
                sorted@.len() == sorted_spec.len(),
                forall|k: int|
                    0 <= k < sorted_spec.len() ==> sorted_spec[k].0 < self.sections@.len() && *sorted@[k].section
                        == self.sections@[sorted_spec[k].0 as int] && sorted@[k].offset == sorted_spec[k].1,
            decreases out@.len() - j,
        {
            let x_section = out[j].section;
            let x_offset = out[j].offset;
            let ghost x = spec_list[j as int];
            let mut p: usize = 0;
            while p < sorted.len() && sorted[p].offset <= x_offset
                invariant
                    p <= sorted@.len(),
                    sorted@.len() == sorted_spec.len(),
                    forall|k: int| 0 <= k < sorted_spec.len() ==> sorted@[k].offset == sorted_spec[k].1,
                    forall|k: int| 0 <= k < p ==> sorted_spec[k].1 <= x_offset,
                decreases sorted@.len() - p,
            {
                p += 1;
            }
            proof {
                lemma_insert_by_offset(sorted_spec, x, p as int);
                assert(spec_list.take(j + 1).drop_last() =~= spec_list.take(j as int));
                assert(spec_list.take(j + 1).last() == x);
                sorted_spec = sorted_spec.insert(p as int, x);
            }
            sorted.insert(p, ResolvedSection { section: x_section, offset: x_offset });
            j += 1;
        }
        assert(spec_list.take(out@.len() as int) =~= spec_list);

        // Overlap check between neighbours.
        let ghost final_list = sorted_spec;
        assert forall|m: int|
            0 <= m < final_list.len() implies length_fits(self.sections@[final_list[m].0 as int], #[trigger] final_list[m].1) by {
            lemma_member_fits(*self, spec_list, final_list, m);
        }
        let ghost whole = match check_overlaps(*self, final_list, 0) {
            Err(e) => Err(e),
            Ok(()) => Ok(final_list),
        };
        assert(self.spec_resolve_sections() == whole);
        let n = sorted.len();
        let mut k: usize = 0;
        while k + 1 < n
            invariant
                n == sorted@.len(),
                k == 0 || k < n,
                self.spec_resolve_sections() == whole,
                whole == match check_overlaps(*self, final_list, 0) {
                    Err(e) => Err(e),
                    Ok(()) => Ok(final_list),
                },
                sorted@.len() == final_list.len(),
                forall|m: int|
                    0 <= m < final_list.len() ==> final_list[m].0 < self.sections@.len() && *sorted@[m].section
                        == self.sections@[final_list[m].0 as int] && sorted@[m].offset == final_list[m].1,
                forall|m: int|
                    0 <= m < final_list.len() ==> length_fits(self.sections@[final_list[m].0 as int], #[trigger] final_list[m].1),
                check_overlaps(*self, final_list, 0) == check_overlaps(*self, final_list, k as int),
                k <= final_list.len(),
            decreases final_list.len() - k,
        {
            let a = &sorted[k];
            let b = &sorted[k + 1];
            let a_len = match a.section.length_u64() {
                Ok(v) => v,
                Err(e) => return Err(e),
            };
            let a_end = a.offset + a_len;
            if a_end > b.offset {
                return Err(overlap_message(&a.section.name, &b.section.name, &self.name));
            }
            k += 1;
        }
        Ok(sorted)
    }
}

/// An entry of the sorted list comes from the placement, so its section fits at its offset.
proof fn lemma_member_fits(region: MemoryRegionDef, list: Seq<(nat, u64)>, sorted: Seq<(nat, u64)>, k: int)
    requires
        0 <= k < sorted.len(),
        forall|e: (nat, u64)| sorted.contains(e) <==> list.contains(e),
        forall|m: int|
            0 <= m < list.len() ==> length_fits(region.sections@[list[m].0 as int], #[trigger] list[m].1),
    ensures
        length_fits(region.sections@[sorted[k].0 as int], sorted[k].1),
{
    assert(sorted.contains(sorted[k]));
    let m = choose|m: int| 0 <= m < list.len() && list[m] == sorted[k];
    assert(length_fits(region.sections@[list[m].0 as int], list[m].1));
}

/// Every entry of `list` names one of the first `n` sections, which ends by `end`.
pub open spec fn entries_within(region: MemoryRegionDef, origin: u64, end: u64, list: Seq<(nat, u64)>, n: int) -> bool {
    forall|k: int|
        #![trigger list[k]]
        0 <= k < list.len() ==> list[k].0 < n && section_end_within(
            region.sections@[list[k].0 as int],
            origin,
            list[k].1,
            end,
        )
}

/// Placed sections lie within the region: each ends at or before `end`.
proof fn lemma_place_bounds(region: MemoryRegionDef, origin: u64, end: u64, n: int)
    requires
        0 <= n <= region.sections@.len(),
        place_sections(region, origin, end, n) is Ok,
    ensures
        entries_within(region, origin, end, place_sections(region, origin, end, n)->Ok_0.0, n),
    decreases n,
{
    if n > 0 {
        lemma_place_bounds(region, origin, end, n - 1);
        let pair = place_sections(region, origin, end, n - 1)->Ok_0;
        let prev = pair.0;
        let cursor = pair.1;
        let step = place_section(region, origin, end, cursor, n - 1);
        assert(step is Ok);
        let offset = step->Ok_0.0;
        let list = place_sections(region, origin, end, n)->Ok_0.0;
        assert(list == prev.push(((n - 1) as nat, offset)));
        assert(section_end_within(region.sections@[n - 1], origin, offset, end));
        assert forall|k: int| 0 <= k < list.len() implies list[k].0 < n && #[trigger] section_end_within(
            region.sections@[list[k].0 as int],
            origin,
            list[k].1,
            end,
        ) by {
            if k < prev.len() {
                assert(list[k] == prev[k]);
                assert(section_end_within(region.sections@[prev[k].0 as int], origin, prev[k].1, end));
            } else {
                assert(list[k] == ((n - 1) as nat, offset));
            }
        }
        assert(entries_within(region, origin, end, list, n));
    } else {
        assert(place_sections(region, origin, end, n)->Ok_0.0 =~= Seq::<(nat, u64)>::empty());
    }
}

/// The section, placed at `offset` in a region starting at `origin`, ends by `end`.
pub open spec fn section_end_within(s: MemorySectionDef, origin: u64, offset: u64, end: u64) -> bool {
    match s.length.spec_value() {
        Ok(l) => origin + offset + l <= end,
        Err(_) => false,
    }
}

/// A successful resolution is the sorted placement.
proof fn lemma_resolve_is_sorted_placement(region: MemoryRegionDef)
    requires
        region.spec_resolve_sections() is Ok,
    ensures
        region.origin.spec_value() is Ok,
        region.length.spec_value() is Ok,
        region.origin.spec_value()->Ok_0 + region.length.spec_value()->Ok_0 <= u64::MAX,
        place_sections(
            region,
            region.origin.spec_value()->Ok_0,
            (region.origin.spec_value()->Ok_0 + region.length.spec_value()->Ok_0) as u64,
            region.sections@.len() as int,
        ) is Ok,
        region.spec_resolve_sections()->Ok_0 == sort_by_offset(
            place_sections(
                region,
                region.origin.spec_value()->Ok_0,
                (region.origin.spec_value()->Ok_0 + region.length.spec_value()->Ok_0) as u64,
                region.sections@.len() as int,
            )->Ok_0.0,
        ),
{
    reveal(MemoryRegionDef::spec_resolve_sections);
}

/// Every resolved section lies within its region: it starts at or after the
/// region origin and ends at or before the region end.
pub proof fn lemma_resolved_sections_within_region(region: MemoryRegionDef)
    requires
        region.spec_resolve_sections() is Ok,
    ensures
        region.origin.spec_value() is Ok,
        region.length.spec_value() is Ok,
        region.origin.spec_value()->Ok_0 + region.length.spec_value()->Ok_0 <= u64::MAX,
        entries_within(
            region,
            region.origin.spec_value()->Ok_0,
            (region.origin.spec_value()->Ok_0 + region.length.spec_value()->Ok_0) as u64,
            region.spec_resolve_sections()->Ok_0,
            region.sections@.len() as int,
        ),
{
    lemma_resolve_is_sorted_placement(region);
    let origin = region.origin.spec_value()->Ok_0;
    let end = (origin + region.length.spec_value()->Ok_0) as u64;
    let n = region.sections@.len() as int;
    let placed = place_sections(region, origin, end, n)->Ok_0.0;
    lemma_place_bounds(region, origin, end, n);
    lemma_sort_sorted(placed);
    lemma_entries_within_sorted(region, origin, end, placed, n);
}

/// No section runs into the one after it: each of `sorted` except the last
/// ends at or before the next one's offset.
pub open spec fn consecutive_disjoint(region: MemoryRegionDef, sorted: Seq<(nat, u64)>) -> bool {
    forall|k: int|
        #![trigger sorted[k]]
        0 <= k < sorted.len() - 1 ==> {
            let len = region.sections@[sorted[k].0 as int].length.spec_value();
            &&& len is Ok
            &&& sorted[k].1 + len->Ok_0 <= sorted[k + 1].1
        }
}

/// Some entry of `list` is section `i`.
pub open spec fn lists_section(list: Seq<(nat, u64)>, i: int) -> bool {
    exists|k: int| 0 <= k < list.len() && (#[trigger] list[k]).0 == i
}

/// A successful resolution lists each section of the region exactly once,
/// sorted by offset, and no section overlaps the next.
pub proof fn lemma_resolved_sections_ordered(region: MemoryRegionDef)
    requires
        region.spec_resolve_sections() is Ok,
    ensures
        region.spec_resolve_sections()->Ok_0.len() == region.sections@.len(),
        offsets_sorted(region.spec_resolve_sections()->Ok_0),
        consecutive_disjoint(region, region.spec_resolve_sections()->Ok_0),
        forall|i: int| 0 <= i < region.sections@.len() ==> #[trigger] lists_section(region.spec_resolve_sections()->Ok_0, i),
{
    lemma_resolve_is_sorted_placement(region);
    reveal(MemoryRegionDef::spec_resolve_sections);
    let origin = region.origin.spec_value()->Ok_0;
    let end = (origin + region.length.spec_value()->Ok_0) as u64;
    let n = region.sections@.len() as int;
    let placed = place_sections(region, origin, end, n)->Ok_0.0;
    let sorted = region.spec_resolve_sections()->Ok_0;
    lemma_place_indices(region, origin, end, n);
    lemma_sort_sorted(placed);
    lemma_check_overlaps_ok(region, sorted, 0);
    assert forall|i: int| 0 <= i < n implies #[trigger] lists_section(sorted, i) by {
        assert(placed[i].0 == i);
        assert(placed.contains(placed[i]));
        assert(sorted.contains(placed[i]));
        let k = choose|k: int| 0 <= k < sorted.len() && sorted[k] == placed[i];
        assert(sorted[k].0 == i);
    }
}

/// Placing the first `n` sections lists them in declaration order.
proof fn lemma_place_indices(region: MemoryRegionDef, origin: u64, end: u64, n: int)
    requires
        0 <= n,
        place_sections(region, origin, end, n) is Ok,
    ensures
        place_sections(region, origin, end, n)->Ok_0.0.len() == n,
        forall|k: int| 0 <= k < n ==> (#[trigger] place_sections(region, origin, end, n)->Ok_0.0[k]).0 == k,
    decreases n,
{
    if n > 0 {
        lemma_place_indices(region, origin, end, n - 1);
        let prev = place_sections(region, origin, end, n - 1)->Ok_0.0;
        let list = place_sections(region, origin, end, n)->Ok_0.0;
        assert forall|k: int| 0 <= k < n implies (#[trigger] list[k]).0 == k by {
            if k < n - 1 {
                assert(list[k] == prev[k]);
            }
        }
    }
}

/// A passed overlap check from the `k`-th pair on means no overlap from there on.
proof fn lemma_check_overlaps_ok(region: MemoryRegionDef, sorted: Seq<(nat, u64)>, k: int)
    requires
        0 <= k,
        check_overlaps(region, sorted, k) is Ok,
    ensures
        forall|j: int|
            #![trigger sorted[j]]
            k <= j < sorted.len() - 1 ==> {
                let len = region.sections@[sorted[j].0 as int].length.spec_value();
                &&& len is Ok
                &&& sorted[j].1 + len->Ok_0 <= sorted[j + 1].1
            },
    decreases sorted.len() - k,
{
    if k + 1 < sorted.len() {
        lemma_check_overlaps_ok(region, sorted, k + 1);
    }
}

/// Sorting keeps every entry within its region.
proof fn lemma_entries_within_sorted(region: MemoryRegionDef, origin: u64, end: u64, placed: Seq<(nat, u64)>, n: int)
    requires
        entries_within(region, origin, end, placed, n),
    ensures
        entries_within(region, origin, end, sort_by_offset(placed), n),
{
    lemma_sort_sorted(placed);
    let list = sort_by_offset(placed);
    assert forall|k: int| #![trigger list[k]] 0 <= k < list.len() implies list[k].0 < n && section_end_within(
        region.sections@[list[k].0 as int],
        origin,
        list[k].1,
        end,
    ) by {
        assert(list.contains(list[k]));
        let m = choose|m: int| 0 <= m < placed.len() && placed[m] == list[k];
        assert(placed[m] == list[k]);
    }
}

/// Once placement fails, placing more sections does not change the error.
proof fn lemma_place_err(region: MemoryRegionDef, origin: u64, end: u64, m: int, n: int)
    requires
        0 <= m <= n,
        place_sections(region, origin, end, m) is Err,
    ensures
        place_sections(region, origin, end, n) == place_sections(region, origin, end, m),
    decreases n - m,
{
    if n > m {
        lemma_place_err(region, origin, end, m, n - 1);
    }
}

} // verus!

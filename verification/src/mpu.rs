//! Cortex-M7 MPU configuration derived from a memory layout.
//!
//! Register layout: MPU Region Attribute and Size Register (RASR) and MPU
//! Region Base Address Register (RBAR) of the Cortex-M7.

use vstd::prelude::*;

use crate::memory::region::MemoryRegionSpec;
use crate::memory::{MemoryLayout, MpuAttrs};

verus! {

/// RASR execute-never bit.
pub const MPU_XN: u32 = 0x1000_0000;

/// RASR region enable bit (also the MPU_CTRL enable bit).
pub const MPU_ENABLE: u32 = 1;

/// RASR access permission field: full access.
pub const MPU_AP_FULL_ACCESS: u32 = 0x0300_0000;

/// MPU_CTRL PRIVDEFENA: the default memory map for privileged accesses.
pub const MPU_DEFAULT_MMAP_FOR_PRIVILEGED: u32 = 0x04;

/// Floor of the base-2 logarithm.
pub open spec fn floor_log2(n: nat) -> nat
    decreases n,
{
    if n <= 1 {
        0
    } else {
        1 + floor_log2(n / 2)
    }
}

proof fn lemma_floor_log2_bound(n: nat, m: nat)
    requires
        m >= 1,
        n < vstd::arithmetic::power2::pow2(m),
    ensures
        floor_log2(n) < m,
    decreases m,
{
    if n > 1 {
        vstd::arithmetic::power2::lemma_pow2_unfold(m);
        if m == 1 {
            vstd::arithmetic::power2::lemma2_to64();
        } else {
            lemma_floor_log2_bound(n / 2, (m - 1) as nat);
        }
    }
}

/// The logarithm of `2^k` is `k`, so a region of `2^k` bytes gets the size
/// field `k - 1`, for which the MPU's region size `2^(field + 1)` is the
/// region's size.
pub proof fn lemma_size_field_of_power_of_two(k: nat)
    ensures
        floor_log2(vstd::arithmetic::power2::pow2(k)) == k,
    decreases k,
{
    let p = vstd::arithmetic::power2::pow2(k);
    if k == 0 {
        vstd::arithmetic::power2::lemma2_to64();
    } else {
        vstd::arithmetic::power2::lemma_pow2_unfold(k);
        vstd::arithmetic::power2::lemma_pow2_pos((k - 1) as nat);
        lemma_size_field_of_power_of_two((k - 1) as nat);
        assert(p > 1);
        assert(p / 2 == vstd::arithmetic::power2::pow2((k - 1) as nat));
        assert(floor_log2(p) == 1 + floor_log2(p / 2));
    }
}

/// The RASR size field for a region of `size` bytes: `log2(size) - 1`.
pub fn mpu_size_field(size: usize) -> (r: u32)
    requires
        size >= 2,
    ensures
        r == floor_log2(size as nat) - 1,
{
    proof {
        vstd::arithmetic::power2::lemma2_to64_rest();
        lemma_floor_log2_bound(size as nat, 64);
    }
    let mut v = size;
    let mut k: u32 = 0;
    while v > 1
        invariant
            1 <= v <= size,
            floor_log2(size as nat) < 64,
            floor_log2(size as nat) == k + floor_log2(v as nat),
        decreases v,
    {
        v = v / 2;
        k += 1;
    }
    k - 1
}

/// The RASR attribute bits: TEX in bits 19-21, then S, C and B in bits 18, 17, 16.
pub open spec fn spec_mpu_attrs(tex: u8, c: bool, b: bool, s: bool) -> u32 {
    ((tex % 8) as nat * 0x80000 + (if s { 0x40000nat } else { 0 }) + (if c { 0x20000nat } else { 0 }) + (
    if b {
        0x10000nat
    } else {
        0
    })) as u32
}

/// The RASR attribute bits for TEX, cacheable, bufferable and shareable.
pub fn mpu_attrs(tex: u8, c: bool, b: bool, s: bool) -> (r: u32)
    ensures
        r == spec_mpu_attrs(tex, c, b, s),
{
    let t = tex as u32;
    let sv: u32 = if s {
        1
    } else {
        0
    };
    let cv: u32 = if c {
        1
    } else {
        0
    };
    let bv: u32 = if b {
        1
    } else {
        0
    };
    let r = ((t & 0b111) << 19) | sv << 18 | cv << 17 | bv << 16;
    assert(r == (t % 8) * 0x80000 + sv * 0x40000 + cv * 0x20000 + bv * 0x10000) by (bit_vector)
        requires
            t < 256,
            sv <= 1,
            cv <= 1,
            bv <= 1,
            r == ((t & 0b111) << 19) | sv << 18 | cv << 17 | bv << 16,
    ;
    r
}

/// The RASR value `mpu_rasr` gives: the attribute bits, full access, the
/// size field and the enable bit.
pub open spec fn rasr_word(size: usize, attrs: u32) -> u32 {
    attrs | MPU_AP_FULL_ACCESS | ((floor_log2(size as nat) - 1) as u32) << 1u32 | MPU_ENABLE
}

/// What each field of an RASR value holds: the enable bit is set, the size
/// field (bits 1..5) is `log2(size) - 1`, the access permission field (bits
/// 24..26) grants full access, and the attribute bits (TEX, S, C, B, XN) are
/// those given, for attribute bits as `region_attrs` makes them.
pub proof fn lemma_rasr_fields(size: usize, attrs: u32)
    requires
        size >= 2,
        floor_log2(size as nat) <= 32,
        attrs & !0x103F_0000u32 == 0,
    ensures
        ({
            let w = rasr_word(size, attrs);
            &&& w & 1u32 == 1u32
            &&& (w >> 1u32) & 0x1fu32 == (floor_log2(size as nat) - 1) as u32
            &&& (w >> 24u32) & 7u32 == 3u32
            &&& w & 0x103F_0000u32 == attrs
            &&& w & 0xECC0_FFC0u32 == 0
        }),
{
    assert(floor_log2(size as nat) >= 1);
    let f: u32 = (floor_log2(size as nat) - 1) as u32;
    let w = rasr_word(size, attrs);
    assert(w == attrs | 0x0300_0000u32 | f << 1u32 | 1u32);
    assert({
        &&& w & 1u32 == 1u32
        &&& (w >> 1u32) & 0x1fu32 == f
        &&& (w >> 24u32) & 7u32 == 3u32
        &&& w & 0x103F_0000u32 == attrs
        &&& w & 0xECC0_FFC0u32 == 0
    }) by (bit_vector)
        requires
            f < 32,
            attrs & !0x103F_0000u32 == 0,
            w == attrs | 0x0300_0000u32 | f << 1u32 | 1u32,
    ;
}

/// The RBAR value `mpu_rbar` gives: the base address, the valid bit and the
/// region number.
pub open spec fn rbar_word(base: usize, region: u32) -> u32 {
    (base as u32) | 0x10u32 | (region & 0xfu32)
}

/// What each field of an RBAR value holds: the region number in bits 0..3,
/// the valid bit 4 set, and the base address, for a 32-byte aligned base that
/// fits in 32 bits, in the bits above.
pub proof fn lemma_rbar_fields(base: usize, region: u32)
    requires
        base % 32 == 0,
        base <= u32::MAX,
    ensures
        ({
            let w = rbar_word(base, region);
            &&& w & 0xfu32 == region & 0xfu32
            &&& (w >> 4u32) & 1u32 == 1u32
            &&& w & !0x1fu32 == base as u32
        }),
{
    let b: u32 = base as u32;
    assert(b % 32 == 0);
    let w = rbar_word(base, region);
    assert(w == b | 0x10u32 | (region & 0xfu32));
    assert({
        &&& w & 0xfu32 == region & 0xfu32
        &&& (w >> 4u32) & 1u32 == 1u32
        &&& w & !0x1fu32 == b
    }) by (bit_vector)
        requires
            b % 32 == 0,
            w == b | 0x10u32 | (region & 0xfu32),
    ;
}

/// The RASR value of an enabled, full-access region of `size` bytes with the
/// attribute bits `attrs` (which carry the execute-never bit when the region
/// is not executable).
pub fn mpu_rasr(size: usize, attrs: u32) -> (r: u32)
    requires
        size >= 2,
    ensures
        r == rasr_word(size, attrs),
{
    let field = mpu_size_field(size);
    attrs | MPU_AP_FULL_ACCESS | (field << 1) | MPU_ENABLE
}

/// The RBAR value selecting region `region` at address `base`.
pub fn mpu_rbar(base: usize, region: u32) -> (r: u32)
    ensures
        r == rbar_word(base, region),
{
    (base as u32) | 0x10 | (region & 0xf)
}

/// One MPU region to program.
#[derive(Debug, Clone, Copy, PartialEq, Eq)]
pub struct MpuRegionConfig {
    pub region: u32,
    pub base: usize,
    pub size: usize,
    pub attrs: u32,
}

/// The RASR attribute bits of a set of MPU attributes: TEX, S, C and B, and
/// the execute-never bit exactly when the region is not executable.
pub open spec fn attr_bits(a: MpuAttrs) -> u32 {
    (spec_mpu_attrs(a.tex, a.cacheable, a.bufferable, a.shareable) + if a.executable {
        0
    } else {
        MPU_XN
    }) as u32
}

/// What each field of the attributes sets in the RASR attribute word of
/// `region_attrs`: TEX (its low three bits) in bits 19..21, shareable in bit
/// 18, cacheable in bit 17, bufferable in bit 16, execute-never in bit 28
/// exactly when the attributes are not executable, and no other bit.
pub proof fn lemma_region_attrs_fields(a: MpuAttrs)
    ensures
        ({
            let w = attr_bits(a);
            &&& (w >> 19u32) & 7u32 == (a.tex % 8) as u32
            &&& (w >> 18u32) & 1u32 == (if a.shareable { 1u32 } else { 0u32 })
            &&& (w >> 17u32) & 1u32 == (if a.cacheable { 1u32 } else { 0u32 })
            &&& (w >> 16u32) & 1u32 == (if a.bufferable { 1u32 } else { 0u32 })
            &&& (w >> 28u32) & 1u32 == (if a.executable { 0u32 } else { 1u32 })
            &&& w & !0x103F_0000u32 == 0u32
        }),
{
    let w = attr_bits(a);
    let t: u32 = (a.tex % 8) as u32;
    let sv: u32 = if a.shareable { 1 } else { 0 };
    let cv: u32 = if a.cacheable { 1 } else { 0 };
    let bv: u32 = if a.bufferable { 1 } else { 0 };
    let xv: u32 = if a.executable { 0 } else { 1 };
    assert(w == t * 0x80000 + sv * 0x40000 + cv * 0x20000 + bv * 0x10000 + xv * 0x1000_0000);
    assert({
        &&& (w >> 19u32) & 7u32 == t
        &&& (w >> 18u32) & 1u32 == sv
        &&& (w >> 17u32) & 1u32 == cv
        &&& (w >> 16u32) & 1u32 == bv
        &&& (w >> 28u32) & 1u32 == xv
        &&& w & !0x103F_0000u32 == 0u32
    }) by (bit_vector)
        requires
            t < 8,
            sv <= 1,
            cv <= 1,
            bv <= 1,
            xv <= 1,
            w == t * 0x80000 + sv * 0x40000 + cv * 0x20000 + bv * 0x10000 + xv * 0x1000_0000,
    ;
}

/// The RASR attribute bits of a set of MPU attributes, execute-never unless
/// the attributes make the region executable.
pub fn region_attrs(a: MpuAttrs) -> (r: u32)
    ensures
        r == attr_bits(a),
{
    let bits = mpu_attrs(a.tex, a.cacheable, a.bufferable, a.shareable);
    if a.executable {
        bits
    } else {
        assert(bits < 0x40_0000);
        assert(bits | 0x1000_0000u32 == bits + 0x1000_0000) by (bit_vector)
            requires
                bits < 0x40_0000,
        ;
        bits | MPU_XN
    }
}

/// MPU regions for the first `n` sections of `r`, each resolved through the layout.
pub open spec fn section_mpu_entries(layout: MemoryLayout, r: MemoryRegionSpec, n: int) -> Seq<(usize, usize, u32)>
    decreases n,
{
    if n <= 0 {
        Seq::empty()
    } else {
        let s = layout.spec_section(r.name@, r.section_list()[n - 1].name@)->Some_0;
        section_mpu_entries(layout, r, n - 1) + section_mpu_entry(s)
    }
}

/// MPU regions for a region with MPU attributes, then for its sections with MPU attributes.
pub open spec fn region_mpu_entries(layout: MemoryLayout, r: MemoryRegionSpec) -> Seq<(usize, usize, u32)> {
    own_mpu_entry(r) + section_mpu_entries(layout, r, r.section_list().len() as int)
}

/// The MPU region for a region's own MPU attributes, if it has any.
pub open spec fn own_mpu_entry(r: MemoryRegionSpec) -> Seq<(usize, usize, u32)> {
    match r.mpu {
        Some(a) => seq![(r.origin, r.length, attr_bits(a))],
        None => Seq::empty(),
    }
}

/// The MPU region for a resolved section's MPU attributes, if it has any.
pub open spec fn section_mpu_entry(s: crate::memory::section::MemorySection) -> Seq<(usize, usize, u32)> {
    match s.mpu {
        Some(a) => seq![(s.origin, s.length, attr_bits(a))],
        None => Seq::empty(),
    }
}

/// MPU regions for the first `n` regions of the layout.
pub open spec fn mpu_entries(layout: MemoryLayout, n: int) -> Seq<(usize, usize, u32)>
    decreases n,
{
    if n <= 0 {
        Seq::empty()
    } else {
        mpu_entries(layout, n - 1) + region_mpu_entries(layout, layout.regions@[n - 1])
    }
}

/// Every section of every region resolves by name through the layout.
pub open spec fn sections_resolvable(layout: MemoryLayout) -> bool {
    forall|i: int, j: int|
        0 <= i < layout.regions@.len() && 0 <= j < layout.regions@[i].section_list().len()
            ==> #[trigger] section_resolvable(layout, layout.regions@[i], j)
}

/// The `j`-th section of `r`, looked up by the names of both, resolves.
pub open spec fn section_resolvable(layout: MemoryLayout, r: MemoryRegionSpec, j: int) -> bool {
    let name = r.section_list()[j].name@;
    &&& layout.can_resolve_section(r.name@, name)
    &&& layout.spec_section(r.name@, name) is Some
}

/// Whether the MPU regions of a layout whose sections can all be placed can
/// be computed: every section is found again by its region's and its own
/// name, and there are at most `u32::MAX` MPU regions.
pub fn mpu_layout_ok(layout: &MemoryLayout) -> (r: bool)
    requires
        layout.layout_placeable(),
    ensures
        r == (sections_resolvable(*layout) && mpu_entries(*layout, layout.regions@.len() as int).len() <= u32::MAX),
{
    let ghost n = layout.regions@.len() as int;
    let mut count: u64 = 0;
    let mut i: usize = 0;
    while i < layout.regions.len()
        invariant
            layout.layout_placeable(),
            n == layout.regions@.len(),
            i <= n,
            count == mpu_entries(*layout, i as int).len(),
            count <= u32::MAX,
            forall|a: int, b: int|
                0 <= a < i && 0 <= b < layout.regions@[a].section_list().len()
                    ==> #[trigger] section_resolvable(*layout, layout.regions@[a], b),
        decreases n - i,
    {
        let region = layout.regions[i];
        proof {
            lemma_entries_prefix(*layout, i as int + 1, n);
        }
        if region.mpu.is_some() {
            count = count + 1;
            if count > 0xFFFF_FFFF {
                proof {
                    lemma_entries_prefix(*layout, i as int + 1, n);
                    assert(mpu_entries(*layout, i as int + 1).len() >= count) by {
                        lemma_section_entries_prefix(*layout, region, 0, region.section_list().len() as int);
                    }
                }
                return false;
            }
        }
        let ghost head = mpu_entries(*layout, i as int) + own_mpu_entry(region);
        assert(count == head.len());
        if let Some(sections) = region.sections {
            let mut j: usize = 0;
            while j < sections.len()
                invariant
                    layout.layout_placeable(),
                    n == layout.regions@.len(),
                    i < n,
                    region == layout.regions@[i as int],
                    region.sections == Some(sections),
                    count == (head + section_mpu_entries(*layout, region, j as int)).len(),
                    head == mpu_entries(*layout, i as int) + own_mpu_entry(region),
                    count <= u32::MAX,
                    j <= sections@.len(),
                    forall|a: int, b: int|
                        0 <= a < i && 0 <= b < layout.regions@[a].section_list().len()
                            ==> #[trigger] section_resolvable(*layout, layout.regions@[a], b),
                    forall|b: int| 0 <= b < j ==> #[trigger] section_resolvable(*layout, region, b),
                decreases sections@.len() - j,
            {
                let section = sections[j];
                proof {
                    assert(region.section_list()[j as int] == section);
                    layout.lemma_placeable_sections_resolve(region.name@, section.name@);
                }
                let s = layout.section(region.name, section.name);
                let s = match s {
                    Some(s) => s,
                    None => {
                        proof {
                            assert(!section_resolvable(*layout, layout.regions@[i as int], j as int));
                        }
                        return false;
                    },
                };
                proof {
                    assert(section_resolvable(*layout, region, j as int));
                    assert(head + section_mpu_entries(*layout, region, j + 1) =~= (head
                        + section_mpu_entries(*layout, region, j as int)) + section_mpu_entry(s));
                }
                if s.mpu.is_some() {
                    count = count + 1;
                    if count > 0xFFFF_FFFF {
                        proof {
                            lemma_section_entries_prefix(*layout, region, j + 1, sections@.len() as int);
                            assert(mpu_entries(*layout, i + 1) =~= head + section_mpu_entries(
                                *layout,
                                region,
                                sections@.len() as int,
                            ));
                            lemma_entries_prefix(*layout, i as int + 1, n);
                        }
                        return false;
                    }
                }
                j += 1;
            }
            proof {
                assert(mpu_entries(*layout, i + 1) =~= head + section_mpu_entries(
                    *layout,
                    region,
                    sections@.len() as int,
                ));
            }
        } else {
            proof {
                assert(mpu_entries(*layout, i + 1) =~= head + section_mpu_entries(*layout, region, 0));
            }
        }
        i += 1;
    }
    true
}

/// The MPU regions to program for a layout, numbered from 0: each region with
/// MPU attributes, followed by each of its sections with MPU attributes.
pub fn mpu_regions(layout: &MemoryLayout) -> (r: Vec<MpuRegionConfig>)
    requires
        sections_resolvable(*layout),
        mpu_entries(*layout, layout.regions@.len() as int).len() <= u32::MAX,
    ensures
        r@.len() == mpu_entries(*layout, layout.regions@.len() as int).len(),
        forall|k: int|
            #![trigger r@[k]]
            0 <= k < r@.len() ==> {
                let e = mpu_entries(*layout, layout.regions@.len() as int)[k];
                r@[k] == MpuRegionConfig { region: k as u32, base: e.0, size: e.1, attrs: e.2 }
            },
{
    let ghost total = mpu_entries(*layout, layout.regions@.len() as int);
    let mut out: Vec<MpuRegionConfig> = Vec::new();
    let mut index: u32 = 0;
    let mut i: usize = 0;
    while i < layout.regions.len()
        invariant
            sections_resolvable(*layout),
            total == mpu_entries(*layout, layout.regions@.len() as int),
            total.len() <= u32::MAX,
            i <= layout.regions@.len(),
            index == out@.len(),
            out@.len() == mpu_entries(*layout, i as int).len(),
            mpu_entries(*layout, i as int).len() <= total.len(),
            forall|k: int|
                #![trigger out@[k]]
                0 <= k < out@.len() ==> {
                    let e = mpu_entries(*layout, i as int)[k];
                    out@[k] == MpuRegionConfig { region: k as u32, base: e.0, size: e.1, attrs: e.2 }
                },
        decreases layout.regions@.len() - i,
    {
        let region = layout.regions[i];
        proof {
            lemma_entries_prefix(*layout, i as int + 1, layout.regions@.len() as int);
        }
        let ghost before = mpu_entries(*layout, i as int);
        let ghost head: Seq<(usize, usize, u32)> = own_mpu_entry(region);
        if let Some(attrs) = region.mpu {
            let bits = region_attrs(attrs);
            out.push(MpuRegionConfig { region: index, base: region.origin, size: region.length, attrs: bits });
            index += 1;
        }
        proof {
            assert forall|k: int| #![trigger out@[k]] 0 <= k < out@.len() implies {
                let e = (before + head)[k];
                out@[k] == MpuRegionConfig { region: k as u32, base: e.0, size: e.1, attrs: e.2 }
            } by {
                if k < before.len() {
                    assert((before + head)[k] == before[k]);
                }
            }
        }
        if let Some(sections) = region.sections {
            let mut j: usize = 0;
            while j < sections.len()
                invariant
                    sections_resolvable(*layout),
                    i < layout.regions@.len(),
                    region == layout.regions@[i as int],
                    region.sections == Some(sections),
                    total == mpu_entries(*layout, layout.regions@.len() as int),
                    total.len() <= u32::MAX,
                    (before + head + section_mpu_entries(*layout, region, sections@.len() as int)).len()
                        <= total.len(),
                    j <= sections@.len(),
                    index == out@.len(),
                    out@.len() == (before + head + section_mpu_entries(*layout, region, j as int)).len(),
                    forall|k: int|
                        #![trigger out@[k]]
                        0 <= k < out@.len() ==> {
                            let e = (before + head + section_mpu_entries(*layout, region, j as int))[k];
                            out@[k] == MpuRegionConfig { region: k as u32, base: e.0, size: e.1, attrs: e.2 }
                        },
                decreases sections@.len() - j,
            {
                let section = sections[j];
                proof {
                    lemma_section_entries_prefix(*layout, region, j as int + 1, sections@.len() as int);
                    assert(region.section_list()[j as int] == section);
                    assert(section_resolvable(*layout, layout.regions@[i as int], j as int));
                }
                let s = layout.section(region.name, section.name);
                let s = s.unwrap();
                let ghost prev = before + head + section_mpu_entries(*layout, region, j as int);
                if let Some(attrs) = s.mpu {
                    let bits = region_attrs(attrs);
                    out.push(MpuRegionConfig { region: index, base: s.origin, size: s.length, attrs: bits });
                    index += 1;
                }
                proof {
                    let next = before + head + section_mpu_entries(*layout, region, j + 1);
                    assert(next =~= prev + section_mpu_entry(s));
                    assert forall|k: int| #![trigger out@[k]] 0 <= k < out@.len() implies {
                        let e = next[k];
                        out@[k] == MpuRegionConfig { region: k as u32, base: e.0, size: e.1, attrs: e.2 }
                    } by {
                        if k < prev.len() {
                            assert(next[k] == prev[k]);
                        }
                    }
                }
                j += 1;
            }
            proof {
                assert(before + head + section_mpu_entries(*layout, region, sections@.len() as int) =~= mpu_entries(
                    *layout,
                    i + 1,
                ));
            }
        } else {
            proof {
                assert(before + head + section_mpu_entries(*layout, region, 0) =~= mpu_entries(*layout, i + 1));
                assert(before + head =~= mpu_entries(*layout, i + 1));
            }
        }
        i += 1;
    }
    out
}

proof fn lemma_entries_prefix(layout: MemoryLayout, m: int, n: int)
    requires
        0 <= m <= n,
    ensures
        mpu_entries(layout, m).len() <= mpu_entries(layout, n).len(),
    decreases n - m,
{
    if m < n {
        lemma_entries_prefix(layout, m, n - 1);
    }
}

proof fn lemma_section_entries_prefix(layout: MemoryLayout, r: MemoryRegionSpec, m: int, n: int)
    requires
        0 <= m <= n,
    ensures
        section_mpu_entries(layout, r, m).len() <= section_mpu_entries(layout, r, n).len(),
    decreases n - m,
{
    if m < n {
        lemma_section_entries_prefix(layout, r, m, n - 1);
    }
}

} // verus!

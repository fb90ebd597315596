//! `memory.x` linker script generation from a [`MemoryLayout`].

use vstd::prelude::*;

use crate::memory::region::{
    effective_align, lemma_index_and_name_agree, placement_ok_upto, placement_step_ok, region_placeable, section_offset,
    MemoryRegionSpec,
};
use crate::memory::section::MemorySectionSpec;
use crate::memory::{first_match, lemma_first_match, lemma_first_match_props, region_names, MemoryLayout};
use crate::text::{
    chars_of, decimal, hex_padded, push_char, push_decimal, push_hex_padded, push_str, string_of,
};
use crate::{align_up, str_eq};

verus! {

/// ASCII lowercase, with spaces, dashes and slashes turned into underscores.
pub open spec fn linker_char(c: char) -> char {
    if 'A' <= c && c <= 'Z' {
        ((c as int) + 32) as char
    } else if c == ' ' || c == '-' || c == '/' {
        '_'
    } else {
        c
    }
}

/// Output section name for a section: its name mapped by [`linker_char`],
/// with a leading `.` unless it already starts with one.
pub open spec fn linker_section_name(name: Seq<char>) -> Seq<char> {
    let s = Seq::new(name.len(), |i: int| linker_char(name[i]));
    if s.len() > 0 && s[0] == '.' {
        s
    } else {
        seq!['.'] + s
    }
}

/// A region length in KiB when it is a whole number of KiB, else in bytes; then a newline.
pub open spec fn length_tail(length: nat) -> Seq<char> {
    if length % 1024 == 0 {
        decimal(length / 1024) + "K\n"@
    } else {
        decimal(length) + "\n"@
    }
}

/// One line of the MEMORY command.
pub open spec fn memory_line(name: Seq<char>, origin: nat, length: nat) -> Seq<char> {
    "  "@ + name + " : ORIGIN = 0x"@ + hex_padded(origin, 8) + ", LENGTH = "@ + length_tail(length)
}

/// MEMORY lines of the first `n` regions.
pub open spec fn region_lines(regions: Seq<MemoryRegionSpec>, n: int) -> Seq<char>
    decreases n,
{
    if n <= 0 {
        Seq::empty()
    } else {
        region_lines(regions, n - 1) + memory_line(
            regions[n - 1].name@,
            regions[n - 1].origin as nat,
            regions[n - 1].length as nat,
        )
    }
}

/// The region that the `a`-th alias points at.
pub open spec fn alias_target(layout: MemoryLayout, a: int) -> MemoryRegionSpec {
    layout.regions@[layout.region_index(layout.aliases@[a].target@)]
}

/// MEMORY lines of the first `n` aliases: each repeats its target's origin and length.
pub open spec fn alias_lines(layout: MemoryLayout, n: int) -> Seq<char>
    decreases n,
{
    if n <= 0 {
        Seq::empty()
    } else {
        alias_lines(layout, n - 1) + memory_line(
            layout.aliases@[n - 1].name@,
            alias_target(layout, n - 1).origin as nat,
            alias_target(layout, n - 1).length as nat,
        )
    }
}

/// Output section of the `i`-th section of `region`.
pub open spec fn section_block(region: MemoryRegionSpec, i: int) -> Seq<char> {
    let secs = region.section_list();
    let sec = linker_section_name(secs[i].name@);
    let align = decimal(effective_align(secs[i].align));
    "  "@ + sec + " 0x"@ + hex_padded((region.origin + section_offset(secs, i)) as nat, 8)
        + " (NOLOAD) :\n  {\n    . = ALIGN("@ + align + ");\n    KEEP(*("@ + sec + "));\n    . = ALIGN("@
        + align + ");\n  } > "@ + region.name@ + "\n\n"@
}

/// Output sections of the first `n` sections of `region`.
pub open spec fn region_section_blocks(region: MemoryRegionSpec, n: int) -> Seq<char>
    decreases n,
{
    if n <= 0 {
        Seq::empty()
    } else {
        region_section_blocks(region, n - 1) + section_block(region, n - 1)
    }
}

/// Output sections of all sections of the first `n` regions.
pub open spec fn section_blocks(regions: Seq<MemoryRegionSpec>, n: int) -> Seq<char>
    decreases n,
{
    if n <= 0 {
        Seq::empty()
    } else {
        section_blocks(regions, n - 1) + region_section_blocks(
            regions[n - 1],
            regions[n - 1].section_list().len() as int,
        )
    }
}

/// The linker script for `layout`.
pub open spec fn linker_script(layout: MemoryLayout) -> Seq<char> {
    "MEMORY\n{\n"@ + region_lines(layout.regions@, layout.regions@.len() as int) + alias_lines(
        layout,
        layout.aliases@.len() as int,
    ) + "}\n\n"@ + "SECTIONS\n{\n"@ + section_blocks(layout.regions@, layout.regions@.len() as int)
        + "}\n"@
}

/// A layout the linker script can be generated for: no alias is named like a
/// region, every alias points at a region, and every section can be placed.
pub open spec fn linker_layout_ok(layout: MemoryLayout) -> bool {
    &&& forall|a: int|
        0 <= a < layout.aliases@.len() ==> layout.region_index(layout.aliases@[a].name@)
            == layout.regions@.len()
    &&& forall|a: int|
        0 <= a < layout.aliases@.len() ==> layout.region_index(layout.aliases@[a].target@)
            < layout.regions@.len()
    &&& forall|r: int| 0 <= r < layout.regions@.len() ==> region_placeable(#[trigger] layout.regions@[r])
}

/// The sections of a region with their offsets from the region origin.
pub fn resolve_sections(region: &MemoryRegionSpec) -> (r: Vec<(&'static MemorySectionSpec, usize)>)
    requires
        placement_ok_upto(region.length, region.section_list(), region.section_list().len() as int),
    ensures
        r@.len() == region.section_list().len(),
        forall|i: int|
            0 <= i < r@.len() ==> *r@[i].0 == region.section_list()[i] && r@[i].1 == section_offset(
                region.section_list(),
                i,
            ),
{
    let mut out: Vec<(&'static MemorySectionSpec, usize)> = Vec::new();
    let mut cursor: usize = 0;
    if let Some(sections) = region.sections {
        let ghost secs = sections@;
        let mut i: usize = 0;
        while i < sections.len()
            invariant
                secs == sections@,
                secs == region.section_list(),
                placement_ok_upto(region.length, secs, secs.len() as int),
                i <= secs.len(),
                cursor == crate::memory::region::cursor_before(secs, i as int),
                out@.len() == i,
                forall|j: int|
                    0 <= j < i ==> *out@[j].0 == secs[j] && out@[j].1 == section_offset(secs, j),
            decreases secs.len() - i,
        {
            let section: &'static MemorySectionSpec = &sections[i];
            assert(placement_step_ok(region.length, secs, i as int));
            let align = if section.align == 0 {
                1
            } else {
                section.align
            };
            let offset = match section.offset {
                Some(off) => off,
                None => align_up(cursor, align),
            };
            assert(offset == section_offset(secs, i as int));
            out.push((section, offset));
            cursor = offset + section.length;
            i += 1;
        }
    }
    out
}

/// The output section name of a section named `name`.
fn section_name(name: &str) -> (r: String)
    ensures
        r@ == linker_section_name(name@),
{
    let chars = chars_of(name);
    let ghost mapped = Seq::new(name@.len(), |i: int| linker_char(name@[i]));
    let mut s: Vec<char> = Vec::new();
    let mut i: usize = 0;
    while i < chars.len()
        invariant
            chars@ == name@,
            mapped == Seq::new(name@.len(), |i: int| linker_char(name@[i])),
            i <= chars@.len(),
            s@ == mapped.subrange(0, i as int),
        decreases chars@.len() - i,
    {
        let c = chars[i];
        let d = if c >= 'A' && c <= 'Z' {
            ((c as u8) + 32) as char
        } else if c == ' ' || c == '-' || c == '/' {
            '_'
        } else {
            c
        };
        s.push(d);
        i += 1;
        assert(s@ =~= mapped.subrange(0, i as int));
    }
    assert(s@ =~= mapped);
    if s.len() > 0 && s[0] == '.' {
        string_of(&s)
    } else {
        let mut r = String::new();
        push_char(&mut r, '.');
        crate::text::push_chars(&mut r, &s);
        assert(r@ =~= seq!['.'] + mapped);
        r
    }
}

/// Index of the first region named `name`, which must exist.
fn find_region(layout: &MemoryLayout, name: &str) -> (r: usize)
    requires
        layout.region_index(name@) < layout.regions@.len(),
    ensures
        r == layout.region_index(name@),
{
    let ghost names = region_names(layout.regions@);
    proof {
        lemma_first_match_props(names, name@);
    }
    let mut i: usize = 0;
    while i < layout.regions.len()
        invariant
            names == region_names(layout.regions@),
            i <= layout.region_index(name@),
            layout.region_index(name@) == first_match(names, name@),
            layout.region_index(name@) < names.len(),
            names[layout.region_index(name@)] == name@,
            forall|j: int| 0 <= j < layout.region_index(name@) ==> names[j] != name@,
        decreases layout.regions@.len() - i,
    {
        assert(names[i as int] == layout.regions@[i as int].name@);
        if str_eq(layout.regions[i].name, name) {
            return i;
        }
        i += 1;
    }
    i
}

/// Append one MEMORY line.
fn push_memory_line(out: &mut String, name: &str, origin: usize, length: usize)
    ensures
        final(out)@ == old(out)@ + memory_line(name@, origin as nat, length as nat),
{
    let ghost start = out@;
    push_str(out, "  ");
    push_str(out, name);
    push_str(out, " : ORIGIN = 0x");
    push_hex_padded(out, origin as u64, 8);
    push_str(out, ", LENGTH = ");
    if length % 1024 == 0 {
        push_decimal(out, (length / 1024) as u64);
        push_str(out, "K\n");
    } else {
        push_decimal(out, length as u64);
        push_str(out, "\n");
    }
    assert(out@ =~= start + memory_line(name@, origin as nat, length as nat));
}

/// Append the output section of the `i`-th section of `region`, placed at `offset`.
fn push_section_block(
    out: &mut String,
    region: &MemoryRegionSpec,
    section: &MemorySectionSpec,
    i: Ghost<int>,
    offset: usize,
)
    requires
        0 <= i@ < region.section_list().len(),
        *section == region.section_list()[i@],
        offset == section_offset(region.section_list(), i@),
        region.origin + offset <= usize::MAX,
    ensures
        final(out)@ == old(out)@ + section_block(*region, i@),
{
    let ghost start = out@;
    let abs = region.origin + offset;
    let sec = section_name(section.name);
    let align: usize = if section.align > 1 {
        section.align
    } else {
        1
    };
    push_str(out, "  ");
    push_str(out, sec.as_str());
    push_str(out, " 0x");
    push_hex_padded(out, abs as u64, 8);
    push_str(out, " (NOLOAD) :\n  {\n    . = ALIGN(");
    push_decimal(out, align as u64);
    push_str(out, ");\n    KEEP(*(");
    push_str(out, sec.as_str());
    push_str(out, "));\n    . = ALIGN(");
    push_decimal(out, align as u64);
    push_str(out, ");\n  } > ");
    push_str(out, region.name);
    push_str(out, "\n\n");
    assert(out@ =~= start + section_block(*region, i@));
}

/// Each section's output section stands in the linker script, starts at the
/// origin, and aligns to the alignment, of the section that
/// `MemoryLayout::section` finds by its region's and its own name, when no
/// earlier region shares the region's name and no earlier section of the
/// region shares the section's name.
pub proof fn lemma_block_at_section_origin(layout: MemoryLayout, ri: int, j: int)
    requires
        0 <= ri < layout.regions@.len(),
        forall|k: int| 0 <= k < ri ==> layout.regions@[k].name@ != layout.regions@[ri].name@,
        0 <= j < layout.regions@[ri].section_list().len(),
        forall|m: int|
            0 <= m < j ==> layout.regions@[ri].section_list()[m].name@ != layout.regions@[ri].section_list()[j].name@,
        region_placeable(layout.regions@[ri]),
    ensures
        ({
            let r = layout.regions@[ri];
            let secs = r.section_list();
            let found = layout.spec_section(r.name@, secs[j].name@);
            &&& occurs_in(section_block(r, j), linker_script(layout))
            &&& found is Some
            &&& found->Some_0.origin == r.origin + section_offset(secs, j)
            &&& found->Some_0.align == effective_align(secs[j].align)
            &&& section_block(r, j) == "  "@ + linker_section_name(secs[j].name@) + " 0x"@ + hex_padded(
                found->Some_0.origin as nat,
                8,
            ) + " (NOLOAD) :\n  {\n    . = ALIGN("@ + decimal(found->Some_0.align as nat) + ");\n    KEEP(*("@
                + linker_section_name(secs[j].name@) + "));\n    . = ALIGN("@ + decimal(found->Some_0.align as nat)
                + ");\n  } > "@ + r.name@ + "\n\n"@
        }),
{
    let r = layout.regions@[ri];
    let names = region_names(layout.regions@);
    assert forall|k: int| 0 <= k < ri implies names[k] != r.name@ by {
        assert(names[k] == layout.regions@[k].name@);
    }
    assert(names[ri] == r.name@);
    lemma_first_match(names, r.name@, ri);
    lemma_index_and_name_agree(r, j);
    lemma_block_in_script(layout, ri, j);
}

/// `needle` occurs in `hay` starting at position `p`.
pub open spec fn occurs_at(needle: Seq<char>, hay: Seq<char>, p: int) -> bool {
    &&& 0 <= p
    &&& p + needle.len() <= hay.len()
    &&& hay.subrange(p, p + needle.len()) == needle
}

/// `needle` occurs somewhere in `hay`.
pub open spec fn occurs_in(needle: Seq<char>, hay: Seq<char>) -> bool {
    exists|p: int| #[trigger] occurs_at(needle, hay, p)
}

proof fn lemma_occurs_in_prefix(needle: Seq<char>, a: Seq<char>, b: Seq<char>, p: int)
    requires
        occurs_at(needle, a, p),
    ensures
        occurs_at(needle, a + b, p),
{
    assert((a + b).subrange(p, p + needle.len()) =~= a.subrange(p, p + needle.len()));
}

proof fn lemma_occurs_in_suffix(needle: Seq<char>, a: Seq<char>, b: Seq<char>, p: int)
    requires
        occurs_at(needle, b, p),
    ensures
        occurs_at(needle, a + b, a.len() + p),
{
    assert((a + b).subrange(a.len() + p, a.len() + p + needle.len()) =~= b.subrange(p, p + needle.len()));
}

proof fn lemma_occurs_whole(a: Seq<char>)
    ensures
        occurs_at(a, a, 0),
{
    assert(a.subrange(0, a.len() as int) =~= a);
}

/// The output section of section `j` of `region` lies among the region's first `n` blocks.
proof fn lemma_block_in_region(region: MemoryRegionSpec, j: int, n: int) -> (p: int)
    requires
        0 <= j < n,
    ensures
        occurs_at(section_block(region, j), region_section_blocks(region, n), p),
    decreases n,
{
    let before = region_section_blocks(region, n - 1);
    let block = section_block(region, n - 1);
    if j == n - 1 {
        lemma_occurs_whole(block);
        lemma_occurs_in_suffix(block, before, block, 0);
        before.len() as int
    } else {
        let p = lemma_block_in_region(region, j, n - 1);
        lemma_occurs_in_prefix(section_block(region, j), before, block, p);
        p
    }
}

/// The blocks of region `ri` lie among the blocks of the first `n` regions.
proof fn lemma_region_in_blocks(regions: Seq<MemoryRegionSpec>, ri: int, n: int) -> (p: int)
    requires
        0 <= ri < n <= regions.len(),
    ensures
        occurs_at(
            region_section_blocks(regions[ri], regions[ri].section_list().len() as int),
            section_blocks(regions, n),
            p,
        ),
    decreases n,
{
    let before = section_blocks(regions, n - 1);
    let last = region_section_blocks(regions[n - 1], regions[n - 1].section_list().len() as int);
    if ri == n - 1 {
        lemma_occurs_whole(last);
        lemma_occurs_in_suffix(last, before, last, 0);
        before.len() as int
    } else {
        let p = lemma_region_in_blocks(regions, ri, n - 1);
        lemma_occurs_in_prefix(
            region_section_blocks(regions[ri], regions[ri].section_list().len() as int),
            before,
            last,
            p,
        );
        p
    }
}

/// Every section of every region has its output section in the linker
/// script of the layout.
pub proof fn lemma_block_in_script(layout: MemoryLayout, ri: int, j: int)
    requires
        0 <= ri < layout.regions@.len(),
        0 <= j < layout.regions@[ri].section_list().len(),
    ensures
        occurs_in(section_block(layout.regions@[ri], j), linker_script(layout)),
{
    let regions = layout.regions@;
    let r = regions[ri];
    let block = section_block(r, j);
    let rblocks = region_section_blocks(r, r.section_list().len() as int);
    let all = section_blocks(regions, regions.len() as int);
    let p = lemma_block_in_region(r, j, r.section_list().len() as int);
    let q = lemma_region_in_blocks(regions, ri, regions.len() as int);
    assert(all.subrange(q + p, q + p + block.len()) =~= rblocks.subrange(p, p + block.len()));
    assert(occurs_at(block, all, q + p));
    let head = "MEMORY\n{\n"@ + region_lines(regions, regions.len() as int) + alias_lines(
        layout,
        layout.aliases@.len() as int,
    ) + "}\n\n"@ + "SECTIONS\n{\n"@;
    lemma_occurs_in_suffix(block, head, all, q + p);
    lemma_occurs_in_prefix(block, head + all, "}\n"@, head.len() + q + p);
    assert(linker_script(layout) == head + all + "}\n"@);
    assert(occurs_at(block, linker_script(layout), head.len() + q + p));
}

/// Whether a linker script can be generated for `layout`: no alias is named
/// like a region, every alias points at a region, and every section can be placed.
pub fn linker_layout_valid(layout: &MemoryLayout) -> (r: bool)
    ensures
        r == linker_layout_ok(*layout),
{
    let mut a: usize = 0;
    while a < layout.aliases.len()
        invariant
            a <= layout.aliases@.len(),
            forall|b: int|
                0 <= b < a ==> layout.region_index(#[trigger] layout.aliases@[b].name@) == layout.regions@.len(),
            forall|b: int|
                0 <= b < a ==> layout.region_index(#[trigger] layout.aliases@[b].target@) < layout.regions@.len(),
        decreases layout.aliases@.len() - a,
    {
        let alias = layout.aliases[a];
        proof {
            lemma_first_match_props(region_names(layout.regions@), alias.name@);
            lemma_first_match_props(region_names(layout.regions@), alias.target@);
        }
        if layout.region(alias.name).is_some() {
            return false;
        }
        if layout.region(alias.target).is_none() {
            return false;
        }
        a += 1;
    }
    layout.sections_fit()
}

/// Generate a `memory.x` linker script from a [`MemoryLayout`].
pub fn generate_memory_linker(layout: &MemoryLayout) -> (r: String)
    requires
        linker_layout_ok(*layout),
    ensures
        r@ == linker_script(*layout),
{
    let mut out = String::new();
    push_str(&mut out, "MEMORY\n{\n");
    let ghost head = out@;

    let mut i: usize = 0;
    while i < layout.regions.len()
        invariant
            i <= layout.regions@.len(),
            out@ == head + region_lines(layout.regions@, i as int),
        decreases layout.regions@.len() - i,
    {
        let r = layout.regions[i];
        push_memory_line(&mut out, r.name, r.origin, r.length);
        i += 1;
        assert(out@ =~= head + region_lines(layout.regions@, i as int));
    }
    let ghost after_regions = out@;

    let mut a: usize = 0;
    while a < layout.aliases.len()
        invariant
            linker_layout_ok(*layout),
            a <= layout.aliases@.len(),
            out@ == after_regions + alias_lines(*layout, a as int),
        decreases layout.aliases@.len() - a,
    {
        let alias = layout.aliases[a];
        let t = find_region(layout, alias.target);
        let target = layout.regions[t];
        push_memory_line(&mut out, alias.name, target.origin, target.length);
        a += 1;
        assert(out@ =~= after_regions + alias_lines(*layout, a as int));
    }

    push_str(&mut out, "}\n\n");
    push_str(&mut out, "SECTIONS\n{\n");
    let ghost before_sections = out@;

    let mut ri: usize = 0;
    while ri < layout.regions.len()
        invariant
            linker_layout_ok(*layout),
            ri <= layout.regions@.len(),
            out@ == before_sections + section_blocks(layout.regions@, ri as int),
        decreases layout.regions@.len() - ri,
    {
        let region = layout.regions[ri];
        assert(region_placeable(layout.regions@[ri as int]));
        let resolved = resolve_sections(&region);
        let ghost region_start = out@;
        let mut k: usize = 0;
        while k < resolved.len()
            invariant
                region == layout.regions@[ri as int],
                region_placeable(region),
                resolved@.len() == region.section_list().len(),
                forall|j: int|
                    0 <= j < resolved@.len() ==> *resolved@[j].0 == region.section_list()[j]
                        && resolved@[j].1 == section_offset(region.section_list(), j),
                k <= resolved@.len(),
                out@ == region_start + region_section_blocks(region, k as int),
            decreases resolved@.len() - k,
        {
            let (section, offset) = resolved[k];
            push_section_block(&mut out, &region, section, Ghost(k as int), offset);
            k += 1;
            assert(out@ =~= region_start + region_section_blocks(region, k as int));
        }
        ri += 1;
        assert(out@ =~= before_sections + section_blocks(layout.regions@, ri as int));
    }

    push_str(&mut out, "}\n");
    assert(out@ =~= linker_script(*layout));
    out
}

} // verus!

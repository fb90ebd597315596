//! Rust source of a board's memory layout, generated from its definition.

use vstd::prelude::*;

use crate::text::{
    bool_text, chars_of, debug_str, decimal, hex_padded, push_bool, push_char, push_debug_str,
    push_decimal, push_hex_padded, push_str,
};

use super::generate::{
    align_line, block_closing, block_header, keep_lines, memory_x_block, memory_x_blocks_from,
    same_result, then, Emitted,
};
use super::resolve::{entries_within, lemma_resolved_sections_within_region, section_end_within};
use super::validate::ok_or_zero;
use crate::memory::region::{
    effective_align, placement_ok_upto, placement_step_ok, region_placeable, section_offset, MemoryRegionSpec,
};
use super::{MemoryAliasDef, MemoryDef, MemoryRegionDef, MemorySectionDef, MpuAttrsDef, RegionKindDef};

verus! {

/// The imports at the top of the generated source.
pub const IMPORTS: &'static str = "\nuse embassy_boards_core::prelude::*;\nuse crate::Memory;\n";

/// ASCII letters and digits become uppercase; anything else becomes `_`.
pub open spec fn const_char(c: char) -> char {
    if 'a' <= c && c <= 'z' {
        ((c as int) - 32) as char
    } else if ('A' <= c && c <= 'Z') || ('0' <= c && c <= '9') {
        c
    } else {
        '_'
    }
}

/// Name of the constant that holds a region's sections.
pub open spec fn sections_const_name(name: Seq<char>) -> Seq<char> {
    "__SECTIONS_"@ + Seq::new(name.len(), |i: int| const_char(name[i]))
}

/// Rust expression for a region kind.
pub open spec fn kind_expr(kind: RegionKindDef) -> Seq<char> {
    match kind {
        RegionKindDef::Flash => "RegionKind::Flash"@,
        RegionKindDef::Ram => "RegionKind::Ram"@,
        RegionKindDef::Reserved => "RegionKind::Reserved"@,
        RegionKindDef::ExternalRam => "RegionKind::ExternalRam"@,
    }
}

/// Rust expression for MPU attributes.
pub open spec fn mpu_expr(m: MpuAttrsDef) -> Seq<char> {
    "MpuAttrs::new("@ + decimal(m.tex as nat) + ", "@ + bool_text(m.executable) + ", "@ + bool_text(
        m.shareable,
    ) + ", "@ + bool_text(m.cacheable) + ", "@ + bool_text(m.bufferable) + ")"@
}

/// `t` ends with `, true` or `, false`: what stands before, and the flag.
pub open spec fn last_flag_arg(t: Seq<char>) -> Option<(Seq<char>, bool)> {
    let n = t.len() as int;
    if n >= 6 && t.subrange(n - 6, n) == seq![',', ' ', 't', 'r', 'u', 'e'] {
        Some((t.take(n - 6), true))
    } else if n >= 7 && t.subrange(n - 7, n) == seq![',', ' ', 'f', 'a', 'l', 's', 'e'] {
        Some((t.take(n - 7), false))
    } else {
        None
    }
}

/// Reads a call `MpuAttrs::new(tex, executable, shareable, cacheable,
/// bufferable)` as Rust passes the arguments to those parameters, the fields
/// of the `MpuAttrs` it builds: the text of the first argument and the four
/// flags, in parameter order.
pub open spec fn mpu_new_call_args(text: Seq<char>) -> Option<(Seq<char>, bool, bool, bool, bool)> {
    if text.len() == 0 || text.last() != ')' {
        None
    } else {
        match last_flag_arg(text.drop_last()) {
            None => None,
            Some((t1, bufferable)) => match last_flag_arg(t1) {
                None => None,
                Some((t2, cacheable)) => match last_flag_arg(t2) {
                    None => None,
                    Some((t3, shareable)) => match last_flag_arg(t3) {
                        None => None,
                        Some((t4, executable)) => if t4.len() >= 14 && t4.take(14) == "MpuAttrs::new("@ {
                            Some((t4.skip(14), executable, shareable, cacheable, bufferable))
                        } else {
                            None
                        },
                    },
                },
            },
        }
    }
}

proof fn lemma_last_flag_arg(p: Seq<char>, b: bool)
    ensures
        last_flag_arg(p + ", "@ + bool_text(b)) == Some((p, b)),
{
    reveal_strlit(", ");
    let t = p + ", "@ + bool_text(b);
    let n = t.len() as int;
    if b {
        assert(t.subrange(n - 6, n) =~= seq![',', ' ', 't', 'r', 'u', 'e']);
        assert(t.take(n - 6) =~= p);
    } else {
        assert(t.subrange(n - 6, n)[0] == ' ');
        assert(t.subrange(n - 6, n) != seq![',', ' ', 't', 'r', 'u', 'e']);
        assert(t.subrange(n - 7, n) =~= seq![',', ' ', 'f', 'a', 'l', 's', 'e']);
        assert(t.take(n - 7) =~= p);
    }
}

/// The MPU attributes that a region entry carries mean the definition's own:
/// read back as `MpuAttrs::new` takes its arguments, the emitted expression
/// gives the definition's TEX value in decimal and its executable,
/// shareable, cacheable and bufferable flags, each in its own parameter.
pub proof fn lemma_mpu_expr_round_trip(m: MpuAttrsDef)
    ensures
        mpu_new_call_args(mpu_expr(m)) == Some((
            decimal(m.tex as nat),
            m.executable,
            m.shareable,
            m.cacheable,
            m.bufferable,
        )),
{
    reveal_strlit("MpuAttrs::new(");
    reveal_strlit(")");
    let head = "MpuAttrs::new("@ + decimal(m.tex as nat);
    let t4 = head;
    let t3 = t4 + ", "@ + bool_text(m.executable);
    let t2 = t3 + ", "@ + bool_text(m.shareable);
    let t1 = t2 + ", "@ + bool_text(m.cacheable);
    let t0 = t1 + ", "@ + bool_text(m.bufferable);
    assert(mpu_expr(m) =~= t0 + ")"@);
    assert((t0 + ")"@).drop_last() =~= t0);
    lemma_last_flag_arg(t1, m.bufferable);
    lemma_last_flag_arg(t2, m.cacheable);
    lemma_last_flag_arg(t3, m.shareable);
    lemma_last_flag_arg(t4, m.executable);
    assert(t4.take(14) =~= "MpuAttrs::new("@);
    assert(t4.skip(14) =~= decimal(m.tex as nat));
}

/// The table entry of a section `name` of `length` bytes, aligned to
/// `align`, at `offset` from its region's origin.
pub open spec fn entry_text(name: Seq<char>, length: nat, align: nat, offset: nat) -> Seq<char> {
    "    MemorySectionSpec::new("@ + debug_str(name) + ", "@ + decimal(length) + ").with_align("@ + decimal(align)
        + ").with_offset("@ + decimal(offset) + "),\n"@
}

/// The table entry of a resolved section (`e` is its index and offset): its
/// length, its alignment and the offset at which resolution placed it.
pub open spec fn section_entry(r: MemoryRegionDef, e: (nat, u64)) -> Seq<char> {
    let s = r.sections@[e.0 as int];
    entry_text(s.name@, ok_or_zero(s.length.spec_value()) as nat, s.spec_align() as nat, e.1 as nat)
}

/// Entries of resolved sections `k..` of a region.
pub open spec fn section_entries_from(r: MemoryRegionDef, list: Seq<(nat, u64)>, k: int) -> Seq<char>
    decreases list.len() - k,
{
    if k < 0 || k >= list.len() {
        Seq::empty()
    } else {
        section_entry(r, list[k]) + section_entries_from(r, list, k + 1)
    }
}

/// The first line of a region's section constant.
pub open spec fn const_header(r: MemoryRegionDef) -> Seq<char> {
    "const "@ + sections_const_name(r.name@) + ": &[MemorySectionSpec] = &[\n"@
}

/// The section constant of a region: nothing for a region without sections,
/// else an entry per section in the order and at the offsets that section
/// resolution gives, or resolution's error.
pub open spec fn section_const(r: MemoryRegionDef) -> Emitted {
    if r.sections@.len() == 0 {
        (Seq::empty(), Ok(()))
    } else {
        match r.spec_resolve_sections() {
            Err(e) => (Seq::empty(), Err(e)),
            Ok(list) => (const_header(r) + section_entries_from(r, list, 0) + "];\n\n"@, Ok(())),
        }
    }
}

/// The generated layout places each section where the generated linker
/// script does. Both follow the same resolved sections, in the same order:
/// the `k`-th table entry gives the section's offset from the region origin
/// and its alignment, and the `k`-th output section of the linker script
/// starts at the region origin plus that offset and aligns to that alignment.
pub proof fn lemma_table_matches_linker_script(r: MemoryRegionDef, k: int)
    requires
        r.sections@.len() > 0,
        r.spec_resolve_sections() is Ok,
        0 <= k < r.spec_resolve_sections()->Ok_0.len(),
    ensures
        ({
            let list = r.spec_resolve_sections()->Ok_0;
            let s = r.sections@[list[k].0 as int];
            let base = ok_or_zero(r.origin.spec_value());
            let sec = seq!['.'] + s.name@;
            &&& section_const(r) == (
                const_header(r) + section_entries_from(r, list, 0) + "];\n\n"@,
                Ok::<(), Seq<char>>(()),
            )
            &&& section_entries_from(r, list, k) == section_entry(r, list[k]) + section_entries_from(r, list, k + 1)
            &&& memory_x_blocks_from(r, base, list, k) == memory_x_block(r, base, list[k]) + memory_x_blocks_from(
                r,
                base,
                list,
                k + 1,
            )
            &&& section_entry(r, list[k]) == entry_text(
                s.name@,
                ok_or_zero(s.length.spec_value()) as nat,
                s.spec_align() as nat,
                list[k].1 as nat,
            )
            &&& memory_x_block(r, base, list[k]) == block_header(
                sec,
                (base + list[k].1) as nat,
                r.kind == RegionKindDef::Flash,
            ) + "  {\n"@ + align_line(s.spec_align() as nat) + keep_lines(sec) + align_line(s.spec_align() as nat)
                + block_closing(r.name@)
        }),
{
}

/// The section table places each section where `memory.x` does. Take a
/// region spec with the definition's origin and length whose sections are,
/// in table order, what the table's entries build: the `k`-th with the
/// `k`-th entry's length, alignment and fixed offset. Every section of that
/// region can be placed, and the `k`-th lies at the region origin plus the
/// `k`-th resolved offset, with the `k`-th resolved section's alignment: the
/// address and alignment of the `k`-th output section of the linker script.
pub proof fn lemma_table_layout_matches_linker_script(r: MemoryRegionDef, spec: MemoryRegionSpec)
    requires
        r.spec_resolve_sections() is Ok,
        spec.origin == ok_or_zero(r.origin.spec_value()),
        spec.length == ok_or_zero(r.length.spec_value()),
        spec.origin + spec.length <= usize::MAX,
        spec.section_list().len() == r.spec_resolve_sections()->Ok_0.len(),
        forall|k: int|
            #![trigger spec.section_list()[k]]
            0 <= k < spec.section_list().len() ==> {
                let e = r.spec_resolve_sections()->Ok_0[k];
                let s = r.sections@[e.0 as int];
                &&& spec.section_list()[k].offset == Some(e.1 as usize)
                &&& spec.section_list()[k].length == ok_or_zero(s.length.spec_value())
                &&& spec.section_list()[k].align == s.spec_align()
            },
    ensures
        region_placeable(spec),
        forall|k: int|
            #![trigger spec.section_list()[k]]
            0 <= k < spec.section_list().len() ==> {
                let e = r.spec_resolve_sections()->Ok_0[k];
                &&& spec.origin + section_offset(spec.section_list(), k) == ok_or_zero(r.origin.spec_value()) + e.1
                &&& effective_align(spec.section_list()[k].align) == r.sections@[e.0 as int].spec_align()
            },
{
    lemma_resolved_sections_within_region(r);
    let list = r.spec_resolve_sections()->Ok_0;
    let secs = spec.section_list();
    let origin = r.origin.spec_value()->Ok_0;
    let end = (origin + r.length.spec_value()->Ok_0) as u64;
    assert(entries_within(r, origin, end, list, r.sections@.len() as int));
    assert forall|k: int| 0 <= k < secs.len() implies {
        &&& placement_step_ok(spec.length, secs, k)
        &&& spec.origin + section_offset(secs, k) <= usize::MAX
        &&& spec.origin + section_offset(secs, k) == origin + list[k].1
        &&& effective_align(secs[k].align) == r.sections@[list[k].0 as int].spec_align()
    } by {
        let e = list[k];
        let s = r.sections@[e.0 as int];
        assert(secs[k] == spec.section_list()[k]);
        assert(section_end_within(s, origin, e.1, end));
        assert(e.1 <= spec.length);
        assert(section_offset(secs, k) == e.1);
    }
    assert(placement_ok_upto(spec.length, secs, secs.len() as int));
}

/// Section constants of regions `i..`.
pub open spec fn section_consts_from(rs: Seq<MemoryRegionDef>, i: int) -> Emitted
    decreases rs.len() - i,
{
    if i < 0 || i >= rs.len() {
        (Seq::empty(), Ok(()))
    } else {
        then(section_const(rs[i]), section_consts_from(rs, i + 1))
    }
}

/// The `mpu` field of a region entry.
pub open spec fn mpu_field(mpu: Option<MpuAttrsDef>) -> Seq<char> {
    match mpu {
        Some(m) => "        mpu: Some("@ + mpu_expr(m) + "),\n"@,
        None => "        mpu: None,\n"@,
    }
}

/// The `sections` field of a region entry.
pub open spec fn sections_field(r: MemoryRegionDef) -> Seq<char> {
    if r.sections@.len() == 0 {
        "        sections: None,\n"@
    } else {
        "        sections: Some("@ + sections_const_name(r.name@) + "),\n"@
    }
}

/// The fields of a region entry after its length.
pub open spec fn region_tail(r: MemoryRegionDef) -> Seq<char> {
    "        kind: "@ + kind_expr(r.kind) + ",\n"@ + mpu_field(r.mpu) + sections_field(r) + "    },\n"@
}

/// The entry of a region in the region table; it stops where a value fails to parse.
pub open spec fn region_entry(r: MemoryRegionDef) -> Emitted {
    let head = "    MemoryRegionSpec {\n"@ + "        name: "@ + debug_str(r.name@) + ",\n"@;
    match r.origin.spec_value() {
        Err(e) => (head, Err(e)),
        Ok(o) => {
            let origin_line = "        origin: 0x"@ + hex_padded(o as nat, 8) + ",\n"@;
            match r.length.spec_value() {
                Err(e) => (head + origin_line, Err(e)),
                Ok(l) => (
                    head + origin_line + ("        length: "@ + decimal(l as nat) + ",\n"@) + region_tail(r),
                    Ok(()),
                ),
            }
        },
    }
}

/// Entries of regions `i..`.
pub open spec fn region_entries_from(rs: Seq<MemoryRegionDef>, i: int) -> Emitted
    decreases rs.len() - i,
{
    if i < 0 || i >= rs.len() {
        (Seq::empty(), Ok(()))
    } else {
        then(region_entry(rs[i]), region_entries_from(rs, i + 1))
    }
}

/// The entry of an alias.
pub open spec fn alias_entry(a: MemoryAliasDef) -> Seq<char> {
    "    MemoryAlias { name: "@ + debug_str(a.name@) + ", target: "@ + debug_str(a.target@) + " },\n"@
}

/// Entries of aliases `k..`.
pub open spec fn alias_entries_from(aliases: Seq<MemoryAliasDef>, k: int) -> Seq<char>
    decreases aliases.len() - k,
{
    if k < 0 || k >= aliases.len() {
        Seq::empty()
    } else {
        alias_entry(aliases[k]) + alias_entries_from(aliases, k + 1)
    }
}

/// The `BoardMemory` implementation at the end of the generated source.
pub open spec fn trailer() -> Seq<char> {
    "impl BoardMemory for Memory {\n"@ + "    const MEMORY: MemoryLayout = MemoryLayout {\n"@
        + "        regions: REGIONS,\n"@ + "        aliases: ALIASES,\n"@ + "    };\n"@ + "}\n"@
}

/// The first section length among `ss[k..]` that fails to parse.
pub open spec fn section_lengths_from(ss: Seq<MemorySectionDef>, k: int) -> Result<(), Seq<char>>
    decreases ss.len() - k,
{
    if k < 0 || k >= ss.len() {
        Ok(())
    } else {
        match ss[k].length.spec_value() {
            Err(e) => Err(e),
            Ok(_) => section_lengths_from(ss, k + 1),
        }
    }
}

/// The first section length that fails to parse among the sections of
/// regions `i..`, region by region and, within a region, in its order.
pub open spec fn region_section_lengths_from(rs: Seq<MemoryRegionDef>, i: int) -> Result<(), Seq<char>>
    decreases rs.len() - i,
{
    if i < 0 || i >= rs.len() {
        Ok(())
    } else {
        match section_lengths_from(rs[i].sections@, 0) {
            Err(e) => Err(e),
            Ok(()) => region_section_lengths_from(rs, i + 1),
        }
    }
}

impl MemoryDef {
    /// What `emit_rust` appends, and its result.
    ///
    /// The values that the generated tables print are parsed in this order:
    /// the section lengths of every region, then the origin and the length
    /// of each region. The first that fails to parse is the error. Once they
    /// all parse, the sections of every region that has some are resolved, in
    /// region order, because each table entry carries the offset that
    /// resolution gives; where resolution fails (a section origin that does
    /// not parse, a misaligned or overlapping section, one that leaves its
    /// region), its error is the result, a failure that a table without
    /// offsets would not have. On any error only the imports are appended.
    pub open spec fn spec_emit_rust(self) -> Emitted {
        let rs = self.regions@;
        let consts = section_consts_from(rs, 0);
        let regs = region_entries_from(rs, 0);
        match region_section_lengths_from(rs, 0) {
            Err(e) => (IMPORTS@, Err(e)),
            Ok(()) => match regs.1 {
                Err(e) => (IMPORTS@, Err(e)),
                Ok(()) => match consts.1 {
                    Err(e) => (IMPORTS@, Err(e)),
                    Ok(()) => (
                        IMPORTS@ + consts.0 + "const REGIONS: &[MemoryRegionSpec] = &[\n"@ + regs.0 + "];\n\n"@
                            + "const ALIASES: &[MemoryAlias] = &[\n"@ + alias_entries_from(self.aliases@, 0)
                            + "];\n\n"@ + trailer(),
                        Ok(()),
                    ),
                },
            },
        }
    }
}

// ----- execution -----

impl RegionKindDef {
    fn rust_expr(self) -> (r: &'static str)
        ensures
            r@ == kind_expr(self),
    {
        match self {
            Self::Flash => "RegionKind::Flash",
            Self::Ram => "RegionKind::Ram",
            Self::Reserved => "RegionKind::Reserved",
            Self::ExternalRam => "RegionKind::ExternalRam",
        }
    }
}

impl MpuAttrsDef {
    fn rust_expr(self) -> (r: String)
        ensures
            r@ == mpu_expr(self),
    {
        let mut r = String::new();
        push_str(&mut r, "MpuAttrs::new(");
        push_decimal(&mut r, self.tex as u64);
        push_str(&mut r, ", ");
        push_bool(&mut r, self.executable);
        push_str(&mut r, ", ");
        push_bool(&mut r, self.shareable);
        push_str(&mut r, ", ");
        push_bool(&mut r, self.cacheable);
        push_str(&mut r, ", ");
        push_bool(&mut r, self.bufferable);
        push_str(&mut r, ")");
        assert(r@ =~= mpu_expr(self));
        r
    }
}

/// The default of an MPU attribute that a board file leaves out: executable.
pub fn default_true() -> (r: bool)
    ensures
        r,
{
    true
}

impl MemorySectionDef {
    /// Append the table entry of this section, resolved at `offset`.
    fn emit_rust(&self, out: &mut String, offset: u64)
        ensures
            final(out)@ == old(out)@ + entry_text(
                self.name@,
                ok_or_zero(self.length.spec_value()) as nat,
                self.spec_align() as nat,
                offset as nat,
            ),
    {
        let len = match self.length_u64() {
            Ok(v) => v,
            Err(_) => 0,
        };
        let ghost start = out@;
        push_str(out, "    MemorySectionSpec::new(");
        push_debug_str(out, self.name.as_str());
        push_str(out, ", ");
        push_decimal(out, len);
        push_str(out, ").with_align(");
        push_decimal(out, self.align());
        push_str(out, ").with_offset(");
        push_decimal(out, offset);
        push_str(out, "),\n");
        assert(out@ =~= start + entry_text(
            self.name@,
            ok_or_zero(self.length.spec_value()) as nat,
            self.spec_align() as nat,
            offset as nat,
        ));
    }
}

impl MemoryAliasDef {
    fn emit_rust(&self, out: &mut String)
        ensures
            final(out)@ == old(out)@ + alias_entry(*self),
    {
        let ghost start = out@;
        push_str(out, "    MemoryAlias { name: ");
        push_debug_str(out, self.name.as_str());
        push_str(out, ", target: ");
        push_debug_str(out, self.target.as_str());
        push_str(out, " },\n");
        assert(out@ =~= start + alias_entry(*self));
    }
}

impl MemoryRegionDef {
    fn sections_const_name(&self) -> (r: String)
        ensures
            r@ == sections_const_name(self.name@),
    {
        let mut s = String::new();
        push_str(&mut s, "__SECTIONS_");
        let ghost start = s@;
        let chars = chars_of(self.name.as_str());
        let ghost mapped = Seq::new(self.name@.len(), |i: int| const_char(self.name@[i]));
        let mut i: usize = 0;
        while i < chars.len()
            invariant
                chars@ == self.name@,
                mapped == Seq::new(self.name@.len(), |i: int| const_char(self.name@[i])),
                i <= chars@.len(),
                s@ == start + mapped.subrange(0, i as int),
            decreases chars@.len() - i,
        {
            let ch = chars[i];
            let d = if 'a' <= ch && ch <= 'z' {
                ((ch as u8) - 32) as char
            } else if ('A' <= ch && ch <= 'Z') || ('0' <= ch && ch <= '9') {
                ch
            } else {
                '_'
            };
            push_char(&mut s, d);
            i += 1;
            assert(s@ =~= start + mapped.subrange(0, i as int));
        }
        assert(mapped.subrange(0, chars@.len() as int) =~= mapped);
        s
    }

    fn push_region_tail(&self, out: &mut String)
        ensures
            final(out)@ == old(out)@ + region_tail(*self),
    {
        let ghost start = out@;
        push_str(out, "        kind: ");
        push_str(out, self.kind.rust_expr());
        push_str(out, ",\n");
        let ghost p1 = out@;
        match &self.mpu {
            Some(mpu) => {
                push_str(out, "        mpu: Some(");
                let e = mpu.rust_expr();
                push_str(out, e.as_str());
                push_str(out, "),\n");
            },
            None => {
                push_str(out, "        mpu: None,\n");
            },
        }
        assert(out@ =~= p1 + mpu_field(self.mpu));
        let ghost p2 = out@;
        if self.sections.len() == 0 {
            push_str(out, "        sections: None,\n");
        } else {
            push_str(out, "        sections: Some(");
            let name = self.sections_const_name();
            push_str(out, name.as_str());
            push_str(out, "),\n");
        }
        assert(out@ =~= p2 + sections_field(*self));
        push_str(out, "    },\n");
        assert(out@ =~= start + region_tail(*self));
    }

    fn emit_rust(&self, out: &mut String) -> (r: Result<(), String>)
        ensures
            final(out)@ == old(out)@ + region_entry(*self).0,
            same_result(r, region_entry(*self).1),
    {
        let ghost start = out@;
        push_str(out, "    MemoryRegionSpec {\n");
        push_str(out, "        name: ");
        push_debug_str(out, self.name.as_str());
        push_str(out, ",\n");
        let ghost head = out@;
        assert(head =~= start + ("    MemoryRegionSpec {\n"@ + "        name: "@ + debug_str(self.name@) + ",\n"@));
        let origin = match self.origin_u64() {
            Ok(v) => v,
            Err(e) => return Err(e),
        };
        push_str(out, "        origin: 0x");
        push_hex_padded(out, origin, 8);
        push_str(out, ",\n");
        let ghost with_origin = out@;
        assert(with_origin =~= head + ("        origin: 0x"@ + hex_padded(origin as nat, 8) + ",\n"@));
        let length = match self.length_u64() {
            Ok(v) => v,
            Err(e) => return Err(e),
        };
        push_str(out, "        length: ");
        push_decimal(out, length);
        push_str(out, ",\n");
        let ghost with_length = out@;
        assert(with_length =~= with_origin + ("        length: "@ + decimal(length as nat) + ",\n"@));
        self.push_region_tail(out);
        assert(out@ =~= start + region_entry(*self).0);
        Ok(())
    }

    fn emit_section_const(&self, out: &mut String) -> (r: Result<(), String>)
        ensures
            final(out)@ == old(out)@ + section_const(*self).0,
            same_result(r, section_const(*self).1),
    {
        if self.sections.len() == 0 {
            assert(old(out)@ + Seq::<char>::empty() =~= old(out)@);
            return Ok(());
        }
        let resolved = match self.resolve_sections() {
            Ok(v) => v,
            Err(e) => {
                assert(old(out)@ + Seq::<char>::empty() =~= old(out)@);
                return Err(e);
            },
        };
        let ghost list = self.spec_resolve_sections()->Ok_0;
        let ghost start = out@;
        let const_name = self.sections_const_name();
        push_str(out, "const ");
        push_str(out, const_name.as_str());
        push_str(out, ": &[MemorySectionSpec] = &[\n");
        let ghost head = out@;
        assert(head =~= start + const_header(*self));
        let ghost written: Seq<char> = Seq::empty();
        let mut k: usize = 0;
        while k < resolved.len()
            invariant
                resolved@.len() == list.len(),
                forall|m: int|
                    0 <= m < list.len() ==> list[m].0 < self.sections@.len() && *resolved@[m].section
                        == self.sections@[list[m].0 as int] && resolved@[m].offset == list[m].1,
                k <= resolved@.len(),
                section_entries_from(*self, list, 0) == written + section_entries_from(*self, list, k as int),
                out@ == head + written,
            decreases resolved@.len() - k,
        {
            let x = &resolved[k];
            x.section.emit_rust(out, x.offset);
            proof {
                let e = section_entry(*self, list[k as int]);
                assert(section_entries_from(*self, list, 0) =~= (written + e) + section_entries_from(
                    *self,
                    list,
                    k + 1,
                ));
                written = written + e;
                assert(out@ =~= head + written);
            }
            k += 1;
        }
        push_str(out, "];\n\n");
        assert(out@ =~= start + section_const(*self).0);
        Ok(())
    }
}

impl MemoryDef {
    fn emit_section_consts_from(&self, out: &mut String, i: usize) -> (r: Result<(), String>)
        requires
            i <= self.regions@.len(),
        ensures
            final(out)@ == old(out)@ + section_consts_from(self.regions@, i as int).0,
            same_result(r, section_consts_from(self.regions@, i as int).1),
        decreases self.regions@.len() - i,
    {
        if i >= self.regions.len() {
            assert(old(out)@ + Seq::<char>::empty() =~= old(out)@);
            return Ok(());
        }
        let ghost start = out@;
        let res = self.regions[i].emit_section_const(out);
        match res {
            Ok(()) => {},
            Err(e) => return Err(e),
        }
        let r = self.emit_section_consts_from(out, i + 1);
        proof {
            let a = section_const(self.regions@[i as int]);
            let b = section_consts_from(self.regions@, i + 1);
            assert(out@ =~= start + (a.0 + b.0));
        }
        r
    }

    fn emit_region_entries_from(&self, out: &mut String, i: usize) -> (r: Result<(), String>)
        requires
            i <= self.regions@.len(),
        ensures
            final(out)@ == old(out)@ + region_entries_from(self.regions@, i as int).0,
            same_result(r, region_entries_from(self.regions@, i as int).1),
        decreases self.regions@.len() - i,
    {
        if i >= self.regions.len() {
            assert(old(out)@ + Seq::<char>::empty() =~= old(out)@);
            return Ok(());
        }
        let ghost start = out@;
        let res = self.regions[i].emit_rust(out);
        match res {
            Ok(()) => {},
            Err(e) => return Err(e),
        }
        let r = self.emit_region_entries_from(out, i + 1);
        proof {
            let a = region_entry(self.regions@[i as int]);
            let b = region_entries_from(self.regions@, i + 1);
            assert(out@ =~= start + (a.0 + b.0));
        }
        r
    }

    fn emit_alias_entries(&self, out: &mut String)
        ensures
            final(out)@ == old(out)@ + alias_entries_from(self.aliases@, 0),
    {
        let ghost start = out@;
        let ghost written: Seq<char> = Seq::empty();
        let mut k: usize = 0;
        while k < self.aliases.len()
            invariant
                k <= self.aliases@.len(),
                alias_entries_from(self.aliases@, 0) == written + alias_entries_from(self.aliases@, k as int),
                out@ == start + written,
            decreases self.aliases@.len() - k,
        {
            self.aliases[k].emit_rust(out);
            proof {
                let e = alias_entry(self.aliases@[k as int]);
                assert(alias_entries_from(self.aliases@, 0) =~= (written + e) + alias_entries_from(
                    self.aliases@,
                    k + 1,
                ));
                written = written + e;
                assert(out@ =~= start + written);
            }
            k += 1;
        }
        assert(written =~= alias_entries_from(self.aliases@, 0));
    }

    fn check_section_lengths(ss: &Vec<MemorySectionDef>, k: usize) -> (r: Result<(), String>)
        requires
            k <= ss@.len(),
        ensures
            same_result(r, section_lengths_from(ss@, k as int)),
        decreases ss@.len() - k,
    {
        if k >= ss.len() {
            return Ok(());
        }
        match ss[k].length_u64() {
            Ok(_) => {},
            Err(e) => return Err(e),
        }
        Self::check_section_lengths(ss, k + 1)
    }

    fn check_region_section_lengths(&self, i: usize) -> (r: Result<(), String>)
        requires
            i <= self.regions@.len(),
        ensures
            same_result(r, region_section_lengths_from(self.regions@, i as int)),
        decreases self.regions@.len() - i,
    {
        if i >= self.regions.len() {
            return Ok(());
        }
        match Self::check_section_lengths(&self.regions[i].sections, 0) {
            Ok(()) => {},
            Err(e) => return Err(e),
        }
        self.check_region_section_lengths(i + 1)
    }

    /// Generate the Rust source of the board's memory layout: a section
    /// constant per region with sections, whose entries carry each section's
    /// length, alignment and resolved offset, the region table, the alias
    /// table and the `BoardMemory` implementation. The values are checked
    /// before anything but the imports is written: section lengths, then
    /// region origins and lengths, then the placement of sections, which a
    /// table without offsets would not need (see `spec_emit_rust`).
    #[verifier::rlimit(80)]
    pub fn emit_rust(&self, out: &mut String) -> (r: Result<(), String>)
        ensures
            final(out)@ == old(out)@ + self.spec_emit_rust().0,
            same_result(r, self.spec_emit_rust().1),
    {
        let ghost start = out@;
        push_str(out, IMPORTS);
        match self.check_region_section_lengths(0) {
            Ok(()) => {},
            Err(e) => return Err(e),
        }
        let mut regs = String::new();
        match self.emit_region_entries_from(&mut regs, 0) {
            Ok(()) => {},
            Err(e) => return Err(e),
        }
        let mut consts = String::new();
        match self.emit_section_consts_from(&mut consts, 0) {
            Ok(()) => {},
            Err(e) => return Err(e),
        }
        assert(regs@ =~= region_entries_from(self.regions@, 0).0);
        assert(consts@ =~= section_consts_from(self.regions@, 0).0);
        push_str(out, consts.as_str());
        push_str(out, "const REGIONS: &[MemoryRegionSpec] = &[\n");
        push_str(out, regs.as_str());
        push_str(out, "];\n\n");
        push_str(out, "const ALIASES: &[MemoryAlias] = &[\n");
        self.emit_alias_entries(out);
        push_str(out, "];\n\n");
        let ghost p5 = out@;
        push_str(out, "impl BoardMemory for Memory {\n");
        push_str(out, "    const MEMORY: MemoryLayout = MemoryLayout {\n");
        push_str(out, "        regions: REGIONS,\n");
        push_str(out, "        aliases: ALIASES,\n");
        push_str(out, "    };\n");
        push_str(out, "}\n");
        proof {
            assert(out@ =~= p5 + trailer());
            assert(out@ =~= start + self.spec_emit_rust().0);
        }
        Ok(())
    }
}

} // verus!

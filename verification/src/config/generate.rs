//! `memory.x` linker script generation from a memory definition.

use vstd::prelude::*;

use crate::text::{debug_str, decimal, hex_padded, push_debug_str, push_decimal, push_hex_padded, push_str};

use super::resolve::{entries_within, lemma_resolved_sections_within_region, section_end_within};
use super::validate::{check_region, lemma_aliases_ok, lemma_regions_ok, ok_or_zero, region_def_names};
use super::{MemoryDef, MemoryRegionDef, MemorySectionDef, RegionKindDef};

verus! {

/// What a piece of generated text consists of, and whether generation went on.
pub type Emitted = (Seq<char>, Result<(), Seq<char>>);

/// `a`, then `b` if `a` succeeded.
pub open spec fn then(a: Emitted, b: Emitted) -> Emitted {
    match a.1 {
        Err(e) => (a.0, Err(e)),
        Ok(()) => (a.0 + b.0, b.1),
    }
}

/// An executed result agrees with a specified one.
pub open spec fn same_result(r: Result<(), String>, s: Result<(), Seq<char>>) -> bool {
    match r {
        Ok(()) => s is Ok,
        Err(e) => s == Err::<(), Seq<char>>(e@),
    }
}

/// Linker memory attributes of a region kind.
pub open spec fn spec_linker_flags(kind: RegionKindDef) -> Seq<char> {
    match kind {
        RegionKindDef::Flash => "rx"@,
        RegionKindDef::Ram => "rwx"@,
        RegionKindDef::ExternalRam => "rwx"@,
        RegionKindDef::Reserved => Seq::empty(),
    }
}

/// One MEMORY line of a region.
pub open spec fn memory_x_line(r: MemoryRegionDef) -> Seq<char> {
    let o = ok_or_zero(r.origin.spec_value());
    let l = ok_or_zero(r.length.spec_value());
    if r.kind == RegionKindDef::Reserved {
        "  "@ + r.name@ + " : ORIGIN = 0x"@ + hex_padded(o as nat, 8) + ", LENGTH = "@ + decimal(l as nat)
            + "\n"@
    } else {
        "  "@ + r.name@ + " ("@ + spec_linker_flags(r.kind) + ") : ORIGIN = 0x"@ + hex_padded(o as nat, 8)
            + ", LENGTH = "@ + decimal(l as nat) + "\n"@
    }
}

/// MEMORY lines of regions `i..`.
pub open spec fn memory_x_lines_from(rs: Seq<MemoryRegionDef>, i: int) -> Seq<char>
    decreases rs.len() - i,
{
    if i < 0 || i >= rs.len() {
        Seq::empty()
    } else {
        memory_x_line(rs[i]) + memory_x_lines_from(rs, i + 1)
    }
}

/// First line of an output section: name, address, and `(NOLOAD)` outside flash.
pub open spec fn block_header(sec: Seq<char>, abs: nat, flash: bool) -> Seq<char> {
    if flash {
        "  "@ + sec + " 0x"@ + hex_padded(abs, 8) + " :\n"@
    } else {
        "  "@ + sec + " 0x"@ + hex_padded(abs, 8) + " (NOLOAD) :\n"@
    }
}

/// An `ALIGN` line.
pub open spec fn align_line(align: nat) -> Seq<char> {
    "    . = ALIGN("@ + decimal(align) + ");\n"@
}

/// The `KEEP` lines of an output section.
pub open spec fn keep_lines(sec: Seq<char>) -> Seq<char> {
    "    KEEP(*("@ + sec + "));\n"@ + "    KEEP(*("@ + sec + ".*));\n"@
}

/// Last line of an output section, naming the region, and an empty line.
pub open spec fn block_closing(region: Seq<char>) -> Seq<char> {
    "  } > "@ + region + "\n\n"@
}

/// Output section of a resolved section of `region` (which starts at `base`).
pub open spec fn memory_x_block(region: MemoryRegionDef, base: u64, e: (nat, u64)) -> Seq<char> {
    let s = region.sections@[e.0 as int];
    let sec = seq!['.'] + s.name@;
    block_header(sec, (base + e.1) as nat, region.kind == RegionKindDef::Flash) + "  {\n"@ + align_line(
        s.spec_align() as nat,
    ) + keep_lines(sec) + align_line(s.spec_align() as nat) + block_closing(region.name@)
}

/// Output sections of resolved sections `k..`.
pub open spec fn memory_x_blocks_from(region: MemoryRegionDef, base: u64, list: Seq<(nat, u64)>, k: int) -> Seq<char>
    decreases list.len() - k,
{
    if k < 0 || k >= list.len() {
        Seq::empty()
    } else {
        memory_x_block(region, base, list[k]) + memory_x_blocks_from(region, base, list, k + 1)
    }
}

/// Output sections of regions `i..`; stops at the first region whose sections do not resolve.
pub open spec fn memory_x_sections_from(rs: Seq<MemoryRegionDef>, i: int) -> Emitted
    decreases rs.len() - i,
{
    if i < 0 || i >= rs.len() {
        (Seq::empty(), Ok(()))
    } else {
        match rs[i].spec_resolve_sections() {
            Err(e) => (Seq::empty(), Err(e)),
            Ok(list) => then(
                (memory_x_blocks_from(rs[i], ok_or_zero(rs[i].origin.spec_value()), list, 0), Ok(())),
                memory_x_sections_from(rs, i + 1),
            ),
        }
    }
}

/// `REGION_ALIAS` lines of aliases `k..`.
pub open spec fn alias_lines_from(def: MemoryDef, k: int) -> Seq<char>
    decreases def.aliases@.len() - k,
{
    if k < 0 || k >= def.aliases@.len() {
        Seq::empty()
    } else {
        "REGION_ALIAS("@ + debug_str(def.aliases@[k].name@) + ", "@ + def.aliases@[k].target@ + ");\n"@
            + alias_lines_from(def, k + 1)
    }
}

impl MemoryDef {
    /// What `emit_memory_x` appends, and its result.
    pub open spec fn spec_emit_memory_x(self) -> Emitted {
        match self.spec_validate() {
            Err(e) => (Seq::empty(), Err(e)),
            Ok(()) => {
                let head = "MEMORY\n{\n"@ + memory_x_lines_from(self.regions@, 0) + "}\n\n"@
                    + "SECTIONS\n{\n"@;
                let aliases = if self.aliases@.len() == 0 {
                    Seq::empty()
                } else {
                    "\n/* Optional aliases */\n"@ + alias_lines_from(self, 0)
                };
                then(
                    (head, Ok(())),
                    then(memory_x_sections_from(self.regions@, 0), ("}\n"@ + aliases, Ok(()))),
                )
            },
        }
    }
}

// ----- execution -----

fn push_block_header(out: &mut String, sec: &String, abs: u64, flash: bool)
    ensures
        final(out)@ == old(out)@ + block_header(sec@, abs as nat, flash),
{
    let ghost start = out@;
    push_str(out, "  ");
    push_str(out, sec.as_str());
    push_str(out, " 0x");
    push_hex_padded(out, abs, 8);
    if flash {
        push_str(out, " :\n");
    } else {
        push_str(out, " (NOLOAD) :\n");
    }
    assert(out@ =~= start + block_header(sec@, abs as nat, flash));
}

fn push_align_line(out: &mut String, align: u64)
    ensures
        final(out)@ == old(out)@ + align_line(align as nat),
{
    let ghost start = out@;
    push_str(out, "    . = ALIGN(");
    push_decimal(out, align);
    push_str(out, ");\n");
    assert(out@ =~= start + align_line(align as nat));
}

fn push_keep_lines(out: &mut String, sec: &String)
    ensures
        final(out)@ == old(out)@ + keep_lines(sec@),
{
    let ghost start = out@;
    push_str(out, "    KEEP(*(");
    push_str(out, sec.as_str());
    push_str(out, "));\n");
    push_str(out, "    KEEP(*(");
    push_str(out, sec.as_str());
    push_str(out, ".*));\n");
    assert(out@ =~= start + keep_lines(sec@));
}

impl MemoryRegionDef {
    fn linker_flags(&self) -> (r: &'static str)
        ensures
            r@ == spec_linker_flags(self.kind),
    {
        proof {
            reveal_strlit("");
        }
        match self.kind {
            RegionKindDef::Flash => "rx",
            RegionKindDef::Ram => "rwx",
            RegionKindDef::ExternalRam => "rwx",
            RegionKindDef::Reserved => "",
        }
    }

    /// Append the MEMORY line of this region, whose origin and length parse.
    fn push_memory_x_line(&self, out: &mut String)
        requires
            self.origin.spec_value() is Ok,
            self.length.spec_value() is Ok,
        ensures
            final(out)@ == old(out)@ + memory_x_line(*self),
    {
        let ghost start = out@;
        let flags = self.linker_flags();
        let origin = match self.origin_u64() {
            Ok(v) => v,
            Err(_) => 0,
        };
        let length = match self.length_u64() {
            Ok(v) => v,
            Err(_) => 0,
        };
        proof {
            reveal_strlit("rx");
            reveal_strlit("rwx");
        }
        push_str(out, "  ");
        push_str(out, self.name.as_str());
        if flags.is_empty() {
            push_str(out, " : ORIGIN = 0x");
        } else {
            push_str(out, " (");
            push_str(out, flags);
            push_str(out, ") : ORIGIN = 0x");
        }
        push_hex_padded(out, origin, 8);
        push_str(out, ", LENGTH = ");
        push_decimal(out, length);
        push_str(out, "\n");
        assert(out@ =~= start + memory_x_line(*self));
    }

    /// Append the output section of a resolved section of this region.
    fn push_memory_x_block(&self, out: &mut String, section: &MemorySectionDef, offset: u64, e: Ghost<(nat, u64)>)
        requires
            e@.0 < self.sections@.len(),
            *section == self.sections@[e@.0 as int],
            offset == e@.1,
            self.origin.spec_value() is Ok,
            ok_or_zero(self.origin.spec_value()) + offset <= u64::MAX,
        ensures
            final(out)@ == old(out)@ + memory_x_block(*self, ok_or_zero(self.origin.spec_value()), e@),
    {
        let ghost start = out@;
        let base = match self.origin_u64() {
            Ok(v) => v,
            Err(_) => 0,
        };
        let sec_name = section.linker_section_name();
        let align = section.align();
        let flash = match self.kind {
            RegionKindDef::Flash => true,
            _ => false,
        };
        push_block_header(out, &sec_name, base + offset, flash);
        let ghost p1 = out@;
        push_str(out, "  {\n");
        let ghost p2 = out@;
        push_align_line(out, align);
        let ghost p3 = out@;
        push_keep_lines(out, &sec_name);
        let ghost p4 = out@;
        push_align_line(out, align);
        let ghost p5 = out@;
        push_str(out, "  } > ");
        push_str(out, self.name.as_str());
        push_str(out, "\n\n");
        proof {
            let h = block_header(sec_name@, (base + offset) as nat, flash);
            let al = align_line(align as nat);
            let k = keep_lines(sec_name@);
            let c = block_closing(self.name@);
            assert(out@ =~= p5 + c);
            assert(p5 == p4 + al);
            assert(p4 == p3 + k);
            assert(p3 == p2 + al);
            assert(p2 == p1 + "  {\n"@);
            assert(p1 == start + h);
            assert(out@ =~= start + (h + "  {\n"@ + al + k + al + c));
        }
    }

    /// Append the output sections of this region.
    fn push_memory_x_sections(&self, out: &mut String) -> (r: Result<(), String>)
        requires
            self.origin.spec_value() is Ok,
        ensures
            match self.spec_resolve_sections() {
                Err(e) => r is Err && r->Err_0@ == e,
                Ok(list) => r is Ok && final(out)@ == old(out)@ + memory_x_blocks_from(
                    *self,
                    ok_or_zero(self.origin.spec_value()),
                    list,
                    0,
                ),
            },
            self.spec_resolve_sections() is Err ==> final(out)@ == old(out)@,
    {
        let resolved = match self.resolve_sections() {
            Ok(v) => v,
            Err(e) => return Err(e),
        };
        let ghost list = self.spec_resolve_sections()->Ok_0;
        let ghost base = ok_or_zero(self.origin.spec_value());
        proof {
            lemma_resolved_sections_within_region(*self);
        }
        let ghost start = out@;
        let mut k: usize = 0;
        while k < resolved.len()
            invariant
                self.spec_resolve_sections() == Ok::<Seq<(nat, u64)>, Seq<char>>(list),
                self.origin.spec_value() is Ok,
                base == ok_or_zero(self.origin.spec_value()),
                self.length.spec_value() is Ok,
                base + self.length.spec_value()->Ok_0 <= u64::MAX,
                entries_within(
                    *self,
                    base,
                    (base + self.length.spec_value()->Ok_0) as u64,
                    list,
                    self.sections@.len() as int,
                ),
                resolved@.len() == list.len(),
                forall|m: int|
                    0 <= m < list.len() ==> list[m].0 < self.sections@.len() && *resolved@[m].section
                        == self.sections@[list[m].0 as int] && resolved@[m].offset == list[m].1,
                k <= list.len(),
                memory_x_blocks_from(*self, base, list, 0) == memory_x_blocks_from(*self, base, list, 0).take(
                    (out@.len() - start.len()) as int,
                ) + memory_x_blocks_from(*self, base, list, k as int),
                out@ == start + memory_x_blocks_from(*self, base, list, 0).take((out@.len() - start.len()) as int),
                out@.len() >= start.len(),
            decreases list.len() - k,
        {
            assert(section_end_within(
                self.sections@[list[k as int].0 as int],
                base,
                list[k as int].1,
                (base + self.length.spec_value()->Ok_0) as u64,
            ));
            let ghost before = out@;
            self.push_memory_x_block(out, resolved[k].section, resolved[k].offset, Ghost(list[k as int]));
            proof {
                let all = memory_x_blocks_from(*self, base, list, 0);
                let done = (before.len() - start.len()) as int;
                let blk = memory_x_block(*self, base, list[k as int]);
                assert(memory_x_blocks_from(*self, base, list, k as int) == blk + memory_x_blocks_from(
                    *self,
                    base,
                    list,
                    k + 1,
                ));
                assert(all =~= all.take(done) + blk + memory_x_blocks_from(*self, base, list, k + 1));
                assert(all.take(done + blk.len()) =~= all.take(done) + blk);
                assert(out@ =~= start + all.take((out@.len() - start.len()) as int));
            }
            k += 1;
        }
        proof {
            let all = memory_x_blocks_from(*self, base, list, 0);
            assert(all.take((out@.len() - start.len()) as int) =~= all);
        }
        Ok(())
    }
}

impl MemorySectionDef {
    /// The output section name: `.` followed by the section name.
    pub fn linker_section_name(&self) -> (r: String)
        ensures
            r@ == seq!['.'] + self.name@,
    {
        let mut r = String::new();
        crate::text::push_char(&mut r, '.');
        push_str(&mut r, self.name.as_str());
        r
    }
}

/// Text written after text that succeeded composes by concatenation.
pub(crate) proof fn lemma_then_ok(w: Seq<char>, b: Seq<char>, rest: Emitted)
    ensures
        then((w, Ok(())), then((b, Ok(())), rest)) == then((w + b, Ok(())), rest),
{
    assert(w + (b + rest.0) =~= (w + b) + rest.0);
}

/// Output sections of every resolved section of regions `i..`, region by
/// region, each region's in order of offset.
pub open spec fn all_section_blocks(rs: Seq<MemoryRegionDef>, i: int) -> Seq<char>
    decreases rs.len() - i,
{
    if i < 0 || i >= rs.len() {
        Seq::empty()
    } else {
        memory_x_blocks_from(rs[i], ok_or_zero(rs[i].origin.spec_value()), rs[i].spec_resolve_sections()->Ok_0, 0)
            + all_section_blocks(rs, i + 1)
    }
}

/// `emit_memory_x` succeeds exactly when the definition passes validation and
/// the sections of every region resolve, and then it writes the `MEMORY`
/// lines, the output sections of every region's resolved sections in order
/// of offset, and the alias lines; a definition that fails validation gets
/// its validation error and nothing is written.
pub proof fn lemma_emit_memory_x_result(def: MemoryDef)
    ensures
        def.spec_emit_memory_x().1 is Ok <==> (def.spec_validate() is Ok && forall|i: int|
            0 <= i < def.regions@.len() ==> (#[trigger] def.regions@[i]).spec_resolve_sections() is Ok),
        def.spec_emit_memory_x().1 is Ok ==> def.spec_emit_memory_x().0 == "MEMORY\n{\n"@ + memory_x_lines_from(
            def.regions@,
            0,
        ) + "}\n\n"@ + "SECTIONS\n{\n"@ + all_section_blocks(def.regions@, 0) + "}\n"@ + (if def.aliases@.len()
            == 0 {
            Seq::empty()
        } else {
            "\n/* Optional aliases */\n"@ + alias_lines_from(def, 0)
        }),
        def.spec_validate() is Err ==> def.spec_emit_memory_x().0 == Seq::<char>::empty()
            && def.spec_emit_memory_x().1 == def.spec_validate(),
{
    lemma_sections_from_ok(def.regions@, 0);
    if def.spec_emit_memory_x().1 is Ok {
        lemma_sections_from_text(def.regions@, 0);
        let head = "MEMORY\n{\n"@ + memory_x_lines_from(def.regions@, 0) + "}\n\n"@ + "SECTIONS\n{\n"@;
        let tail = "}\n"@ + (if def.aliases@.len() == 0 {
            Seq::empty()
        } else {
            "\n/* Optional aliases */\n"@ + alias_lines_from(def, 0)
        });
        assert(def.spec_emit_memory_x().0 =~= head + (all_section_blocks(def.regions@, 0) + tail));
    }
}

/// When every region from `i` on resolves, their output sections are written whole.
proof fn lemma_sections_from_text(rs: Seq<MemoryRegionDef>, i: int)
    requires
        0 <= i,
        forall|j: int| i <= j < rs.len() ==> (#[trigger] rs[j]).spec_resolve_sections() is Ok,
    ensures
        memory_x_sections_from(rs, i) == (all_section_blocks(rs, i), Ok::<(), Seq<char>>(())),
    decreases rs.len() - i,
{
    if i < rs.len() {
        assert(rs[i].spec_resolve_sections() is Ok);
        lemma_sections_from_text(rs, i + 1);
    }
}

proof fn lemma_sections_from_ok(rs: Seq<MemoryRegionDef>, i: int)
    requires
        0 <= i,
    ensures
        memory_x_sections_from(rs, i).1 is Ok <==> forall|j: int|
            i <= j < rs.len() ==> (#[trigger] rs[j]).spec_resolve_sections() is Ok,
    decreases rs.len() - i,
{
    if i < rs.len() {
        lemma_sections_from_ok(rs, i + 1);
        if rs[i].spec_resolve_sections() is Err {
            assert(!(forall|j: int| i <= j < rs.len() ==> (#[trigger] rs[j]).spec_resolve_sections() is Ok));
        }
    }
}

impl MemoryDef {
    fn push_memory_x_lines(&self, out: &mut String)
        requires
            forall|j: int| 0 <= j < self.regions@.len() ==> #[trigger] check_region(self.regions@[j]) is Ok,
        ensures
            final(out)@ == old(out)@ + memory_x_lines_from(self.regions@, 0),
    {
        let ghost start = out@;
        let ghost written: Seq<char> = Seq::empty();
        let mut i: usize = 0;
        while i < self.regions.len()
            invariant
                i <= self.regions@.len(),
                forall|j: int| 0 <= j < self.regions@.len() ==> #[trigger] check_region(self.regions@[j]) is Ok,
                memory_x_lines_from(self.regions@, 0) == written + memory_x_lines_from(self.regions@, i as int),
                out@ == start + written,
            decreases self.regions@.len() - i,
        {
            assert(check_region(self.regions@[i as int]) is Ok);
            self.regions[i].push_memory_x_line(out);
            proof {
                let line = memory_x_line(self.regions@[i as int]);
                assert(memory_x_lines_from(self.regions@, 0) =~= (written + line) + memory_x_lines_from(
                    self.regions@,
                    i + 1,
                ));
                written = written + line;
                assert(out@ =~= start + written);
            }
            i += 1;
        }
        assert(written =~= memory_x_lines_from(self.regions@, 0));
    }

    /// Append the output sections of regions `i..`, stopping at the first error.
    fn push_memory_x_sections_from(&self, out: &mut String, i: usize) -> (r: Result<(), String>)
        requires
            i <= self.regions@.len(),
            forall|j: int| 0 <= j < self.regions@.len() ==> #[trigger] check_region(self.regions@[j]) is Ok,
        ensures
            final(out)@ == old(out)@ + memory_x_sections_from(self.regions@, i as int).0,
            same_result(r, memory_x_sections_from(self.regions@, i as int).1),
        decreases self.regions@.len() - i,
    {
        if i >= self.regions.len() {
            assert(old(out)@ + Seq::<char>::empty() =~= old(out)@);
            return Ok(());
        }
        assert(check_region(self.regions@[i as int]) is Ok);
        let ghost start = out@;
        let res = self.regions[i].push_memory_x_sections(out);
        match res {
            Ok(()) => {},
            Err(e) => {
                assert(out@ =~= start + Seq::<char>::empty());
                return Err(e);
            },
        }
        let ghost mid = out@;
        let r = self.push_memory_x_sections_from(out, i + 1);
        proof {
            let region = self.regions@[i as int];
            let list = region.spec_resolve_sections()->Ok_0;
            let blocks = memory_x_blocks_from(region, ok_or_zero(region.origin.spec_value()), list, 0);
            let rest = memory_x_sections_from(self.regions@, i + 1);
            assert(mid == start + blocks);
            assert(out@ =~= start + (blocks + rest.0));
        }
        r
    }

    fn push_alias_lines(&self, out: &mut String)
        requires
            forall|j: int|
                0 <= j < self.aliases@.len() ==> region_def_names(self.regions@).contains(
                    #[trigger] self.aliases@[j].target@,
                ),
        ensures
            final(out)@ == old(out)@ + alias_lines_from(*self, 0),
    {
        let ghost start = out@;
        let ghost written: Seq<char> = Seq::empty();
        let mut k: usize = 0;
        while k < self.aliases.len()
            invariant
                k <= self.aliases@.len(),
                forall|j: int|
                    0 <= j < self.aliases@.len() ==> region_def_names(self.regions@).contains(
                        #[trigger] self.aliases@[j].target@,
                    ),
                alias_lines_from(*self, 0) == written + alias_lines_from(*self, k as int),
                out@ == start + written,
            decreases self.aliases@.len() - k,
        {
            let alias = &self.aliases[k];
            assert(region_def_names(self.regions@).contains(self.aliases@[k as int].target@));
            let mut t: usize = 0;
            while t < self.regions.len() && self.regions[t].name != alias.target
                invariant
                    t <= self.regions@.len(),
                    forall|j: int| 0 <= j < t ==> self.regions@[j].name@ != alias.target@,
                decreases self.regions@.len() - t,
            {
                t += 1;
            }
            let ghost before = out@;
            if t < self.regions.len() {
                push_str(out, "REGION_ALIAS(");
                push_debug_str(out, alias.name.as_str());
                push_str(out, ", ");
                push_str(out, self.regions[t].name.as_str());
                push_str(out, ");\n");
            } else {
                proof {
                    let names = region_def_names(self.regions@);
                    let w = choose|w: int| 0 <= w < names.len() && names[w] == alias.target@;
                    assert(names[w] == self.regions@[w].name@);
                }
            }
            proof {
                let line = "REGION_ALIAS("@ + debug_str(self.aliases@[k as int].name@) + ", "@
                    + self.aliases@[k as int].target@ + ");\n"@;
                assert(out@ =~= before + line);
                assert(alias_lines_from(*self, 0) =~= (written + line) + alias_lines_from(*self, k + 1));
                written = written + line;
            }
            k += 1;
        }
        assert(written =~= alias_lines_from(*self, 0));
    }

    /// Generate a `memory.x` linker script: the MEMORY command with a line per
    /// region, an output section per resolved section, and `REGION_ALIAS`
    /// lines for the aliases. The definition is validated first; on an error
    /// the text written so far stays in `out`.
    #[verifier::spinoff_prover]
    #[verifier::rlimit(60)]
    pub fn emit_memory_x(&self, out: &mut String) -> (r: Result<(), String>)
        ensures
            final(out)@ == old(out)@ + self.spec_emit_memory_x().0,
            same_result(r, self.spec_emit_memory_x().1),
    {
        match self.validate() {
            Ok(()) => {},
            Err(e) => return Err(e),
        }
        proof {
            lemma_regions_ok(self.regions@, 0);
            lemma_aliases_ok(*self, 0);
        }
        let ghost start = out@;
        push_str(out, "MEMORY\n{\n");
        self.push_memory_x_lines(out);
        push_str(out, "}\n\n");
        push_str(out, "SECTIONS\n{\n");
        let ghost head = out@;
        assert(head =~= start + ("MEMORY\n{\n"@ + memory_x_lines_from(self.regions@, 0) + "}\n\n"@
            + "SECTIONS\n{\n"@));
        match self.push_memory_x_sections_from(out, 0) {
            Ok(()) => {},
            Err(e) => {
                assert(out@ =~= start + self.spec_emit_memory_x().0);
                return Err(e);
            },
        }
        let ghost body = out@;
        push_str(out, "}\n");
        if self.aliases.len() > 0 {
            push_str(out, "\n/* Optional aliases */\n");
            self.push_alias_lines(out);
        }
        proof {
            let aliases = if self.aliases@.len() == 0 {
                Seq::empty()
            } else {
                "\n/* Optional aliases */\n"@ + alias_lines_from(*self, 0)
            };
            assert(out@ =~= body + ("}\n"@ + aliases));
            assert(out@ =~= start + self.spec_emit_memory_x().0);
        }
        Ok(())
    }
}

} // verus!

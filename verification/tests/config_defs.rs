use embassy_boards::config::{
    IntOrString, MemoryAliasDef, MemoryDef, MemoryRegionDef, MemorySectionDef, MpuAttrsDef, RegionKindDef,
};
use embassy_boards::memory::region::{MemoryRegionSpec, RegionKind};
use embassy_boards::memory::section::MemorySectionSpec;

fn s(text: &str) -> IntOrString {
    IntOrString::String(text.to_string())
}

fn section(name: &str, length: IntOrString, origin: Option<IntOrString>, align: Option<u64>) -> MemorySectionDef {
    MemorySectionDef { name: name.to_string(), length, origin, align }
}

fn region(
    name: &str,
    origin: IntOrString,
    length: IntOrString,
    kind: RegionKindDef,
    sections: Vec<MemorySectionDef>,
) -> MemoryRegionDef {
    MemoryRegionDef { name: name.to_string(), origin, length, kind, mpu: None, sections }
}

fn alias(name: &str, target: &str) -> MemoryAliasDef {
    MemoryAliasDef { name: name.to_string(), target: target.to_string() }
}

fn sample_def() -> MemoryDef {
    let mut ram = region(
        "RAM",
        s("0x2000_0000"),
        s("128KiB"),
        RegionKindDef::Ram,
        vec![
            section("stack", s("4KiB"), None, Some(8)),
            section("dma", IntOrString::Int(256), Some(s("0x2001_0000")), None),
        ],
    );
    ram.mpu = Some(MpuAttrsDef { tex: 1, executable: false, shareable: true, cacheable: true, bufferable: false });
    MemoryDef {
        regions: vec![
            region("FLASH", IntOrString::Int(0x0800_0000), s("1MiB"), RegionKindDef::Flash, vec![]),
            ram,
        ],
        aliases: vec![alias("SRAM", "RAM")],
    }
}

#[test]
fn parse_plain_and_hex_numbers() {
    assert_eq!(IntOrString::Int(42).parse_u64(), Ok(42));
    assert_eq!(s("2096896").parse_u64(), Ok(2096896));
    assert_eq!(s("0x1000_0100").parse_u64(), Ok(0x1000_0100));
    assert_eq!(s("0X10").parse_u64(), Ok(16));
    assert_eq!(s("1__0").parse_u64(), Ok(10));
}

#[test]
fn parse_size_suffixes() {
    assert_eq!(s("256B").parse_u64(), Ok(256));
    assert_eq!(s("256KiB").parse_u64(), Ok(262144));
    assert_eq!(s("2 MiB").parse_u64(), Ok(2 * 1024 * 1024));
    assert_eq!(s("1GIB").parse_u64(), Ok(1024 * 1024 * 1024));
    assert_eq!(s("3kb").parse_u64(), Ok(3000));
    assert_eq!(s("1 MB").parse_u64(), Ok(1_000_000));
    assert_eq!(s("2gb").parse_u64(), Ok(2_000_000_000));
}

#[test]
fn parse_expressions() {
    assert_eq!(s("2MiB - 256B").parse_u64(), Ok(2096896));
    assert_eq!(s("  0x1000 + 16 - 1 ").parse_u64(), Ok(0x100F));
    assert_eq!(s("1KiB+1KiB").parse_u64(), Ok(2048));
}

#[test]
fn parse_errors() {
    assert_eq!(s("").parse_u64(), Err("empty value".to_string()));
    assert_eq!(s("   ").parse_u64(), Err("empty value".to_string()));
    assert_eq!(s("12XB").parse_u64(), Err("unknown size suffix: \"XB\"".to_string()));
    assert_eq!(s("1 2").parse_u64(), Err("unknown size suffix: \"2\"".to_string()));
    assert_eq!(s("KiB").parse_u64(), Err("missing number in term: KiB".to_string()));
    assert_eq!(s("+ 5").parse_u64(), Err("missing number in term: +".to_string()));
    assert_eq!(s("5 +").parse_u64(), Err("operator \"+\" missing rhs".to_string()));
    assert_eq!(s("1 - 2").parse_u64(), Err("underflow in expression: 1 - 2".to_string()));
    assert_eq!(
        s("18446744073709551615 + 1").parse_u64(),
        Err("overflow in expression: 18446744073709551615 + 1".to_string())
    );
    assert_eq!(s("20000000000GiB").parse_u64(), Err("overflow in term: 20000000000GiB".to_string()));
}

#[test]
fn parse_number_errors() {
    assert_eq!(
        s("0xZZ").parse_u64(),
        Err("invalid hex integer \"0xZZ\": invalid digit found in string".to_string())
    );
    assert_eq!(
        s("0x").parse_u64(),
        Err("invalid hex integer \"0x\": cannot parse integer from empty string".to_string())
    );
    assert_eq!(
        s("99999999999999999999").parse_u64(),
        Err("invalid integer \"99999999999999999999\": number too large to fit in target type".to_string())
    );
}

#[test]
fn section_accessors() {
    let sec = section("stack", s("4KiB"), Some(s("0x100")), Some(0));
    assert_eq!(sec.length_u64(), Ok(4096));
    assert_eq!(sec.origin_u64(), Ok(Some(0x100)));
    assert_eq!(sec.align(), 1);
    assert_eq!(sec.linker_section_name(), ".stack".to_string());
    let sec = section("x", IntOrString::Int(1), None, None);
    assert_eq!(sec.origin_u64(), Ok(None));
    assert_eq!(sec.align(), 1);
    let sec = section("y", s("bad"), Some(s("-")), Some(64));
    assert_eq!(sec.align(), 64);
    assert_eq!(sec.length_u64(), Err("missing number in term: bad".to_string()));
    assert_eq!(sec.origin_u64(), Err("missing number in term: -".to_string()));
}

#[test]
fn region_accessors() {
    let def = sample_def();
    assert_eq!(def.regions[1].origin_u64(), Ok(0x2000_0000));
    assert_eq!(def.regions[1].length_u64(), Ok(131072));
    assert_eq!(def.regions[0].length_u64(), Ok(1048576));
}

#[test]
fn resolve_sections_sorted_by_offset() {
    let r = region(
        "R",
        IntOrString::Int(0x2000),
        IntOrString::Int(0x1000),
        RegionKindDef::Ram,
        vec![
            section("late", IntOrString::Int(0x10), Some(IntOrString::Int(0x2800)), None),
            section("first", IntOrString::Int(0x20), None, Some(16)),
            section("second", IntOrString::Int(0x8), None, Some(64)),
        ],
    );
    let resolved = r.resolve_sections().unwrap();
    let got: Vec<(String, u64)> = resolved.iter().map(|x| (x.section.name.clone(), x.offset)).collect();
    assert_eq!(
        got,
        vec![("first".to_string(), 0), ("second".to_string(), 0x40), ("late".to_string(), 0x800)]
    );
}

#[test]
fn resolve_sections_errors() {
    let before = region(
        "R",
        IntOrString::Int(0x2000),
        IntOrString::Int(0x100),
        RegionKindDef::Ram,
        vec![section("s", IntOrString::Int(1), Some(IntOrString::Int(0x1000)), None)],
    );
    assert_eq!(
        before.resolve_sections().err(),
        Some("section \"s\" origin 0x00001000 is before region \"R\" origin 0x00002000".to_string())
    );
    let unaligned = region(
        "R",
        IntOrString::Int(0x2000),
        IntOrString::Int(0x100),
        RegionKindDef::Ram,
        vec![section("s", IntOrString::Int(1), Some(IntOrString::Int(0x2001)), Some(4))],
    );
    assert_eq!(
        unaligned.resolve_sections().err(),
        Some("section \"s\" origin 0x00002001 is not aligned to 4".to_string())
    );
    let too_long = region(
        "R",
        IntOrString::Int(0x2000),
        IntOrString::Int(0x100),
        RegionKindDef::Ram,
        vec![section("s", IntOrString::Int(0x200), None, None)],
    );
    assert_eq!(
        too_long.resolve_sections().err(),
        Some("section \"s\" exceeds region \"R\": end 0x00002200 > 0x00002100".to_string())
    );
    let overlapping = region(
        "R",
        IntOrString::Int(0x2000),
        IntOrString::Int(0x100),
        RegionKindDef::Ram,
        vec![
            section("a", IntOrString::Int(0x80), None, None),
            section("b", IntOrString::Int(0x10), Some(IntOrString::Int(0x2040)), None),
        ],
    );
    assert_eq!(
        overlapping.resolve_sections().err(),
        Some("sections \"a\" and \"b\" overlap in region \"R\"".to_string())
    );
    let overflow = region("R", IntOrString::Int(u64::MAX), IntOrString::Int(1), RegionKindDef::Ram, vec![]);
    assert_eq!(
        overflow.resolve_sections().err(),
        Some("region \"R\" overflows address space".to_string())
    );
}

#[test]
fn validate_accepts_sample() {
    assert_eq!(sample_def().validate(), Ok(()));
}

#[test]
fn validate_errors() {
    let overlap = MemoryDef {
        regions: vec![
            region("A", IntOrString::Int(0x1000), IntOrString::Int(0x1000), RegionKindDef::Ram, vec![]),
            region("B", IntOrString::Int(0x1800), IntOrString::Int(0x100), RegionKindDef::Ram, vec![]),
        ],
        aliases: vec![],
    };
    assert_eq!(overlap.validate(), Err("memory regions \"A\" and \"B\" overlap".to_string()));

    let unknown = MemoryDef {
        regions: vec![region("A", IntOrString::Int(0), IntOrString::Int(16), RegionKindDef::Ram, vec![])],
        aliases: vec![alias("X", "NOPE")],
    };
    assert_eq!(unknown.validate(), Err("alias \"X\" points to unknown region \"NOPE\"".to_string()));

    let full = MemoryDef {
        regions: vec![region(
            "R",
            IntOrString::Int(0),
            IntOrString::Int(100),
            RegionKindDef::Ram,
            vec![section("a", IntOrString::Int(60), None, None), section("b", IntOrString::Int(60), None, None)],
        )],
        aliases: vec![],
    };
    assert_eq!(
        full.validate(),
        Err("sections in region \"R\" exceed region length: used 120 > 100".to_string())
    );

    let bad_origin = MemoryDef {
        regions: vec![region("R", s("zz"), IntOrString::Int(1), RegionKindDef::Ram, vec![])],
        aliases: vec![],
    };
    assert_eq!(bad_origin.validate(), Err("region \"R\" origin: missing number in term: zz".to_string()));

    let bad_length = MemoryDef {
        regions: vec![region("R", IntOrString::Int(0), s(""), RegionKindDef::Ram, vec![])],
        aliases: vec![],
    };
    assert_eq!(bad_length.validate(), Err("region \"R\" length: empty value".to_string()));

    let overflow = MemoryDef {
        regions: vec![region("R", IntOrString::Int(u64::MAX), IntOrString::Int(1), RegionKindDef::Ram, vec![])],
        aliases: vec![],
    };
    assert_eq!(overflow.validate(), Err("region \"R\" overflows address space".to_string()));

    let bad_section = MemoryDef {
        regions: vec![region(
            "R",
            IntOrString::Int(0),
            IntOrString::Int(100),
            RegionKindDef::Ram,
            vec![section("s", s("?"), None, None)],
        )],
        aliases: vec![],
    };
    assert_eq!(
        bad_section.validate(),
        Err("region \"R\" section \"s\" length: missing number in term: ?".to_string())
    );
}

#[test]
fn emit_memory_x_sample() {
    let mut out = String::new();
    assert_eq!(sample_def().emit_memory_x(&mut out), Ok(()));
    let expected = [
        "MEMORY\n{\n",
        "  FLASH (rx) : ORIGIN = 0x08000000, LENGTH = 1048576\n",
        "  RAM (rwx) : ORIGIN = 0x20000000, LENGTH = 131072\n",
        "}\n\n",
        "SECTIONS\n{\n",
        "  .stack 0x20000000 (NOLOAD) :\n",
        "  {\n",
        "    . = ALIGN(8);\n",
        "    KEEP(*(.stack));\n",
        "    KEEP(*(.stack.*));\n",
        "    . = ALIGN(8);\n",
        "  } > RAM\n\n",
        "  .dma 0x20010000 (NOLOAD) :\n",
        "  {\n",
        "    . = ALIGN(1);\n",
        "    KEEP(*(.dma));\n",
        "    KEEP(*(.dma.*));\n",
        "    . = ALIGN(1);\n",
        "  } > RAM\n\n",
        "}\n",
        "\n/* Optional aliases */\n",
        "REGION_ALIAS(\"SRAM\", RAM);\n",
    ]
    .concat();
    assert_eq!(out, expected);
}

#[test]
fn emit_memory_x_flash_sections_load() {
    let def = MemoryDef {
        regions: vec![
            region(
                "FLASH",
                IntOrString::Int(0x0800_0000),
                IntOrString::Int(0x1000),
                RegionKindDef::Flash,
                vec![section("cfg", IntOrString::Int(16), None, None)],
            ),
            region("RES", IntOrString::Int(0x4000_0000), IntOrString::Int(16), RegionKindDef::Reserved, vec![]),
            region("XRAM", IntOrString::Int(0x6000_0000), IntOrString::Int(32), RegionKindDef::ExternalRam, vec![]),
        ],
        aliases: vec![],
    };
    let mut out = String::new();
    assert_eq!(def.emit_memory_x(&mut out), Ok(()));
    let expected = [
        "MEMORY\n{\n",
        "  FLASH (rx) : ORIGIN = 0x08000000, LENGTH = 4096\n",
        "  RES : ORIGIN = 0x40000000, LENGTH = 16\n",
        "  XRAM (rwx) : ORIGIN = 0x60000000, LENGTH = 32\n",
        "}\n\n",
        "SECTIONS\n{\n",
        "  .cfg 0x08000000 :\n",
        "  {\n",
        "    . = ALIGN(1);\n",
        "    KEEP(*(.cfg));\n",
        "    KEEP(*(.cfg.*));\n",
        "    . = ALIGN(1);\n",
        "  } > FLASH\n\n",
        "}\n",
    ]
    .concat();
    assert_eq!(out, expected);
}

#[test]
fn emit_memory_x_invalid_writes_nothing() {
    let def = MemoryDef {
        regions: vec![region("A", IntOrString::Int(0), IntOrString::Int(16), RegionKindDef::Ram, vec![])],
        aliases: vec![alias("X", "NOPE")],
    };
    let mut out = String::from("keep");
    assert_eq!(def.emit_memory_x(&mut out), Err("alias \"X\" points to unknown region \"NOPE\"".to_string()));
    assert_eq!(out, "keep");
}

#[test]
fn emit_memory_x_section_error_keeps_prefix() {
    let def = MemoryDef {
        regions: vec![region(
            "R",
            IntOrString::Int(0x2000),
            IntOrString::Int(0x100),
            RegionKindDef::Ram,
            vec![section("s", IntOrString::Int(0x10), Some(IntOrString::Int(0x2001)), Some(4))],
        )],
        aliases: vec![],
    };
    let mut out = String::new();
    assert_eq!(
        def.emit_memory_x(&mut out),
        Err("section \"s\" origin 0x00002001 is not aligned to 4".to_string())
    );
    assert_eq!(out, "MEMORY\n{\n  R (rwx) : ORIGIN = 0x00002000, LENGTH = 256\n}\n\nSECTIONS\n{\n");
}

#[test]
fn emit_rust_sample() {
    let mut out = String::new();
    assert_eq!(sample_def().emit_rust(&mut out), Ok(()));
    let expected = [
        "\nuse embassy_boards_core::prelude::*;\nuse crate::Memory;\n",
        "const __SECTIONS_RAM: &[MemorySectionSpec] = &[\n",
        "    MemorySectionSpec::new(\"stack\", 4096).with_align(8).with_offset(0),\n",
        "    MemorySectionSpec::new(\"dma\", 256).with_align(1).with_offset(65536),\n",
        "];\n\n",
        "const REGIONS: &[MemoryRegionSpec] = &[\n",
        "    MemoryRegionSpec {\n",
        "        name: \"FLASH\",\n",
        "        origin: 0x08000000,\n",
        "        length: 1048576,\n",
        "        kind: RegionKind::Flash,\n",
        "        mpu: None,\n",
        "        sections: None,\n",
        "    },\n",
        "    MemoryRegionSpec {\n",
        "        name: \"RAM\",\n",
        "        origin: 0x20000000,\n",
        "        length: 131072,\n",
        "        kind: RegionKind::Ram,\n",
        "        mpu: Some(MpuAttrs::new(1, false, true, true, false)),\n",
        "        sections: Some(__SECTIONS_RAM),\n",
        "    },\n",
        "];\n\n",
        "const ALIASES: &[MemoryAlias] = &[\n",
        "    MemoryAlias { name: \"SRAM\", target: \"RAM\" },\n",
        "];\n\n",
        "impl BoardMemory for Memory {\n",
        "    const MEMORY: MemoryLayout = MemoryLayout {\n",
        "        regions: REGIONS,\n",
        "        aliases: ALIASES,\n",
        "    };\n",
        "}\n",
    ]
    .concat();
    assert_eq!(out, expected);
}

#[test]
fn emit_rust_sections_const_name() {
    let def = MemoryDef {
        regions: vec![region(
            "ext-ram.1",
            IntOrString::Int(0xC000_0000),
            IntOrString::Int(64),
            RegionKindDef::ExternalRam,
            vec![section("buf", IntOrString::Int(8), None, None)],
        )],
        aliases: vec![],
    };
    let mut out = String::new();
    assert_eq!(def.emit_rust(&mut out), Ok(()));
    assert!(out.contains("const __SECTIONS_EXT_RAM_1: &[MemorySectionSpec] = &[\n"));
    assert!(out.contains("        sections: Some(__SECTIONS_EXT_RAM_1),\n"));
    assert!(out.contains("        kind: RegionKind::ExternalRam,\n"));
    assert!(out.contains("        origin: 0xC0000000,\n"));
}

#[test]
fn emit_rust_error_from_length() {
    let def = MemoryDef {
        regions: vec![region("R", IntOrString::Int(0), IntOrString::Int(64), RegionKindDef::Ram, vec![section(
            "bad",
            s("x"),
            None,
            None,
        )])],
        aliases: vec![],
    };
    let mut out = String::new();
    assert_eq!(def.emit_rust(&mut out), Err("missing number in term: x".to_string()));
}

#[test]
fn emit_rust_section_length_error_comes_before_region_errors() {
    let def = MemoryDef {
        regions: vec![
            region("A", s("y"), IntOrString::Int(64), RegionKindDef::Ram, vec![]),
            region("B", IntOrString::Int(0), s("z"), RegionKindDef::Ram, vec![section("bad", s("x"), None, None)]),
        ],
        aliases: vec![],
    };
    let mut out = String::new();
    assert_eq!(def.emit_rust(&mut out), Err("missing number in term: x".to_string()));
    assert_eq!(out, "\nuse embassy_boards_core::prelude::*;\nuse crate::Memory;\n");
}

#[test]
fn emit_rust_region_origin_error_before_its_length() {
    let def = MemoryDef {
        regions: vec![
            region("A", IntOrString::Int(0), s("q"), RegionKindDef::Ram, vec![]),
            region("B", s("y"), s("z"), RegionKindDef::Ram, vec![section("ok", IntOrString::Int(4), None, None)]),
        ],
        aliases: vec![],
    };
    let mut out = String::new();
    assert_eq!(def.emit_rust(&mut out), Err("missing number in term: q".to_string()));
    let def = MemoryDef {
        regions: vec![region("B", s("y"), s("z"), RegionKindDef::Ram, vec![])],
        aliases: vec![],
    };
    let mut out = String::new();
    assert_eq!(def.emit_rust(&mut out), Err("missing number in term: y".to_string()));
}

#[test]
fn emit_rust_places_sections_like_memory_x() {
    let def = MemoryDef {
        regions: vec![region(
            "RAM",
            IntOrString::Int(0x2000_0000),
            IntOrString::Int(0x100),
            RegionKindDef::Ram,
            vec![
                section("a", IntOrString::Int(10), None, None),
                section("b", IntOrString::Int(4), None, None),
                section("c", IntOrString::Int(8), Some(IntOrString::Int(0x2000_0040)), Some(8)),
            ],
        )],
        aliases: vec![],
    };
    let mut rust = String::new();
    assert_eq!(def.emit_rust(&mut rust), Ok(()));
    assert!(rust.contains(
        "    MemorySectionSpec::new(\"a\", 10).with_align(1).with_offset(0),\n    MemorySectionSpec::new(\"b\", 4).with_align(1).with_offset(10),\n    MemorySectionSpec::new(\"c\", 8).with_align(8).with_offset(64),\n"
    ));
    let mut script = String::new();
    assert_eq!(def.emit_memory_x(&mut script), Ok(()));
    assert!(script.contains("  .b 0x2000000A (NOLOAD) :\n"));
    assert!(script.contains("  .c 0x20000040 (NOLOAD) :\n"));
}

#[test]
fn emit_rust_unresolvable_sections() {
    let def = MemoryDef {
        regions: vec![region(
            "R",
            IntOrString::Int(0x2000),
            IntOrString::Int(0x10),
            RegionKindDef::Ram,
            vec![section("big", IntOrString::Int(0x20), None, None)],
        )],
        aliases: vec![],
    };
    let mut out = String::new();
    assert_eq!(
        def.emit_rust(&mut out),
        Err("section \"big\" exceeds region \"R\": end 0x00002020 > 0x00002010".to_string())
    );
    assert_eq!(out, "\nuse embassy_boards_core::prelude::*;\nuse crate::Memory;\n");
}

#[test]
fn two_terms_with_surrounding_whitespace() {
    assert_eq!(s("  1KiB  + 0x100 ").parse_u64(), Ok(1280));
    assert_eq!(s(" 4 - 5  ").parse_u64(), Err("underflow in expression: 4 - 5".to_string()));
    assert_eq!(
        s("0xFFFFFFFFFFFFFFFF  + 1 ").parse_u64(),
        Err("overflow in expression: 0xFFFFFFFFFFFFFFFF  + 1".to_string())
    );
}

#[test]
fn emitted_table_resolves_where_memory_x_places() {
    let sections: &'static [MemorySectionSpec] = vec![
        MemorySectionSpec::new("a", 10).with_align(1).with_offset(0),
        MemorySectionSpec::new("b", 4).with_align(1).with_offset(10),
        MemorySectionSpec::new("c", 8).with_align(8).with_offset(64),
    ]
    .leak();
    let spec = MemoryRegionSpec {
        name: "RAM",
        origin: 0x2000_0000,
        length: 0x100,
        kind: RegionKind::Ram,
        mpu: None,
        sections: Some(sections),
    };
    assert!(spec.sections_fit());
    assert_eq!(spec.resolve_section("b").unwrap().origin, 0x2000_000A);
    let c = spec.resolve_section("c").unwrap();
    assert_eq!(c.origin, 0x2000_0040);
    assert_eq!(c.align, 8);
}

use embassy_boards::linker::{generate_memory_linker, linker_layout_valid, resolve_sections};
use embassy_boards::memory::region::{MemoryRegionSpec, RegionKind};
use embassy_boards::memory::section::MemorySectionSpec;
use embassy_boards::memory::{MemoryAlias, MemoryLayout};

fn leak<T>(v: Vec<T>) -> &'static [T] {
    v.leak()
}

fn small_layout() -> MemoryLayout {
    let ram_sections = leak(vec![MemorySectionSpec::new("My-Sec", 16), MemorySectionSpec::new("b/c", 8).with_align(32)]);
    let regions = leak(vec![
        MemoryRegionSpec {
            name: "FLASH",
            origin: 0x0800_0000,
            length: 1024 * 1024,
            kind: RegionKind::Flash,
            mpu: None,
            sections: None,
        },
        MemoryRegionSpec {
            name: "RAM",
            origin: 0x2000_0000,
            length: 1000,
            kind: RegionKind::Ram,
            mpu: None,
            sections: Some(ram_sections),
        },
    ]);
    let aliases = leak(vec![MemoryAlias { name: "BOOT", target: "FLASH" }]);
    MemoryLayout { regions, aliases }
}

#[test]
fn linker_script_for_small_layout() {
    let expected = [
        "MEMORY\n{\n",
        "  FLASH : ORIGIN = 0x08000000, LENGTH = 1024K\n",
        "  RAM : ORIGIN = 0x20000000, LENGTH = 1000\n",
        "  BOOT : ORIGIN = 0x08000000, LENGTH = 1024K\n",
        "}\n\n",
        "SECTIONS\n{\n",
        "  .my_sec 0x20000000 (NOLOAD) :\n  {\n    . = ALIGN(4);\n    KEEP(*(.my_sec));\n    . = ALIGN(4);\n  } > RAM\n\n",
        "  .b_c 0x20000020 (NOLOAD) :\n  {\n    . = ALIGN(32);\n    KEEP(*(.b_c));\n    . = ALIGN(32);\n  } > RAM\n\n",
        "}\n",
    ]
    .concat();
    assert_eq!(generate_memory_linker(&small_layout()), expected);
}

#[test]
fn linker_script_empty_layout() {
    let layout = MemoryLayout { regions: leak(vec![]), aliases: leak(vec![]) };
    assert_eq!(generate_memory_linker(&layout), "MEMORY\n{\n}\n\nSECTIONS\n{\n}\n".to_string());
}

#[test]
fn linker_section_names_keep_leading_dot() {
    let secs = leak(vec![MemorySectionSpec::new(".Data Buf", 4)]);
    let regions = leak(vec![MemoryRegionSpec {
        name: "SRAM",
        origin: 0x1000,
        length: 2048,
        kind: RegionKind::Ram,
        mpu: None,
        sections: Some(secs),
    }]);
    let layout = MemoryLayout { regions, aliases: leak(vec![]) };
    let script = generate_memory_linker(&layout);
    assert!(script.contains("  SRAM : ORIGIN = 0x00001000, LENGTH = 2K\n"));
    assert!(script.contains("  .data_buf 0x00001000 (NOLOAD) :\n"));
    assert!(script.contains("KEEP(*(.data_buf));"));
}

#[test]
fn resolve_sections_gives_offsets() {
    let layout = small_layout();
    let resolved = resolve_sections(&layout.regions[1]);
    assert_eq!(resolved.len(), 2);
    assert_eq!(resolved[0].0.name, "My-Sec");
    assert_eq!(resolved[0].1, 0);
    assert_eq!(resolved[1].0.name, "b/c");
    assert_eq!(resolved[1].1, 32);
    assert!(resolve_sections(&layout.regions[0]).is_empty());
}

#[test]
fn linker_layout_validity() {
    assert!(linker_layout_valid(&small_layout()));
    let base = small_layout();
    let colliding = MemoryLayout { regions: base.regions, aliases: leak(vec![MemoryAlias { name: "RAM", target: "FLASH" }]) };
    assert!(!linker_layout_valid(&colliding));
    let dangling = MemoryLayout { regions: base.regions, aliases: leak(vec![MemoryAlias { name: "X", target: "NOPE" }]) };
    assert!(!linker_layout_valid(&dangling));
    let secs = leak(vec![MemorySectionSpec::new("big", 2048)]);
    let regions = leak(vec![MemoryRegionSpec {
        name: "RAM",
        origin: 0,
        length: 1024,
        kind: RegionKind::Ram,
        mpu: None,
        sections: Some(secs),
    }]);
    assert!(!linker_layout_valid(&MemoryLayout { regions, aliases: leak(vec![]) }));
}

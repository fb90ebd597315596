use embassy_boards::memory::region::{MemoryRegion, MemoryRegionSpec, RegionKind};
use embassy_boards::memory::section::{MemorySection, MemorySectionSpec};
use embassy_boards::memory::{MemoryAlias, MemoryLayout, MpuAttrs};
use embassy_boards::{align_up, str_eq};

fn leak<T>(v: Vec<T>) -> &'static [T] {
    v.leak()
}

fn cm7_layout() -> MemoryLayout {
    let sram4 = leak(vec![
        MemorySectionSpec::new("shared_data", 1024),
        MemorySectionSpec::new("rtt", 8192),
        MemorySectionSpec::new("bdma", 2048).with_mpu(MpuAttrs::new(0b001, false, false, false, false)),
        MemorySectionSpec::new("cm7_to_cm4", 24576),
        MemorySectionSpec::new("cm4_to_cm7", 24567),
    ]);
    let sdram = leak(vec![
        MemorySectionSpec::new("fb0", 2 * 1024 * 1024).with_mpu(MpuAttrs::new(0b001, false, false, false, false)),
        MemorySectionSpec::new("fb1", 2 * 1024 * 1024).with_mpu(MpuAttrs::new(0b001, false, false, false, false)),
        MemorySectionSpec::new("tex", 12 * 1024 * 1024).with_mpu(MpuAttrs::new(0b001, false, false, false, false)),
        MemorySectionSpec::new("heap", 16 * 1024 * 1024)
            .with_align(16)
            .with_mpu(MpuAttrs::new(0b000, false, false, true, true)),
    ]);
    let regions = leak(vec![
        region("FLASH_CM7", 0x0800_0000, 1024 * 1024, RegionKind::Flash, None),
        region("FLASH_CM4", 0x0810_0000, 1024 * 1024, RegionKind::Flash, None),
        region("AXIRAM", 0x2400_0000, 512 * 1024, RegionKind::Ram, None),
        region("SRAM1", 0x1000_0000, 128 * 1024, RegionKind::Ram, None),
        region("SRAM4", 0x3800_0000, 64 * 1024, RegionKind::Ram, Some(sram4)),
        region("SDRAM", 0xD000_0000, 32 * 1024 * 1024, RegionKind::ExternalRam, Some(sdram)),
        region("QSPI", 0x9000_0000, 128 * 1024 * 1024, RegionKind::ExternalFlash, None),
    ]);
    let aliases = leak(vec![
        MemoryAlias { name: "FLASH", target: "FLASH_CM7" },
        MemoryAlias { name: "RAM", target: "AXIRAM" },
    ]);
    MemoryLayout { regions, aliases }
}

fn region(
    name: &'static str,
    origin: usize,
    length: usize,
    kind: RegionKind,
    sections: Option<&'static [MemorySectionSpec]>,
) -> MemoryRegionSpec {
    MemoryRegionSpec { name, origin, length, kind, mpu: None, sections }
}

#[test]
fn align_up_rounds_to_next_multiple() {
    assert_eq!(align_up(0, 4), 0);
    assert_eq!(align_up(1, 4), 4);
    assert_eq!(align_up(4, 4), 4);
    assert_eq!(align_up(17, 16), 32);
    assert_eq!(align_up(1023, 1), 1023);
    assert_eq!(align_up(0x1001, 0x1000), 0x2000);
}

#[test]
fn str_eq_compares_contents() {
    assert!(str_eq("SRAM4", "SRAM4"));
    assert!(!str_eq("SRAM4", "SRAM1"));
    assert!(!str_eq("SRAM", "SRAM4"));
    assert!(str_eq("", ""));
}

#[test]
fn section_builders_set_fields() {
    let s = MemorySectionSpec::new("heap", 64);
    assert_eq!(s, MemorySectionSpec { name: "heap", offset: None, length: 64, align: 4, mpu: None });
    let attrs = MpuAttrs::new(1, false, true, true, false);
    assert_eq!(attrs, MpuAttrs { tex: 1, executable: false, shareable: true, cacheable: true, bufferable: false });
    let s = s.with_align(16).with_offset(0x100).with_mpu(attrs);
    assert_eq!(s.align, 16);
    assert_eq!(s.offset, Some(0x100));
    assert_eq!(s.mpu, Some(attrs));
    assert_eq!(s.length, 64);
}

#[test]
fn region_lookup_by_name() {
    let layout = cm7_layout();
    let qspi = layout.region("QSPI").unwrap();
    assert_eq!(
        qspi,
        MemoryRegion {
            name: "QSPI",
            origin: 0x9000_0000,
            length: 128 * 1024 * 1024,
            kind: RegionKind::ExternalFlash,
            mpu: None,
            sections: None,
        }
    );
    assert!(layout.region("NOPE").is_none());
}

#[test]
fn alias_resolves_to_target_region() {
    let layout = cm7_layout();
    let flash = layout.alias("FLASH").unwrap();
    assert_eq!(flash.name, "FLASH_CM7");
    assert_eq!(flash.origin, 0x0800_0000);
    let ram = layout.alias("RAM").unwrap();
    assert_eq!(ram, layout.region("AXIRAM").unwrap());
    assert!(layout.alias("AXIRAM").is_none());
}

#[test]
fn sections_follow_each_other() {
    let layout = cm7_layout();
    let rtt = layout.section("SRAM4", "rtt").unwrap();
    assert_eq!(
        rtt,
        MemorySection { name: "rtt", origin: 0x3800_0400, length: 8192, align: 4, mpu: None }
    );
    let to_cm7 = layout.section("SRAM4", "cm4_to_cm7").unwrap();
    assert_eq!(to_cm7.origin, 0x3800_0000 + 35840);
    assert_eq!(to_cm7.length, 24567);
}

#[test]
fn aligned_section_after_others() {
    let layout = cm7_layout();
    let heap = layout.section("SDRAM", "heap").unwrap();
    assert_eq!(heap.origin, 0xD100_0000);
    assert_eq!(heap.length, 16 * 1024 * 1024);
    assert_eq!(heap.align, 16);
    assert_eq!(heap.mpu, Some(MpuAttrs::new(0, false, false, true, true)));
    let tex = layout.section("SDRAM", "tex").unwrap();
    assert_eq!(tex.origin, 0xD040_0000);
}

#[test]
fn missing_section_or_region() {
    let layout = cm7_layout();
    assert!(layout.section("SRAM4", "nope").is_none());
    assert!(layout.section("NOPE", "rtt").is_none());
    assert!(layout.section("AXIRAM", "rtt").is_none());
}

#[test]
fn region_spec_section_lookup() {
    let layout = cm7_layout();
    let sram4 = layout.regions[4];
    let bdma = sram4.section("bdma").unwrap();
    assert_eq!(bdma.offset, Some(0));
    assert_eq!(bdma.length, 2048);
    assert!(sram4.section("fb0").is_none());
    let resolved = sram4.resolve_section_index(2).unwrap();
    assert_eq!(resolved.origin, 0x3800_0000 + 9216);
    assert_eq!(resolved.name, "bdma");
    assert!(sram4.resolve_section_index(5).is_none());
    assert_eq!(sram4.resolve_section("bdma"), Some(resolved));
    let plain = sram4.resolve();
    assert_eq!(plain.sections, None);
    assert_eq!(plain.origin, 0x3800_0000);
}

#[test]
fn fixed_offset_section() {
    let secs = leak(vec![
        MemorySectionSpec::new("a", 16),
        MemorySectionSpec::new("b", 16).with_offset(0x80),
        MemorySectionSpec::new("c", 8).with_align(32),
    ]);
    let r = region("R", 0x1000, 0x1000, RegionKind::Ram, Some(secs));
    assert_eq!(r.resolve_section("b").unwrap().origin, 0x1080);
    assert_eq!(r.resolve_section("c").unwrap().origin, 0x10A0);
    assert_eq!(r.resolve_section("c").unwrap().align, 32);
}

#[test]
fn zero_alignment_means_one() {
    let secs = leak(vec![MemorySectionSpec::new("a", 3), MemorySectionSpec::new("b", 5).with_align(0)]);
    let r = region("R", 0x100, 0x100, RegionKind::Ram, Some(secs));
    let b = r.resolve_section("b").unwrap();
    assert_eq!(b.origin, 0x103);
    assert_eq!(b.align, 1);
}

#[test]
fn sections_fit_checks_placement() {
    let layout = cm7_layout();
    assert!(layout.sections_fit());
    let too_big = leak(vec![MemorySectionSpec::new("a", 0x80), MemorySectionSpec::new("b", 0x81)]);
    let r = region("R", 0x1000, 0x100, RegionKind::Ram, Some(too_big));
    assert!(!r.sections_fit());
    let odd_align = leak(vec![MemorySectionSpec::new("a", 4).with_align(3)]);
    let r = region("R", 0x1000, 0x100, RegionKind::Ram, Some(odd_align));
    assert!(!r.sections_fit());
    let fixed = leak(vec![MemorySectionSpec::new("a", 4).with_offset(0xFC)]);
    let r = region("R", 0x1000, 0x100, RegionKind::Ram, Some(fixed));
    assert!(r.sections_fit());
    let past_end = leak(vec![MemorySectionSpec::new("a", 4).with_offset(0xFD)]);
    let r = region("R", 0x1000, 0x100, RegionKind::Ram, Some(past_end));
    assert!(!r.sections_fit());
    let layout = MemoryLayout { regions: leak(vec![r]), aliases: leak(vec![]) };
    assert!(!layout.sections_fit());
}

use embassy_boards::board::{heap_size, memory_plan, FramebufferPlan, FONT_TEXTURE_HEIGHT, FONT_TEXTURE_WIDTH};
use embassy_boards::color::{argb, glyph_colors, indexed_to_rgb, ratatui_color_to_rgb, Color};
use embassy_boards::led::Led;
use embassy_boards::linker::linker_layout_valid;
use embassy_boards::mailbox::{Mailbox, MailboxError, QueueDirection};
use embassy_boards::memory::region::{MemoryRegionSpec, RegionKind};
use embassy_boards::memory::section::MemorySectionSpec;
use embassy_boards::memory::{MemoryAlias, MemoryLayout, MpuAttrs};
use embassy_boards::mpu::{mpu_attrs, mpu_layout_ok, region_attrs, mpu_rasr, mpu_rbar, mpu_regions, mpu_size_field, MpuRegionConfig};
use embassy_boards::shared_queue::{PushError, SharedQueue};
use embassy_boards::texture::PixelFormat;
use embassy_boards::touch::{read_touches, TouchEvent, TouchPoint, TOUCH_REPORT_LEN};

fn leak<T>(v: Vec<T>) -> &'static [T] {
    v.leak()
}

fn dual_core_layout(flash: &'static str, ram: &'static str) -> MemoryLayout {
    let sram4 = leak(vec![
        MemorySectionSpec::new("shared_data", 1024),
        MemorySectionSpec::new("rtt", 8192),
        MemorySectionSpec::new("bdma", 2048).with_mpu(MpuAttrs::new(0b001, false, false, false, false)),
        MemorySectionSpec::new("cm7_to_cm4", 24576),
        MemorySectionSpec::new("cm4_to_cm7", 24567),
    ]);
    let sdram = leak(vec![
        MemorySectionSpec::new("fb0", 2 * 1024 * 1024).with_mpu(MpuAttrs::new(0b001, false, false, false, false)),
        MemorySectionSpec::new("fb1", 2 * 1024 * 1024).with_mpu(MpuAttrs::new(0b001, false, false, false, false)),
        MemorySectionSpec::new("tex", 12 * 1024 * 1024).with_mpu(MpuAttrs::new(0b001, false, false, false, false)),
        MemorySectionSpec::new("heap", 16 * 1024 * 1024)
            .with_align(16)
            .with_mpu(MpuAttrs::new(0b000, false, false, true, true)),
    ]);
    let regions = leak(vec![
        region("FLASH_CM7", 0x0800_0000, 1024 * 1024, RegionKind::Flash, None),
        region("FLASH_CM4", 0x0810_0000, 1024 * 1024, RegionKind::Flash, None),
        region("AXIRAM", 0x2400_0000, 512 * 1024, RegionKind::Ram, None),
        region("SRAM1", 0x1000_0000, 128 * 1024, RegionKind::Ram, None),
        region("SRAM4", 0x3800_0000, 64 * 1024, RegionKind::Ram, Some(sram4)),
        region("SDRAM", 0xD000_0000, 32 * 1024 * 1024, RegionKind::ExternalRam, Some(sdram)),
        region("QSPI", 0x9000_0000, 128 * 1024 * 1024, RegionKind::ExternalFlash, None),
    ]);
    let aliases = leak(vec![MemoryAlias { name: "FLASH", target: flash }, MemoryAlias { name: "RAM", target: ram }]);
    MemoryLayout { regions, aliases }
}

fn region(
    name: &'static str,
    origin: usize,
    length: usize,
    kind: RegionKind,
    sections: Option<&'static [MemorySectionSpec]>,
) -> MemoryRegionSpec {
    MemoryRegionSpec { name, origin, length, kind, mpu: None, sections }
}

#[test]
fn queue_is_fifo() {
    let mut q: SharedQueue<u32, 4> = SharedQueue::new();
    assert!(q.is_empty());
    assert_eq!(q.push(1), Ok(()));
    assert_eq!(q.push(2), Ok(()));
    assert_eq!(q.pop(), Some(1));
    assert_eq!(q.push(3), Ok(()));
    assert_eq!(q.push(4), Ok(()));
    assert_eq!(q.pop(), Some(2));
    assert_eq!(q.pop(), Some(3));
    assert_eq!(q.pop(), Some(4));
    assert_eq!(q.pop(), None);
    assert!(q.is_empty());
}

#[test]
fn queue_holds_one_less_than_slots() {
    let mut q: SharedQueue<u8, 3> = SharedQueue::new();
    assert_eq!(q.push(10), Ok(()));
    assert!(!q.is_full());
    assert_eq!(q.push(11), Ok(()));
    assert!(q.is_full());
    assert_eq!(q.push(12), Err(PushError::Full));
    assert_eq!(q.pop(), Some(10));
    assert!(!q.is_full());
    assert_eq!(q.push(12), Ok(()));
    assert_eq!(q.pop(), Some(11));
    assert_eq!(q.pop(), Some(12));
}

#[test]
fn mailbox_from_layout() {
    let layout = dual_core_layout("FLASH_CM7", "AXIRAM");
    assert_eq!(
        Mailbox::new(layout, 1024),
        Ok(Mailbox { cm7_to_cm4: 0x3800_2C00, cm4_to_cm7: 0x3800_8C00 })
    );
    assert_eq!(
        Mailbox::new(layout, 24577),
        Err(MailboxError::SectionTooSmall(QueueDirection::Cm7ToCm4))
    );
    assert_eq!(
        Mailbox::new(layout, 24570),
        Err(MailboxError::SectionTooSmall(QueueDirection::Cm4ToCm7))
    );
}

#[test]
fn mailbox_missing_section() {
    let regions = leak(vec![region(
        "SRAM4",
        0x3800_0000,
        1024,
        RegionKind::Ram,
        Some(leak(vec![MemorySectionSpec::new("cm7_to_cm4", 16)])),
    )]);
    let layout = MemoryLayout { regions, aliases: leak(vec![]) };
    assert_eq!(Mailbox::new(layout, 8), Err(MailboxError::MissingSection(QueueDirection::Cm4ToCm7)));
    let empty = MemoryLayout { regions: leak(vec![]), aliases: leak(vec![]) };
    assert_eq!(Mailbox::new(empty, 8), Err(MailboxError::MissingSection(QueueDirection::Cm7ToCm4)));
}

#[test]
fn mailbox_null_origin() {
    let secs = leak(vec![MemorySectionSpec::new("cm7_to_cm4", 16), MemorySectionSpec::new("cm4_to_cm7", 16)]);
    let regions = leak(vec![region("SRAM4", 0, 1024, RegionKind::Ram, Some(secs))]);
    let layout = MemoryLayout { regions, aliases: leak(vec![]) };
    assert_eq!(Mailbox::new(layout, 8), Err(MailboxError::NullOrigin(QueueDirection::Cm7ToCm4)));
}

#[test]
fn board_buffers_from_layout() {
    let layout = dual_core_layout("FLASH_CM7", "AXIRAM");
    let plan = memory_plan(layout);
    assert_eq!(plan.fb0, FramebufferPlan { origin: 0xD000_0000, words: 524288 });
    assert_eq!(plan.fb1, FramebufferPlan { origin: 0xD020_0000, words: 524288 });
    assert_eq!(plan.font_texture.data, 0xD040_0000);
    assert_eq!(plan.font_texture.width, FONT_TEXTURE_WIDTH);
    assert_eq!(plan.font_texture.height, FONT_TEXTURE_HEIGHT);
    assert_eq!(plan.font_texture.stride_bytes, 1600);
    assert_eq!(plan.font_texture.format, PixelFormat::A8);
    assert_eq!(plan.heap_origin, 0xD100_0000);
    assert_eq!(plan.heap_length, 16 * 1024 * 1024);
    assert_eq!(heap_size(layout), 16 * 1024 * 1024);
}

#[test]
fn mpu_size_field_is_log2_minus_one() {
    assert_eq!(mpu_size_field(32), 4);
    assert_eq!(mpu_size_field(2 * 1024 * 1024), 20);
    assert_eq!(mpu_size_field(2), 0);
    assert_eq!(mpu_size_field(3000), 10);
}

#[test]
fn mpu_attribute_bits() {
    assert_eq!(mpu_attrs(0, false, false, false), 0);
    assert_eq!(mpu_attrs(1, false, false, false), 0x0008_0000);
    assert_eq!(mpu_attrs(0, true, true, false), 0x0003_0000);
    assert_eq!(mpu_attrs(0, false, false, true), 0x0004_0000);
    assert_eq!(mpu_attrs(0xFF, true, true, true), 0x003F_0000);
}

#[test]
fn mpu_register_values() {
    assert_eq!(mpu_rasr(2 * 1024 * 1024, 0x0008_0000), 0x0308_0029);
    assert_eq!(mpu_rasr(2 * 1024 * 1024, 0x1008_0000), 0x1308_0029);
    assert_eq!(region_attrs(MpuAttrs::new(1, false, false, false, false)), 0x1008_0000);
    assert_eq!(region_attrs(MpuAttrs::new(1, true, false, false, false)), 0x0008_0000);
    assert_eq!(mpu_rbar(0xD000_0000, 1), 0xD000_0011);
    assert_eq!(mpu_rbar(0x3800_2000, 0x12), 0x3800_2012);
}

#[test]
fn mpu_regions_of_layout() {
    let layout = dual_core_layout("FLASH_CM7", "AXIRAM");
    assert!(layout.sections_fit());
    assert!(mpu_layout_ok(&layout));
    let regions = mpu_regions(&layout);
    assert_eq!(
        regions,
        vec![
            MpuRegionConfig { region: 0, base: 0x3800_2400, size: 2048, attrs: 0x1008_0000 },
            MpuRegionConfig { region: 1, base: 0xD000_0000, size: 2 * 1024 * 1024, attrs: 0x1008_0000 },
            MpuRegionConfig { region: 2, base: 0xD020_0000, size: 2 * 1024 * 1024, attrs: 0x1008_0000 },
            MpuRegionConfig { region: 3, base: 0xD040_0000, size: 12 * 1024 * 1024, attrs: 0x1008_0000 },
            MpuRegionConfig { region: 4, base: 0xD100_0000, size: 16 * 1024 * 1024, attrs: 0x1003_0000 },
        ]
    );
}

#[test]
fn mpu_region_attributes_come_first() {
    let mut flash = region("FLASH", 0x0800_0000, 0x10_0000, RegionKind::Flash, None);
    flash.mpu = Some(MpuAttrs::new(0, true, false, true, false));
    let layout = MemoryLayout { regions: leak(vec![flash]), aliases: leak(vec![]) };
    assert_eq!(
        mpu_regions(&layout),
        vec![MpuRegionConfig { region: 0, base: 0x0800_0000, size: 0x10_0000, attrs: 0x0002_0000 }]
    );
}

#[test]
fn touch_event_codes() {
    assert_eq!(TouchEvent::from_u8(0), TouchEvent::Down);
    assert_eq!(TouchEvent::from_u8(1), TouchEvent::Up);
    assert_eq!(TouchEvent::from_u8(2), TouchEvent::Contact);
    assert_eq!(TouchEvent::from_u8(3), TouchEvent::Unknown(3));
}

#[test]
fn touch_report_decoding() {
    let mut report = [0u8; TOUCH_REPORT_LEN];
    report[0] = 0xF2;
    report[1..7].copy_from_slice(&[0x41, 0x23, 0x54, 0x56, 0x07, 0x08]);
    report[7..13].copy_from_slice(&[0x00, 0x10, 0x10, 0x20, 0x01, 0x02]);
    report[13..19].copy_from_slice(&[0xC0, 0x01, 0x00, 0x02, 0x03, 0x04]);
    let mut out: Vec<Option<TouchPoint>> = vec![None; 2];
    assert_eq!(read_touches(&report, &mut out), 2);
    assert_eq!(
        out[0],
        Some(TouchPoint { id: 5, event: TouchEvent::Up, x: 0x123, y: 0x456, weight: 7, misc: 8 })
    );
    assert_eq!(
        out[1],
        Some(TouchPoint { id: 1, event: TouchEvent::Down, x: 0x010, y: 0x020, weight: 1, misc: 2 })
    );
}

#[test]
fn touch_report_clears_unused_slots() {
    let mut report = [0u8; TOUCH_REPORT_LEN];
    report[0] = 1;
    report[1..7].copy_from_slice(&[0xC0, 0x05, 0x30, 0x06, 0x00, 0x00]);
    let stale = TouchPoint { id: 9, event: TouchEvent::Up, x: 1, y: 1, weight: 1, misc: 1 };
    let mut out: Vec<Option<TouchPoint>> = vec![Some(stale); 3];
    assert_eq!(read_touches(&report, &mut out), 1);
    assert_eq!(out[0], Some(TouchPoint { id: 3, event: TouchEvent::Unknown(3), x: 5, y: 6, weight: 0, misc: 0 }));
    assert_eq!(out[1], None);
    assert_eq!(out[2], None);
}

#[test]
fn led_set_inverted() {
    let mut leds: Led<2, true> = Led::new(vec![true, true]);
    leds.set(0, true);
    assert_eq!(leds.level(0), true);
    leds.set(1, false);
    assert_eq!(leds.level(1), false);
    leds.set(2, true);
    assert_eq!((leds.level(0), leds.level(1)), (true, false));
}

#[test]
fn led_set_plain() {
    let mut leds: Led<2, false> = Led::new(vec![true, true]);
    leds.set(0, true);
    assert_eq!(leds.level(0), false);
    leds.set(1, false);
    assert_eq!(leds.level(1), true);
}

#[test]
fn led_toggle_and_mask() {
    let mut leds: Led<4, true> = Led::new(vec![false; 4]);
    leds.toggle(1);
    assert_eq!(leds.level(1), true);
    leds.toggle(1);
    assert_eq!(leds.level(1), false);
    leds.toggle(4);
    leds.mask(0b101);
    let levels: Vec<bool> = (0..4).map(|i| leds.level(i)).collect();
    assert_eq!(levels, vec![true, false, true, false]);
    let mut wide: Led<32, false> = Led::new(vec![false; 32]);
    wide.mask(0x8000_0001);
    assert!(wide.level(0) && wide.level(31) && !wide.level(30));
}

#[test]
fn named_colors() {
    assert_eq!(ratatui_color_to_rgb(Color::Red), (205, 0, 0));
    assert_eq!(ratatui_color_to_rgb(Color::LightBlue), (92, 92, 255));
    assert_eq!(ratatui_color_to_rgb(Color::Reset), (0, 0, 0));
    assert_eq!(ratatui_color_to_rgb(Color::Rgb(1, 2, 3)), (1, 2, 3));
    assert_eq!(ratatui_color_to_rgb(Color::Indexed(9)), (255, 0, 0));
}

#[test]
fn palette_colors() {
    assert_eq!(indexed_to_rgb(7), (192, 192, 192));
    assert_eq!(indexed_to_rgb(16), (0, 0, 0));
    assert_eq!(indexed_to_rgb(17), (0, 0, 95));
    assert_eq!(indexed_to_rgb(196), (255, 0, 0));
    assert_eq!(indexed_to_rgb(231), (255, 255, 255));
    assert_eq!(indexed_to_rgb(232), (8, 8, 8));
    assert_eq!(indexed_to_rgb(255), (238, 238, 238));
}

#[test]
fn glyph_color_words() {
    assert_eq!(argb(Color::Rgb(0x12, 0x34, 0x56), 0), 0xFF12_3456);
    assert_eq!(argb(Color::Reset, 0xABCD_EF01), 0xABCD_EF01);
    assert_eq!(glyph_colors(Color::Reset, Color::Reset), (0xFFFF_FFFF, 0));
    assert_eq!(glyph_colors(Color::Green, Color::Blue), (0xFF00_CD00, 0xFF00_00EE));
}

#[test]
fn mpu_layout_with_shadowed_region() {
    let secs = leak(vec![MemorySectionSpec::new("only_here", 16)]);
    let regions = leak(vec![
        region("RAM", 0x2000_0000, 1024, RegionKind::Ram, None),
        region("RAM", 0x3000_0000, 1024, RegionKind::Ram, Some(secs)),
    ]);
    let layout = MemoryLayout { regions, aliases: leak(vec![]) };
    assert!(layout.sections_fit());
    assert!(!mpu_layout_ok(&layout));
}

#[test]
fn mailbox_null_origin_second_queue() {
    let secs = leak(vec![
        MemorySectionSpec::new("cm7_to_cm4", 16).with_offset(16),
        MemorySectionSpec::new("cm4_to_cm7", 16).with_offset(0),
    ]);
    let regions = leak(vec![region("SRAM4", 0, 1024, RegionKind::Ram, Some(secs))]);
    let layout = MemoryLayout { regions, aliases: leak(vec![]) };
    assert_eq!(Mailbox::new(layout, 8), Err(MailboxError::NullOrigin(QueueDirection::Cm4ToCm7)));
}

#[test]
fn queue_interleaved_keeps_order() {
    let mut q: SharedQueue<u32, 3> = SharedQueue::new();
    let mut popped = Vec::new();
    assert_eq!(q.push(1), Ok(()));
    assert_eq!(q.push(2), Ok(()));
    assert_eq!(q.push(3), Err(PushError::Full));
    popped.push(q.pop().unwrap());
    assert_eq!(q.push(4), Ok(()));
    popped.push(q.pop().unwrap());
    popped.push(q.pop().unwrap());
    assert_eq!(q.pop(), None);
    assert_eq!(popped, vec![1, 2, 4]);
}

#[test]
fn queue_messages_live_inside_the_queue() {
    let small = core::mem::size_of::<SharedQueue<u64, 2>>();
    let large = core::mem::size_of::<SharedQueue<u64, 64>>();
    assert!(large >= 64 * core::mem::size_of::<u64>());
    assert!(large > small);
}

#[test]
fn board_layouts_meet_every_check() {
    for (flash, ram) in [("FLASH_CM7", "AXIRAM"), ("FLASH_CM4", "SRAM1")] {
        let layout = dual_core_layout(flash, ram);
        assert!(layout.sections_fit());
        assert!(linker_layout_valid(&layout));
        assert!(mpu_layout_ok(&layout));
        assert_eq!(memory_plan(layout).heap_origin, 0xD100_0000);
        let queue = core::mem::size_of::<SharedQueue<u32, 16>>();
        assert_eq!(
            Mailbox::new(layout, queue),
            Ok(Mailbox { cm7_to_cm4: 0x3800_2C00, cm4_to_cm7: 0x3800_8C00 })
        );
    }
}

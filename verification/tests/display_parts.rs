use embassy_boards::color::Color;
use embassy_boards::fonts::{FontCache, FontMetrics, GlyphRect};
use embassy_boards::log_widget::{level_color, level_name, LogLevel, LogWidget, Visitor, LOG_CAPACITY};
use embassy_boards::panel::{lcd_cmd, lcd_cmd_data, Ili9341};
use embassy_boards::terminal::{cell_rect, glyph_source_rect, terminal_size, Rect16};
use embassy_boards::texture::{PixelFormat, Texture, TextureAtlas, TextureRegion};

fn font_texture() -> Texture {
    Texture::new(0x1000, 64, 26, PixelFormat::A8)
}

#[test]
fn stride_and_pixel_sizes() {
    assert_eq!(Texture::calc_stride_bytes(10, PixelFormat::A8), Some(10));
    assert_eq!(Texture::calc_stride_bytes(10, PixelFormat::L8), Some(10));
    assert_eq!(Texture::calc_stride_bytes(10, PixelFormat::Rgb565), Some(20));
    assert_eq!(Texture::calc_stride_bytes(10, PixelFormat::Argb8888), Some(40));
    assert_eq!(Texture::calc_stride_bytes(11, PixelFormat::A4), Some(6));
    assert_eq!(Texture::calc_stride_bytes(10, PixelFormat::Rgb888), None);
    assert_eq!(Texture::bytes_per_pixel_for(PixelFormat::Rgb565), Some(2));
    assert_eq!(Texture::bytes_per_pixel_for(PixelFormat::A4), None);
    assert_eq!(Texture::bytes_per_pixel_for(PixelFormat::Al88), None);
}

#[test]
fn texture_addresses() {
    let t = Texture::new(0x2000, 8, 4, PixelFormat::Argb8888);
    assert_eq!(t.stride_bytes, 32);
    assert_eq!(t.data_addr(), 0x2000);
    assert_eq!(t.bytes_per_pixel(), Some(4));
    assert_eq!(t.required_len(), 128);
    assert_eq!(t.ptr_at(3, 2), 0x2000 + 2 * 32 + 12);
    let mut t4 = Texture::new(0x100, 9, 2, PixelFormat::A4);
    assert_eq!(t4.stride_bytes, 5);
    assert_eq!(t4.mut_ptr_at(7, 1), 0x100 + 5 + 3);
}

#[test]
fn atlas_allocates_in_order() {
    let mut atlas: TextureAtlas<4> = TextureAtlas::new(font_texture(), 8, 13);
    assert_eq!(atlas.capacity(), 16);
    let a = atlas.allocate().unwrap();
    let b = atlas.allocate().unwrap();
    assert_eq!((a.index, a.x, a.y), (0, 0, 0));
    assert_eq!((b.index, b.x, b.y), (1, 8, 0));
    assert_eq!(a.base, 0x1000);
    assert_eq!(a.parent_stride_bytes, 64);
    assert_eq!((a.width, a.height), (8, 13));
    assert!(atlas.has_free_cell());
}

#[test]
fn atlas_free_and_reuse() {
    let small = Texture::new(0x1000, 24, 13, PixelFormat::A8);
    let mut atlas: TextureAtlas<3> = TextureAtlas::new(small, 8, 13);
    assert_eq!(atlas.capacity(), 3);
    let a = atlas.allocate().unwrap();
    let b = atlas.allocate().unwrap();
    let c = atlas.allocate().unwrap();
    assert_eq!(c.index, 2);
    assert!(!atlas.has_free_cell());
    assert!(atlas.allocate().is_none());
    assert!(atlas.free(b));
    assert!(!atlas.free(b));
    let again = atlas.allocate().unwrap();
    assert_eq!(again, b);
    assert!(atlas.free(a));
}

#[test]
fn atlas_index_round_trip() {
    let atlas: TextureAtlas<16> = TextureAtlas::new(font_texture(), 8, 13);
    let r = atlas.region_for_index(9);
    assert_eq!((r.x, r.y), (8, 13));
    assert_eq!(atlas.index_for_region(&r), Some(9));
    let mut odd = r;
    odd.x = 3;
    assert_eq!(atlas.index_for_region(&odd), None);
    let mut wide = r;
    wide.width = 16;
    assert_eq!(atlas.index_for_region(&wide), None);
    let mut outside = r;
    outside.y = 26;
    assert_eq!(atlas.index_for_region(&outside), None);
}

#[test]
fn region_offsets_and_writes() {
    let atlas: TextureAtlas<16> = TextureAtlas::new(font_texture(), 8, 13);
    let r = atlas.region_for_index(9);
    assert_eq!(r.offset_of(1, 2), (13 + 2) * 64 + 8 + 1);
    let writes = r.pixel_writes(&vec![(0, 0, true), (-1, 0, true), (2, 1, false), (8, 0, true), (7, 12, true)]);
    assert_eq!(writes, vec![(13 * 64 + 8, 255), (14 * 64 + 10, 0), (25 * 64 + 15, 255)]);
    assert_eq!(TextureRegion::debug_char(0), '.');
    assert_eq!(TextureRegion::debug_char(127), '+');
    assert_eq!(TextureRegion::debug_char(128), '#');
}

#[test]
fn font_glyph_position() {
    let font = FontMetrics { image_width: 128, char_width: 8, char_height: 13 };
    assert_eq!(FontCache::<4>::font_glyph(&font, 0), GlyphRect { x: 0, y: 0, width: 8, height: 13 });
    assert_eq!(FontCache::<4>::font_glyph(&font, 17), GlyphRect { x: 8, y: 13, width: 8, height: 13 });
    assert_eq!(FontCache::<4>::font_glyph(&font, 15), GlyphRect { x: 120, y: 0, width: 8, height: 13 });
}

#[test]
fn font_cache_keeps_cells() {
    let font = FontMetrics { image_width: 128, char_width: 8, char_height: 13 };
    let atlas: TextureAtlas<2> = TextureAtlas::new(font_texture(), 8, 13);
    let mut cache = FontCache::new(atlas, font);
    assert!(cache.has_room_for('a'));
    let a = cache.glyph('a');
    assert!(a.fresh);
    assert_eq!(a.region.index, 0);
    let b = cache.glyph('b');
    assert!(b.fresh);
    assert_eq!(b.region.index, 1);
    let a2 = cache.glyph('a');
    assert!(!a2.fresh);
    assert_eq!(a2.region, a.region);
    assert!(cache.has_room_for('b'));
    assert!(!cache.has_room_for('c'));
}

#[test]
fn log_levels() {
    assert_eq!(level_name(LogLevel::Info), "INFO");
    assert_eq!(level_name(LogLevel::Trace), "TRACE");
    assert_eq!(level_color(LogLevel::Warn), Color::LightYellow);
    assert_eq!(level_color(LogLevel::Error), Color::LightRed);
    assert_eq!(level_color(LogLevel::Debug), Color::LightCyan);
    assert_eq!(level_color(LogLevel::Info), Color::LightGreen);
    assert_eq!(level_color(LogLevel::Trace), Color::White);
}

#[test]
fn visitor_builds_line() {
    let mut v = Visitor::new(LogLevel::Warn, "app");
    v.record_str("message", "disk low");
    v.record_debug("free", "12");
    let texts: Vec<&str> = v.message.iter().map(|s| s.text.as_str()).collect();
    assert_eq!(texts, vec!["[", "WARN", "] ", "disk low", "free=12"]);
    let colors: Vec<Option<Color>> = v.message.iter().map(|s| s.color).collect();
    assert_eq!(colors, vec![None, Some(Color::LightYellow), None, None, None]);
}

#[test]
fn log_history_newest_first() {
    let mut log: LogWidget<u32> = LogWidget::new();
    for i in 0..5 {
        log.event(i);
    }
    assert_eq!(log.len(), 5);
    assert_eq!(log.visible(3), vec![2, 1, 0]);
    assert_eq!(log.visible(10), vec![4, 3, 2, 1, 0]);
    log.rendered(2);
    assert_eq!(log.len(), 2);
    assert_eq!(log.visible(2), vec![1, 0]);
}

#[test]
fn log_history_capacity() {
    let mut log: LogWidget<usize> = LogWidget::new();
    for i in 0..(LOG_CAPACITY + 10) {
        log.event(i);
    }
    assert_eq!(log.len(), LOG_CAPACITY);
}

#[test]
fn terminal_geometry() {
    assert_eq!(terminal_size(480, 800, 8, 13), (60, 61));
    assert_eq!(cell_rect(2, 3, 8, 13), Rect16 { x: 16, y: 39, width: 8, height: 13 });
    let atlas: TextureAtlas<16> = TextureAtlas::new(font_texture(), 8, 13);
    let r = atlas.region_for_index(9);
    assert_eq!(glyph_source_rect(&r), Rect16 { x: 8, y: 13, width: 8, height: 13 });
}

#[test]
fn panel_start_up_steps() {
    let steps = Ili9341::init();
    assert_eq!(steps.len(), 27);
    assert_eq!(steps[0].cmd, 0xCA);
    assert_eq!(steps[0].data, Some(vec![0xC3, 0x08, 0x50]));
    assert_eq!(steps[0].delay_ms, 0);
    assert_eq!(steps[20].cmd, 0x2C);
    assert_eq!(steps[20].data, None);
    assert_eq!(steps[20].delay_ms, 200);
    assert_eq!(steps[26].cmd, 0x2C);
    assert_eq!(steps[24].cmd, 0x11);
    assert_eq!(steps[24].delay_ms, 200);
    let step = lcd_cmd_data(0x36, &[0xC8]);
    assert_eq!((step.cmd, step.data, step.delay_ms), (0x36, Some(vec![0xC8]), 0));
    let step = lcd_cmd(0x29, 0);
    assert_eq!((step.cmd, step.data, step.delay_ms), (0x29, None, 0));
}

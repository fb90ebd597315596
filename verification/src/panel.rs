//! Start-up of the ILI9341 LCD panel over SPI: the commands, their parameter
//! bytes and the pauses, in order. The bus work is done by the caller.

use vstd::prelude::*;

verus! {

/// Marker type for the ILI9341 panel.
pub struct Ili9341;

/// One step of a panel start-up: a command byte, optionally followed by a
/// data phase with parameter bytes, then a pause.
pub struct PanelStep {
    pub cmd: u8,
    pub data: Option<Vec<u8>>,
    pub delay_ms: u32,
}

/// A step as plain values: command, parameter bytes of the data phase if
/// there is one, pause in milliseconds.
pub open spec fn step_view(s: PanelStep) -> (u8, Option<Seq<u8>>, u32) {
    (
        s.cmd,
        match s.data {
            Some(d) => Some(d@),
            None => None,
        },
        s.delay_ms,
    )
}

/// The steps as plain values.
pub open spec fn steps_view(s: Seq<PanelStep>) -> Seq<(u8, Option<Seq<u8>>, u32)> {
    Seq::new(s.len(), |i: int| step_view(s[i]))
}

/// The ILI9341 start-up for the LTDC RGB interface.
pub open spec fn spec_ili9341_init() -> Seq<(u8, Option<Seq<u8>>, u32)> {
    seq![
        (0xCAu8, Some(seq![0xC3u8, 0x08, 0x50]), 0u32),
        (0xCF, Some(seq![0x00u8, 0xC1, 0x30]), 0),
        (0xED, Some(seq![0x64u8, 0x03, 0x12, 0x81]), 0),
        (0xE8, Some(seq![0x85u8, 0x00, 0x78]), 0),
        (0xCB, Some(seq![0x39u8, 0x2C, 0x00, 0x34, 0x02]), 0),
        (0xF7, Some(seq![0x20u8]), 0),
        (0xEA, Some(seq![0x00u8, 0x00]), 0),
        (0xB1, Some(seq![0x00u8, 0x1B]), 0),
        (0xB6, Some(seq![0x0Au8, 0xA2]), 0),
        (0xC0, Some(seq![0x10u8]), 0),
        (0xC1, Some(seq![0x10u8]), 0),
        (0xC5, Some(seq![0x45u8, 0x15]), 0),
        (0xC7, Some(seq![0x90u8]), 0),
        (0x36, Some(seq![0xC8u8]), 0),
        (0xF2, Some(seq![0x00u8]), 0),
        (0xB0, Some(seq![0xC2u8]), 0),
        (0xB6, Some(seq![0x0Au8, 0xA7, 0x27, 0x04]), 0),
        (0x2A, Some(seq![0x00u8, 0x00, 0x00, 0xEF]), 0),
        (0x2B, Some(seq![0x00u8, 0x00, 0x01, 0x3F]), 0),
        (0xF6, Some(seq![0x01u8, 0x00, 0x06]), 0),
        (0x2C, None, 200),
        (0x26, Some(seq![0x01u8]), 0),
        (
            0xE0,
            Some(seq![0x0Fu8, 0x29, 0x24, 0x0C, 0x0E, 0x09, 0x4E, 0x78, 0x3C, 0x09, 0x13, 0x05, 0x17, 0x11, 0x00]),
            0,
        ),
        (
            0xE1,
            Some(seq![0x00u8, 0x16, 0x1B, 0x04, 0x11, 0x07, 0x31, 0x33, 0x42, 0x05, 0x0C, 0x0A, 0x28, 0x2F, 0x0F]),
            0,
        ),
        (0x11, None, 200),
        (0x29, None, 0),
        (0x2C, None, 0),
    ]
}

fn bytes(s: &[u8]) -> (r: Vec<u8>)
    ensures
        r@ == s@,
{
    let mut r: Vec<u8> = Vec::new();
    let mut i: usize = 0;
    while i < s.len()
        invariant
            i <= s@.len(),
            r@ == s@.take(i as int),
        decreases s@.len() - i,
    {
        r.push(s[i]);
        i += 1;
        assert(r@ =~= s@.take(i as int));
    }
    assert(s@.take(s@.len() as int) =~= s@);
    r
}

/// A command with a data phase carrying `data`.
pub fn lcd_cmd_data(cmd: u8, data: &[u8]) -> (r: PanelStep)
    ensures
        step_view(r) == (cmd, Some(data@), 0u32),
{
    PanelStep { cmd, data: Some(bytes(data)), delay_ms: 0 }
}

/// A command without a data phase, then a pause of `delay_ms`.
pub fn lcd_cmd(cmd: u8, delay_ms: u32) -> (r: PanelStep)
    ensures
        step_view(r) == (cmd, None::<Seq<u8>>, delay_ms),
{
    PanelStep { cmd, data: None, delay_ms }
}

impl Ili9341 {
    /// The panel's start-up steps, in order.
    pub fn init() -> (r: Vec<PanelStep>)
        ensures
            steps_view(r@) == spec_ili9341_init(),
    {
        let mut v: Vec<PanelStep> = Vec::new();
        v.push(lcd_cmd_data(0xCA, &[0xC3, 0x08, 0x50]));
        v.push(lcd_cmd_data(0xCF, &[0x00, 0xC1, 0x30]));
        v.push(lcd_cmd_data(0xED, &[0x64, 0x03, 0x12, 0x81]));
        v.push(lcd_cmd_data(0xE8, &[0x85, 0x00, 0x78]));
        v.push(lcd_cmd_data(0xCB, &[0x39, 0x2C, 0x00, 0x34, 0x02]));
        v.push(lcd_cmd_data(0xF7, &[0x20]));
        v.push(lcd_cmd_data(0xEA, &[0x00, 0x00]));
        v.push(lcd_cmd_data(0xB1, &[0x00, 0x1B]));
        v.push(lcd_cmd_data(0xB6, &[0x0A, 0xA2]));
        v.push(lcd_cmd_data(0xC0, &[0x10]));
        v.push(lcd_cmd_data(0xC1, &[0x10]));
        v.push(lcd_cmd_data(0xC5, &[0x45, 0x15]));
        v.push(lcd_cmd_data(0xC7, &[0x90]));
        v.push(lcd_cmd_data(0x36, &[0xC8]));
        v.push(lcd_cmd_data(0xF2, &[0x00]));
        v.push(lcd_cmd_data(0xB0, &[0xC2]));
        v.push(lcd_cmd_data(0xB6, &[0x0A, 0xA7, 0x27, 0x04]));
        v.push(lcd_cmd_data(0x2A, &[0x00, 0x00, 0x00, 0xEF]));
        v.push(lcd_cmd_data(0x2B, &[0x00, 0x00, 0x01, 0x3F]));
        v.push(lcd_cmd_data(0xF6, &[0x01, 0x00, 0x06]));
        v.push(lcd_cmd(0x2C, 200));
        v.push(lcd_cmd_data(0x26, &[0x01]));
        v.push(
            lcd_cmd_data(
                0xE0,
                &[0x0F, 0x29, 0x24, 0x0C, 0x0E, 0x09, 0x4E, 0x78, 0x3C, 0x09, 0x13, 0x05, 0x17, 0x11, 0x00],
            ),
        );
        v.push(
            lcd_cmd_data(
                0xE1,
                &[0x00, 0x16, 0x1B, 0x04, 0x11, 0x07, 0x31, 0x33, 0x42, 0x05, 0x0C, 0x0A, 0x28, 0x2F, 0x0F],
            ),
        );
        v.push(lcd_cmd(0x11, 200));
        v.push(lcd_cmd(0x29, 0));
        v.push(lcd_cmd(0x2C, 0));
        assert(steps_view(v@) =~~= spec_ili9341_init());
        v
    }
}

} // verus!

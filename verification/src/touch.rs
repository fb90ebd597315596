//! Touch reports of the FT5316 touch controller.

use vstd::prelude::*;

verus! {

/// Length of the burst read from the touch status register: the touch count
/// and five touch records of six bytes.
pub const TOUCH_REPORT_LEN: usize = 31;

#[derive(Debug, Clone, Copy, PartialEq, Eq)]
pub enum TouchEvent {
    Down,
    Up,
    Contact,
    Unknown(u8),
}

#[derive(Debug, Clone, Copy, PartialEq, Eq)]
pub struct TouchPoint {
    pub id: u8,
    pub event: TouchEvent,
    pub x: u16,
    pub y: u16,
    pub weight: u8,
    pub misc: u8,
}

/// The event a record's event code stands for.
pub open spec fn spec_touch_event(value: u8) -> TouchEvent {
    if value == 0 {
        TouchEvent::Down
    } else if value == 1 {
        TouchEvent::Up
    } else if value == 2 {
        TouchEvent::Contact
    } else {
        TouchEvent::Unknown(value)
    }
}

impl TouchEvent {
    pub fn from_u8(value: u8) -> (r: Self)
        ensures
            r == spec_touch_event(value),
    {
        match value {
            0 => Self::Down,
            1 => Self::Up,
            2 => Self::Contact,
            _ => Self::Unknown(value),
        }
    }
}

/// Number of touches a report announces, at most `max_points`.
pub open spec fn touch_count(report: Seq<u8>, max_points: nat) -> nat {
    let n = (report[0] % 16) as nat;
    if n < max_points % 256 {
        n
    } else {
        max_points % 256
    }
}

/// The `i`-th touch record of a report: the event in the top two bits of
/// byte 0, a 12-bit x in the low nibble of byte 0 and byte 1, a 12-bit y in
/// the low nibble of byte 2 and byte 3, the touch id in the high nibble of
/// byte 2, then weight and area.
pub open spec fn touch_record(report: Seq<u8>, i: int) -> TouchPoint {
    let p = report.subrange(1 + i * 6, 7 + i * 6);
    TouchPoint {
        id: (p[2] / 16) as u8,
        event: spec_touch_event((p[0] / 64) as u8),
        x: ((p[0] % 16) * 256 + p[1]) as u16,
        y: ((p[2] % 16) * 256 + p[3]) as u16,
        weight: p[4],
        misc: p[5],
    }
}

/// The six bytes with which the controller reports `pt` with event code
/// `code`: the code in the top two bits of byte 0 above the high nibble of x,
/// the low byte of x, the id above the high nibble of y, the low byte of y,
/// then weight and area.
pub open spec fn touch_record_bytes(code: u8, pt: TouchPoint) -> Seq<u8> {
    seq![
        (code * 64 + pt.x / 256) as u8,
        (pt.x % 256) as u8,
        (pt.id * 16 + pt.y / 256) as u8,
        (pt.y % 256) as u8,
        pt.weight,
        pt.misc,
    ]
}

/// Decoding gives back every touch the controller encodes: a record that
/// holds the bytes of a point, with 12-bit coordinates, a 4-bit id and an
/// event code of 0 (down), 1 (up), 2 (contact) or 3, reads as that point.
pub proof fn lemma_touch_record_round_trip(report: Seq<u8>, i: int, code: u8, pt: TouchPoint)
    requires
        0 <= i,
        7 + 6 * i <= report.len(),
        code < 4,
        pt.x < 4096,
        pt.y < 4096,
        pt.id < 16,
        pt.event == (if code == 0 {
            TouchEvent::Down
        } else if code == 1 {
            TouchEvent::Up
        } else if code == 2 {
            TouchEvent::Contact
        } else {
            TouchEvent::Unknown(3)
        }),
        report.subrange(1 + 6 * i, 7 + 6 * i) == touch_record_bytes(code, pt),
    ensures
        touch_record(report, i) == pt,
{
    let p = report.subrange(1 + i * 6, 7 + i * 6);
    assert(p == touch_record_bytes(code, pt));
    let xh = pt.x / 256;
    let yh = pt.y / 256;
    assert(pt.x == xh * 256 + pt.x % 256);
    assert(pt.y == yh * 256 + pt.y % 256);
    assert(xh < 16 && yh < 16);
    assert(p[0] == code * 64 + xh);
    assert(p[2] == pt.id * 16 + yh);
    assert(p[0] / 64 == code);
    assert(p[0] % 16 == xh);
    assert(p[2] / 16 == pt.id);
    assert(p[2] % 16 == yh);
}

/// Decode a touch report into `out` (one slot per touch point the caller
/// tracks); returns the number of touches. Slots past that number are `None`.
pub fn read_touches(report: &[u8], out: &mut Vec<Option<TouchPoint>>) -> (count: usize)
    requires
        report@.len() == TOUCH_REPORT_LEN,
        touch_count(report@, old(out)@.len() as nat) <= 5,
    ensures
        count == touch_count(report@, old(out)@.len() as nat),
        final(out)@.len() == old(out)@.len(),
        forall|i: int| 0 <= i < count ==> final(out)@[i] == Some(touch_record(report@, i)),
        forall|i: int| count <= i < final(out)@.len() ==> final(out)@[i] is None,
{
    let n = out.len();
    let mut k: usize = 0;
    while k < n
        invariant
            n == out@.len(),
            k <= n,
            forall|i: int| 0 <= i < k ==> out@[i] is None,
        decreases n - k,
    {
        out.set(k, None);
        k += 1;
    }
    let b0 = report[0];
    let announced = b0 & 0x0F;
    assert(announced == b0 % 16) by (bit_vector)
        requires
            announced == b0 & 0x0F,
    ;
    let max_points = (n % 256) as u8;
    let count = if announced < max_points {
        announced
    } else {
        max_points
    } as usize;
    let mut i: usize = 0;
    while i < count
        invariant
            report@.len() == TOUCH_REPORT_LEN,
            n == out@.len(),
            count == touch_count(report@, n as nat),
            count <= 5,
            count <= n,
            i <= count,
            forall|j: int| 0 <= j < i ==> out@[j] == Some(touch_record(report@, j)),
            forall|j: int| count <= j < n ==> out@[j] is None,
        decreases count - i,
    {
        let base = 1 + i * 6;
        let p0 = report[base];
        let p1 = report[base + 1];
        let p2 = report[base + 2];
        let p3 = report[base + 3];
        let event = p0 >> 6;
        let x = (((p0 & 0x0F) as u16) << 8) | p1 as u16;
        let y = (((p2 & 0x0F) as u16) << 8) | p3 as u16;
        let id = (p2 >> 4) & 0x0F;
        proof {
            assert(event == p0 / 64) by (bit_vector)
                requires
                    event == p0 >> 6,
            ;
            assert(id == p2 / 16) by (bit_vector)
                requires
                    id == (p2 >> 4) & 0x0F,
            ;
            assert(x == (p0 % 16) * 256 + p1) by (bit_vector)
                requires
                    x == (((p0 & 0x0F) as u16) << 8) | p1 as u16,
            ;
            assert(y == (p2 % 16) * 256 + p3) by (bit_vector)
                requires
                    y == (((p2 & 0x0F) as u16) << 8) | p3 as u16,
            ;
        }
        let point = TouchPoint {
            id,
            event: TouchEvent::from_u8(event),
            x,
            y,
            weight: report[base + 4],
            misc: report[base + 5],
        };
        assert(point == touch_record(report@, i as int));
        out.set(i, Some(point));
        i += 1;
    }
    count
}

} // verus!

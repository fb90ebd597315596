//! A row of LEDs on output pins, which may be wired inverted.

use vstd::prelude::*;

verus! {

/// Whether an LED pin is driven high for `level` (on or off) on a board whose
/// LEDs are `inverted` or not: the level is inverted first, and a set level
/// then drives the pin low.
pub open spec fn spec_pin_high(level: bool, inverted: bool) -> bool {
    let level = if inverted {
        !level
    } else {
        level
    };
    !level
}

/// Switching an LED drives its pin high exactly when the level equals the
/// board's inversion: on a board that does not invert, on is low and off is
/// high; on one that inverts, on is high and off is low.
pub proof fn lemma_pin_level(level: bool, inverted: bool)
    ensures
        spec_pin_high(level, inverted) == (level == inverted),
{
}

/// Toggling a pin twice leaves every pin as it was.
pub proof fn lemma_toggle_twice(pins: Seq<bool>, i: int)
    requires
        0 <= i < pins.len(),
    ensures
        pins.update(i, !pins[i]).update(i, !pins.update(i, !pins[i])[i]) == pins,
{
    assert(pins.update(i, !pins[i]).update(i, !pins.update(i, !pins[i])[i]) =~= pins);
}

/// Bit `i` of `bits` is set.
pub open spec fn bit_set(bits: u32, i: int) -> bool {
    ((bits as nat) / vstd::arithmetic::power2::pow2(i as nat)) % 2 == 1
}

/// Bit `i` of a mask is the bit that shifting the mask right by `i` brings
/// to the bottom.
pub proof fn lemma_bit_set_is_shifted_bit(mask: u32, i: u32)
    requires
        i < 32,
    ensures
        bit_set(mask, i as int) == ((mask >> i) & 1u32 == 1u32),
{
    vstd::bits::lemma_u32_shr_is_div(mask, i);
    vstd::bits::lemma_u32_pow2_no_overflow(i as nat);
    let b = (mask >> i) & 1u32;
    assert(b == (mask >> i) % 2) by (bit_vector)
        requires
            b == (mask >> i) & 1u32,
    ;
}

/// `N` LEDs, through the levels of their pins (`true` for high).
pub struct Led<const N: usize, const INVERTED: bool> {
    levels: Vec<bool>,
}

impl<const N: usize, const INVERTED: bool> Led<N, INVERTED> {
    /// The pin levels, `true` for high.
    pub closed spec fn view(&self) -> Seq<bool> {
        self.levels@
    }

    /// LEDs whose pins are at `levels`.
    pub fn new(levels: Vec<bool>) -> (r: Self)
        requires
            levels@.len() == N,
        ensures
            r.view() == levels@,
    {
        Led { levels }
    }

    /// The level of pin `index`.
    pub fn level(&self, index: usize) -> (r: bool)
        requires
            index < self.view().len(),
        ensures
            r == self.view()[index as int],
    {
        self.levels[index]
    }

    /// Switch LED `index` on or off; an index past the last LED changes nothing.
    pub fn set(&mut self, index: usize, level: bool)
        requires
            old(self).view().len() == N,
        ensures
            final(self).view() == if index < N {
                old(self).view().update(index as int, spec_pin_high(level, INVERTED))
            } else {
                old(self).view()
            },
    {
        if index < N {
            let level = if INVERTED {
                !level
            } else {
                level
            };
            let state = match level {
                true => false,
                false => true,
            };
            self.levels.set(index, state);
        }
    }

    /// Flip the pin of LED `index`; an index past the last LED changes nothing.
    pub fn toggle(&mut self, index: usize)
        requires
            old(self).view().len() == N,
        ensures
            final(self).view() == if index < N {
                old(self).view().update(index as int, !old(self).view()[index as int])
            } else {
                old(self).view()
            },
    {
        if index < N {
            let current = self.levels[index];
            self.levels.set(index, !current);
        }
    }

    /// Drive pin `i` high exactly when bit `i` of `mask` is set.
    pub fn mask(&mut self, mask: u32)
        requires
            old(self).view().len() == N,
            N <= 32,
        ensures
            final(self).view().len() == N,
            forall|i: int| 0 <= i < N ==> final(self).view()[i] == bit_set(mask, i),
    {
        let mut i: usize = 0;
        while i < N
            invariant
                N <= 32,
                i <= N,
                self.levels@.len() == N,
                forall|j: int| 0 <= j < i ==> self.levels@[j] == bit_set(mask, j),
            decreases N - i,
        {
            let shift = i as u32;
            let bit = (mask >> shift) & 1;
            proof {
                vstd::bits::lemma_u32_shr_is_div(mask, shift);
                vstd::bits::lemma_u32_pow2_no_overflow(shift as nat);
                assert(bit == (mask >> shift) % 2) by (bit_vector)
                    requires
                        bit == (mask >> shift) & 1,
                ;
            }
            self.levels.set(i, bit != 0);
            i += 1;
        }
    }
}

} // verus!

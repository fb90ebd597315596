//! Board support data structures: memory layouts with regions, sections and
//! aliases, the `memory.x` linker script generator, the board definition
//! parser, and the small pieces of runtime logic that sit on top of them.

use vstd::prelude::*;
use vstd::string::StringSliceAdditionalSpecFns;
use vstd::arithmetic::power2::{pow2, lemma_pow2_strictly_increases, lemma2_to64, lemma2_to64_rest, lemma_pow2_pos};
use vstd::bits::{low_bits_mask, lemma_u64_low_bits_mask_is_mod};

pub mod memory;
pub mod text;
pub mod linker;
pub mod config;
pub mod shared_queue;
pub mod color;
pub mod touch;
pub mod led;
pub mod mpu;
pub mod texture;
pub mod mailbox;
pub mod fonts;
pub mod log_widget;
pub mod terminal;
pub mod board;
pub mod panel;
pub mod wifi;

verus! {

/// `a` is a power of two: `2^k` for some `k`.
pub open spec fn is_power_of_two(a: nat) -> bool {
    exists|k: nat| pow2(k) == a
}

/// The smallest multiple of `align` that is at least `x`.
pub open spec fn spec_align_up(x: nat, align: nat) -> nat
    recommends
        align > 0,
{
    ((x + align - 1) / (align as int) * align) as nat
}

proof fn lemma_pow2_exponent_fits(a: usize, k: nat)
    requires
        pow2(k) == a,
    ensures
        k < usize::BITS,
        low_bits_mask(k) == a - 1,
{
    lemma2_to64();
    lemma2_to64_rest();
    if k >= usize::BITS {
        lemma_pow2_strictly_increases(usize::BITS as nat, k);
        if k > usize::BITS {
        }
        assert(pow2(usize::BITS as nat) > usize::MAX);
    }
    lemma_pow2_pos(k);
    reveal(low_bits_mask);
}

/// Clearing the low bits of `y` below a power of two rounds it down to a multiple.
proof fn lemma_clear_low_bits(y: usize, a: usize)
    requires
        is_power_of_two(a as nat),
    ensures
        a > 0,
        y & !((a - 1) as usize) == (y as int) - (y as int) % (a as int),
{
    let k = choose|k: nat| pow2(k) == a as nat;
    lemma_pow2_exponent_fits(a, k);
    lemma_pow2_pos(k);
    let m: usize = (a - 1) as usize;
    assert(usize::BITS <= 64);
    assert(k < 64);
    lemma_u64_low_bits_mask_is_mod(y as u64, k);
    assert(((y & m) as u64) == ((y as u64) & (m as u64))) by (bit_vector);
    assert((y & !m) == y - (y & m)) by (bit_vector);
}

/// Aligning up gives the smallest multiple of `align` at or above `x`: it is
/// a multiple of `align`, no smaller than `x`, and less than `x + align`.
pub proof fn lemma_spec_align_up(x: nat, align: nat)
    requires
        align > 0,
    ensures
        x <= spec_align_up(x, align) < x + align,
        (spec_align_up(x, align) as int) % (align as int) == 0,
{
    let a = align as int;
    let y = x + a - 1;
    vstd::arithmetic::div_mod::lemma_fundamental_div_mod(y, a);
    vstd::arithmetic::div_mod::lemma_mod_bound(y, a);
    vstd::arithmetic::mul::lemma_mul_is_commutative(a, y / a);
    vstd::arithmetic::div_mod::lemma_mod_multiples_basic(y / a, a);
    vstd::arithmetic::div_mod::lemma_div_pos_is_pos(y, a);
}

/// Align `x` up to the next multiple of `align`, a power of two.
pub fn align_up(x: usize, align: usize) -> (r: usize)
    requires
        is_power_of_two(align as nat),
        x + align - 1 <= usize::MAX,
    ensures
        r == spec_align_up(x as nat, align as nat),
        (r as int) % (align as int) == 0,
        x <= r < x + align,
{
    proof {
        lemma_clear_low_bits((x + (align - 1)) as usize, align);
    }
    let y = x + (align - 1);
    let r = y & !(align - 1);
    proof {
        let a = align as int;
        let yi = y as int;
        let ri = r as int;
        vstd::arithmetic::div_mod::lemma_fundamental_div_mod(yi, a);
        vstd::arithmetic::div_mod::lemma_mod_bound(yi, a);
        assert(ri == a * (yi / a));
        vstd::arithmetic::mul::lemma_mul_is_commutative(a, yi / a);
        vstd::arithmetic::div_mod::lemma_mod_multiples_basic(yi / a, a);
    }
    r
}

/// Equality of two strings, compared byte by byte.
pub fn str_eq(a: &str, b: &str) -> (r: bool)
    ensures
        r == (a@ == b@),
{
    let a_bytes = a.as_bytes();
    let b_bytes = b.as_bytes();
    proof {
        vstd::utf8::encode_utf8_decode_utf8(a@);
        vstd::utf8::encode_utf8_decode_utf8(b@);
    }
    if a_bytes.len() != b_bytes.len() {
        return false;
    }
    let mut i: usize = 0;
    while i < a_bytes.len()
        invariant
            a_bytes@ == a.spec_bytes(),
            b_bytes@ == b.spec_bytes(),
            a_bytes@.len() == b_bytes@.len(),
            i <= a_bytes@.len(),
            forall|j: int| 0 <= j < i ==> a_bytes@[j] == b_bytes@[j],
            vstd::utf8::decode_utf8(a.spec_bytes()) == a@,
            vstd::utf8::decode_utf8(b.spec_bytes()) == b@,
        decreases a_bytes@.len() - i,
    {
        if a_bytes[i] != b_bytes[i] {
            return false;
        }
        i += 1;
    }
    assert(a_bytes@ =~= b_bytes@);
    true
}

} // verus!

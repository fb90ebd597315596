//! Text building blocks: decimal and hexadecimal renderings, character
//! classes, and conversions between strings and character vectors.

use std::fmt::Write;

use vstd::prelude::*;
use vstd::string::{StrSliceExecFns, StringExecFns};

verus! {

/// The character for digit value `d` (uppercase for 10 to 15).
pub open spec fn digit_char(d: nat) -> char {
    if d < 10 {
        (48 + d) as char
    } else {
        (55 + d) as char
    }
}

/// Digits of `n` in base `base`, most significant first, without leading zeros.
pub open spec fn digits(n: nat, base: nat) -> Seq<char>
    recommends
        base >= 2,
    decreases n,
    when base >= 2
{
    if n < base {
        seq![digit_char(n)]
    } else {
        proof {
            vstd::arithmetic::div_mod::lemma_div_decreases(n as int, base as int);
        }
        digits(n / base, base).push(digit_char(n % base))
    }
}

/// Decimal rendering of `n`, as `{}` formats an unsigned integer.
pub open spec fn decimal(n: nat) -> Seq<char> {
    digits(n, 10)
}

/// `n` zero characters.
pub open spec fn zeros(n: nat) -> Seq<char> {
    Seq::new(n, |i: int| '0')
}

/// Uppercase hexadecimal rendering of `n`, zero-padded to at least `width`
/// digits, as `{:0width$X}` formats an unsigned integer.
pub open spec fn hex_padded(n: nat, width: nat) -> Seq<char> {
    let d = digits(n, 16);
    if d.len() < width {
        zeros((width - d.len()) as nat) + d
    } else {
        d
    }
}

/// Renders `true` and `false` as `{}` does.
pub open spec fn bool_text(b: bool) -> Seq<char> {
    if b {
        seq!['t', 'r', 'u', 'e']
    } else {
        seq!['f', 'a', 'l', 's', 'e']
    }
}

proof fn lemma_digits_len(n: nat, base: nat)
    requires
        base >= 2,
    ensures
        digits(n, base).len() >= 1,
    decreases n,
{
    if n >= base {
        vstd::arithmetic::div_mod::lemma_div_decreases(n as int, base as int);
        lemma_digits_len(n / base, base);
    }
}

fn digit_to_char(d: u64) -> (c: char)
    requires
        d < 16,
    ensures
        c == digit_char(d as nat),
{
    if d < 10 {
        ((48 + d) as u8) as char
    } else {
        ((55 + d) as u8) as char
    }
}

/// Append one character.
#[verifier::external_body]
pub(crate) fn push_char(out: &mut String, c: char)
    ensures
        final(out)@ == old(out)@.push(c),
{
    out.push(c)
}

/// Append the digits of `n` in base `base`.
fn push_digits(out: &mut String, n: u64, base: u64)
    requires
        2 <= base <= 16,
    ensures
        final(out)@ == old(out)@ + digits(n as nat, base as nat),
    decreases n,
{
    let ghost start = out@;
    if n >= base {
        proof {
            vstd::arithmetic::div_mod::lemma_div_decreases(n as int, base as int);
        }
        push_digits(out, n / base, base);
    }
    let c = digit_to_char(n % base);
    push_char(out, c);
    proof {
        let nn = n as nat;
        let bb = base as nat;
        assert(c == digit_char(nn % bb));
        if nn >= bb {
            assert(digits(nn, bb) == digits(nn / bb, bb).push(digit_char(nn % bb)));
        } else {
            assert(digits(nn, bb) == seq![digit_char(nn)]);
            vstd::arithmetic::div_mod::lemma_small_mod(nn, bb);
        }
    }
    assert(out@ =~= start + digits(n as nat, base as nat));
}

/// Append the decimal rendering of `n`.
pub(crate) fn push_decimal(out: &mut String, n: u64)
    ensures
        final(out)@ == old(out)@ + decimal(n as nat),
{
    push_digits(out, n, 10);
}

/// Number of hexadecimal digits of `n`.
fn hex_len(n: u64) -> (r: u64)
    ensures
        r == digits(n as nat, 16).len(),
        1 <= r <= 16,
    decreases n,
{
    if n < 16 {
        1
    } else {
        let r = hex_len(n / 16);
        proof {
            assert(digits(n as nat, 16) == digits((n / 16) as nat, 16).push(digit_char((n % 16) as nat)));
            assert(r < 16) by {
                lemma_hex_len_bound(n);
            }
        }
        r + 1
    }
}

proof fn lemma_hex_len_bound(n: u64)
    requires
        n >= 16,
    ensures
        digits((n / 16) as nat, 16).len() < 16,
{
    reveal_with_fuel(pow16, 16);
    assert(pow16(15) == 0x1000_0000_0000_0000);
    lemma_digits_len_bound((n / 16) as nat, 15);
}

/// `16^k`.
spec fn pow16(k: nat) -> nat
    decreases k,
{
    if k == 0 {
        1
    } else {
        16 * pow16((k - 1) as nat)
    }
}

/// A number below `16^k` has at most `k` hexadecimal digits.
proof fn lemma_digits_len_bound(n: nat, k: nat)
    requires
        k >= 1,
        n < pow16(k),
    ensures
        digits(n, 16).len() <= k,
    decreases n,
{
    if n >= 16 {
        if k == 1 {
            reveal_with_fuel(pow16, 2);
        } else {
            assert(n / 16 < pow16((k - 1) as nat));
            lemma_digits_len_bound(n / 16, (k - 1) as nat);
        }
    }
}

/// Append the uppercase hexadecimal rendering of `n`, zero-padded to `width` digits.
pub(crate) fn push_hex_padded(out: &mut String, n: u64, width: u64)
    ensures
        final(out)@ == old(out)@ + hex_padded(n as nat, width as nat),
{
    let len = hex_len(n);
    let ghost start = out@;
    if len < width {
        let mut i: u64 = 0;
        while i < width - len
            invariant
                len < width,
                i <= width - len,
                out@ == start + zeros(i as nat),
            decreases width - len - i,
        {
            push_char(out, '0');
            i += 1;
            assert(out@ =~= start + zeros(i as nat));
        }
    }
    let ghost mid = out@;
    push_digits(out, n, 16);
    assert(out@ =~= start + hex_padded(n as nat, width as nat));
}

/// Append `true` or `false`.
pub(crate) fn push_bool(out: &mut String, b: bool)
    ensures
        final(out)@ == old(out)@ + bool_text(b),
{
    let ghost start = out@;
    if b {
        push_char(out, 't');
        push_char(out, 'r');
        push_char(out, 'u');
        push_char(out, 'e');
    } else {
        push_char(out, 'f');
        push_char(out, 'a');
        push_char(out, 'l');
        push_char(out, 's');
        push_char(out, 'e');
    }
    assert(out@ =~= start + bool_text(b));
}

/// Append the string `s`.
pub(crate) fn push_str(out: &mut String, s: &str)
    ensures
        final(out)@ == old(out)@ + s@,
{
    out.append(s);
}

/// Name for what `{:?}` renders for a string: the string in double quotes,
/// each character escaped as `char::escape_debug` (within a string) does.
pub uninterp spec fn debug_str(s: Seq<char>) -> Seq<char>;

/// Printable ASCII without `"` and `\`: the characters that `{:?}` leaves as
/// they are.
pub open spec fn plain_ascii(s: Seq<char>) -> bool {
    forall|i: int| 0 <= i < s.len() ==> ' ' <= #[trigger] s[i] && s[i] <= '~' && s[i] != '"' && s[i] != '\\'
}

/// Append `{:?}` of `s` (std's `Debug` for `str`, through `write!`). The
/// contract names the appended text with [`debug_str`]; it states it only for
/// printable ASCII without `"` and `\`, which comes out in double quotes and
/// otherwise unchanged. The escaping of other characters rests on Unicode
/// tables and is not stated.
#[verifier::external_body]
pub(crate) fn push_debug_str(out: &mut String, s: &str)
    ensures
        final(out)@ == old(out)@ + debug_str(s@),
        plain_ascii(s@) ==> final(out)@ == old(out)@ + seq!['"'] + s@ + seq!['"'],
{
    let _ = write!(out, "{:?}", s);
}

/// Append every character of `s`.
pub(crate) fn push_chars(out: &mut String, s: &Vec<char>)
    ensures
        final(out)@ == old(out)@ + s@,
{
    let ghost start = out@;
    let mut i: usize = 0;
    while i < s.len()
        invariant
            i <= s@.len(),
            out@ == start + s@.subrange(0, i as int),
        decreases s@.len() - i,
    {
        push_char(out, s[i]);
        i += 1;
        assert(out@ =~= start + s@.subrange(0, i as int));
    }
    assert(s@.subrange(0, s@.len() as int) =~= s@);
}

/// The characters of `s`.
pub(crate) fn chars_of(s: &str) -> (r: Vec<char>)
    ensures
        r@ == s@,
{
    let n = s.unicode_len();
    let mut r: Vec<char> = Vec::new();
    let mut i: usize = 0;
    while i < n
        invariant
            n == s@.len(),
            i <= n,
            r@ == s@.subrange(0, i as int),
        decreases n - i,
    {
        r.push(s.get_char(i));
        i += 1;
        assert(r@ =~= s@.subrange(0, i as int));
    }
    assert(s@.subrange(0, n as int) =~= s@);
    r
}

/// A string holding the characters of `s`.
pub(crate) fn string_of(s: &Vec<char>) -> (r: String)
    ensures
        r@ == s@,
{
    let mut r = String::new();
    push_chars(&mut r, s);
    assert(r@ =~= s@);
    r
}

} // verus!

//! Size expressions of board definitions: sums and differences of terms such
//! as `256B`, `256KiB`, `2MiB - 256B`, `0x1000_0100` or `2096896`, evaluated
//! left to right.

use vstd::prelude::*;

use crate::text::{chars_of, debug_str, push_chars, push_debug_str, push_str, string_of};

use super::IntOrString;

verus! {

/// `char::is_whitespace`: the Unicode `White_Space` characters.
pub open spec fn is_whitespace(c: char) -> bool {
    ||| '\t' <= c && c <= '\r'
    ||| c == ' '
    ||| c == '\u{85}'
    ||| c == '\u{a0}'
    ||| c == '\u{1680}'
    ||| '\u{2000}' <= c && c <= '\u{200a}'
    ||| c == '\u{2028}'
    ||| c == '\u{2029}'
    ||| c == '\u{202f}'
    ||| c == '\u{205f}'
    ||| c == '\u{3000}'
}

/// `s` without its leading whitespace.
pub open spec fn trim_start(s: Seq<char>) -> Seq<char>
    decreases s.len(),
{
    if s.len() > 0 && is_whitespace(s[0]) {
        trim_start(s.drop_first())
    } else {
        s
    }
}

/// `s` without its trailing whitespace.
pub open spec fn trim_end(s: Seq<char>) -> Seq<char>
    decreases s.len(),
{
    if s.len() > 0 && is_whitespace(s.last()) {
        trim_end(s.drop_last())
    } else {
        s
    }
}

/// `str::trim`: `s` without leading and trailing whitespace.
pub open spec fn trim(s: Seq<char>) -> Seq<char> {
    trim_end(trim_start(s))
}

/// The ways an integer literal can fail to parse.
#[derive(Clone, Copy, Debug, PartialEq, Eq)]
pub enum IntErrorKind {
    Empty,
    InvalidDigit,
    PosOverflow,
}

/// How std's `ParseIntError` displays each kind.
pub open spec fn int_error_text(kind: IntErrorKind) -> Seq<char> {
    match kind {
        IntErrorKind::Empty => "cannot parse integer from empty string"@,
        IntErrorKind::InvalidDigit => "invalid digit found in string"@,
        IntErrorKind::PosOverflow => "number too large to fit in target type"@,
    }
}

/// `char::to_digit(radix)`.
pub open spec fn digit_value(c: char, radix: nat) -> Option<nat> {
    let v: int = if '0' <= c && c <= '9' {
        c as int - 48
    } else if 'a' <= c && c <= 'z' {
        c as int - 97 + 10
    } else if 'A' <= c && c <= 'Z' {
        c as int - 65 + 10
    } else {
        radix as int
    };
    if v < radix {
        Some(v as nat)
    } else {
        None
    }
}

/// Value of the first `n` digits of `d` in base `radix`, read left to right.
pub open spec fn fold_digits(d: Seq<char>, radix: nat, n: int) -> Result<u64, IntErrorKind>
    decreases n,
{
    if n <= 0 {
        Ok(0)
    } else {
        match fold_digits(d, radix, n - 1) {
            Err(e) => Err(e),
            Ok(acc) => match digit_value(d[n - 1], radix) {
                None => Err(IntErrorKind::InvalidDigit),
                Some(x) => if acc * radix + x > u64::MAX {
                    Err(IntErrorKind::PosOverflow)
                } else {
                    Ok((acc * radix + x) as u64)
                },
            },
        }
    }
}

/// `u64::from_str_radix(s, radix)`: an optional `+`, then at least one digit.
pub open spec fn from_str_radix(s: Seq<char>, radix: nat) -> Result<u64, IntErrorKind> {
    if s.len() == 0 {
        Err(IntErrorKind::Empty)
    } else if s.len() == 1 && (s[0] == '+' || s[0] == '-') {
        Err(IntErrorKind::InvalidDigit)
    } else {
        let d = if s[0] == '+' {
            s.drop_first()
        } else {
            s
        };
        fold_digits(d, radix, d.len() as int)
    }
}

/// `s` without its underscores.
pub open spec fn without_underscores(s: Seq<char>) -> Seq<char>
    decreases s.len(),
{
    if s.len() == 0 {
        s
    } else if s.last() == '_' {
        without_underscores(s.drop_last())
    } else {
        without_underscores(s.drop_last()).push(s.last())
    }
}

/// `s` starts with `0x` or `0X`.
pub open spec fn has_hex_prefix(s: Seq<char>) -> bool {
    s.len() >= 2 && s[0] == '0' && (s[1] == 'x' || s[1] == 'X')
}

/// A number: decimal digits, or hexadecimal digits after `0x`, with
/// underscores ignored.
pub open spec fn spec_parse_number(s: Seq<char>) -> Result<u64, Seq<char>> {
    let cleaned = without_underscores(s);
    if has_hex_prefix(cleaned) {
        match from_str_radix(cleaned.skip(2), 16) {
            Ok(v) => Ok(v),
            Err(e) => Err("invalid hex integer "@ + debug_str(s) + ": "@ + int_error_text(e)),
        }
    } else {
        match from_str_radix(cleaned, 10) {
            Ok(v) => Ok(v),
            Err(e) => Err("invalid integer "@ + debug_str(s) + ": "@ + int_error_text(e)),
        }
    }
}

/// The multiplier of a size suffix (surrounding whitespace ignored).
pub open spec fn spec_parse_size_suffix(s0: Seq<char>) -> Result<u64, Seq<char>> {
    let s = trim(s0);
    if s.len() == 0 {
        Ok(1u64)
    } else if s == "B"@ || s == "b"@ {
        Ok(1u64)
    } else if s == "KiB"@ || s == "KIB"@ || s == "kib"@ {
        Ok(1024u64)
    } else if s == "MiB"@ || s == "MIB"@ || s == "mib"@ {
        Ok(1048576u64)
    } else if s == "GiB"@ || s == "GIB"@ || s == "gib"@ {
        Ok(1073741824u64)
    } else if s == "KB"@ || s == "kb"@ {
        Ok(1000u64)
    } else if s == "MB"@ || s == "mb"@ {
        Ok(1000000u64)
    } else if s == "GB"@ || s == "gb"@ {
        Ok(1000000000u64)
    } else {
        Err("unknown size suffix: "@ + debug_str(s))
    }
}

/// Length of the longest prefix of ASCII digits and underscores.
pub open spec fn digit_prefix_len(s: Seq<char>) -> int
    decreases s.len(),
{
    if s.len() > 0 && (('0' <= s[0] && s[0] <= '9') || s[0] == '_') {
        1 + digit_prefix_len(s.drop_first())
    } else {
        0
    }
}

/// One term: a hexadecimal number, or a decimal number with an optional size suffix.
pub open spec fn spec_parse_term(term0: Seq<char>) -> Result<u64, Seq<char>> {
    let term = trim(term0);
    if term.len() == 0 {
        Err("empty term"@)
    } else if has_hex_prefix(term) {
        spec_parse_number(term)
    } else {
        let k = digit_prefix_len(term);
        let num = term.take(k);
        let suffix = term.skip(k);
        if num.len() == 0 {
            Err("missing number in term: "@ + term)
        } else {
            match spec_parse_number(num) {
                Err(e) => Err(e),
                Ok(n) => match spec_parse_size_suffix(suffix) {
                    Err(e) => Err(e),
                    Ok(m) => if n * m > u64::MAX {
                        Err("overflow in term: "@ + term)
                    } else {
                        Ok((n * m) as u64)
                    },
                },
            }
        }
    }
}

/// Tokenizer state after the first `n` characters: the tokens so far and the pending term.
pub open spec fn tokenize_state(s: Seq<char>, n: int) -> (Seq<Seq<char>>, Seq<char>)
    decreases n,
{
    if n <= 0 {
        (Seq::empty(), Seq::empty())
    } else {
        let (out, cur) = tokenize_state(s, n - 1);
        let c = s[n - 1];
        if c == '+' || c == '-' {
            let out1 = if trim(cur).len() > 0 {
                out.push(trim(cur))
            } else {
                out
            };
            (out1.push(seq![c]), Seq::empty())
        } else {
            (out, cur.push(c))
        }
    }
}

/// The tokens of `s`: trimmed terms and the operators `+` and `-`.
pub open spec fn tokens(s: Seq<char>) -> Seq<Seq<char>> {
    let (out, cur) = tokenize_state(s, s.len() as int);
    if trim(cur).len() > 0 {
        out.push(trim(cur))
    } else {
        out
    }
}

/// Evaluation of `tokens` from position `i`, with `acc` the value so far.
pub open spec fn eval_tokens(tokens: Seq<Seq<char>>, expr: Seq<char>, i: int, acc: u64) -> Result<u64, Seq<char>>
    decreases tokens.len() - i,
{
    if i >= tokens.len() {
        Ok(acc)
    } else if i + 1 >= tokens.len() {
        Err("operator "@ + debug_str(tokens[i]) + " missing rhs"@)
    } else {
        match spec_parse_term(tokens[i + 1]) {
            Err(e) => Err(e),
            Ok(r) => if tokens[i] == seq!['+'] {
                if acc + r > u64::MAX {
                    Err("overflow in expression: "@ + expr)
                } else {
                    eval_tokens(tokens, expr, i + 2, (acc + r) as u64)
                }
            } else if tokens[i] == seq!['-'] {
                if acc < r {
                    Err("underflow in expression: "@ + expr)
                } else {
                    eval_tokens(tokens, expr, i + 2, (acc - r) as u64)
                }
            } else {
                Err("unexpected operator: "@ + tokens[i])
            },
        }
    }
}

/// Value of a size expression.
pub open spec fn spec_parse_expr(s0: Seq<char>) -> Result<u64, Seq<char>> {
    let s = trim(s0);
    if s.len() == 0 {
        Err("empty value"@)
    } else if tokens(s).len() == 0 {
        Err("empty expression"@)
    } else {
        match spec_parse_term(tokens(s)[0]) {
            Err(e) => Err(e),
            Ok(first) => eval_tokens(tokens(s), s, 1, first),
        }
    }
}

/// The characters of each vector.
pub open spec fn views(v: Seq<Vec<char>>) -> Seq<Seq<char>> {
    Seq::new(v.len(), |i: int| v[i]@)
}

/// A `Result` with its error message taken as characters.
pub open spec fn result_view(r: Result<u64, String>) -> Result<u64, Seq<char>> {
    match r {
        Ok(v) => Ok(v),
        Err(e) => Err(e@),
    }
}

impl IntOrString {
    /// The value this number or size expression stands for.
    pub open spec fn spec_value(self) -> Result<u64, Seq<char>> {
        match self {
            IntOrString::Int(v) => Ok(v),
            IntOrString::String(s) => spec_parse_expr(s@),
        }
    }

    /// Evaluate this number or size expression.
    pub fn parse_u64(&self) -> (r: Result<u64, String>)
        ensures
            result_view(r) == self.spec_value(),
    {
        match self {
            IntOrString::Int(v) => Ok(*v),
            IntOrString::String(s) => parse_expr_u64(s.as_str()),
        }
    }
}

// ----- executable parsing -----

fn is_whitespace_char(c: char) -> (r: bool)
    ensures
        r == is_whitespace(c),
{
    ('\t' <= c && c <= '\r') || c == ' ' || c == '\u{85}' || c == '\u{a0}' || c == '\u{1680}' || (
    '\u{2000}' <= c && c <= '\u{200a}') || c == '\u{2028}' || c == '\u{2029}' || c == '\u{202f}'
        || c == '\u{205f}' || c == '\u{3000}'
}

/// A size expression term: no operator in it.
pub open spec fn operator_free(t: Seq<char>) -> bool {
    forall|k: int| 0 <= k < t.len() ==> t[k] != '+' && t[k] != '-'
}

/// Two terms joined by ` + ` or ` - ` evaluate to the checked sum or
/// difference of their values: the sum fails on overflow, the difference
/// when the second term is larger. The error names the expression without
/// its surrounding whitespace.
pub proof fn lemma_parse_two_terms(t1: Seq<char>, t2: Seq<char>, op: char)
    requires
        operator_free(t1),
        operator_free(t2),
        op == '+' || op == '-',
        spec_parse_term(t1) is Ok,
        spec_parse_term(t2) is Ok,
    ensures
        ({
            let s = t1 + seq![' ', op, ' '] + t2;
            let x = spec_parse_term(t1)->Ok_0;
            let y = spec_parse_term(t2)->Ok_0;
            spec_parse_expr(s) == if op == '+' {
                if x + y <= u64::MAX {
                    Ok((x + y) as u64)
                } else {
                    Err("overflow in expression: "@ + trim(s))
                }
            } else {
                if y <= x {
                    Ok((x - y) as u64)
                } else {
                    Err("underflow in expression: "@ + trim(s))
                }
            }
        }),
{
    let s = t1 + seq![' ', op, ' '] + t2;
    lemma_trim_joined(t1, t2, op);
    let a = trim_start(t1);
    let b = trim_end(t2);
    let st = a + seq![' ', op, ' '] + b;
    assert(trim(s) == st);
    let (i1, _) = lemma_trim_shape(t1);
    let (i2, j2) = lemma_trim_shape(t2);
    lemma_leading_whitespace(t1);
    assert(a =~= t1.skip(i1));
    assert(a[0] == t1[i1]);
    assert forall|k: int| 0 <= k < a.len() implies a[k] != '+' && a[k] != '-' by {
        assert(a[k] == t1[i1 + k]);
    }
    lemma_trim_end(t2, j2);
    assert forall|k: int| 0 <= k < b.len() implies b[k] != '+' && b[k] != '-' by {
        assert(b[k] == t2[k]);
    }
    assert(trim(a) == trim(t1));
    lemma_trim_start(b, i2);
    assert(b.skip(i2) =~= t2.subrange(i2, j2));
    let x = t2.subrange(i2, j2);
    assert(x[x.len() - 1] == t2[j2 - 1]);
    lemma_trim_end(x, x.len() as int);
    assert(x.take(x.len() as int) =~= x);
    assert(trim(b) == trim(t2));
    lemma_tokens_of_two(a, b, op);
    assert(tokens(st) == seq![trim(t1), seq![op], trim(t2)]);
    if op == '-' {
        assert(seq![op] != seq!['+']) by {
            assert(seq![op][0] != seq!['+'][0]);
        }
    }
    assert(spec_parse_term(trim(t1)) == spec_parse_term(t1));
    assert(spec_parse_term(trim(t2)) == spec_parse_term(t2));
    let x = spec_parse_term(t1)->Ok_0;
    let y = spec_parse_term(t2)->Ok_0;
    assert(tokens(st).len() == 3);
    if op == '+' && x + y <= u64::MAX {
        assert(eval_tokens(tokens(st), st, 3, (x + y) as u64) == Ok::<u64, Seq<char>>((x + y) as u64));
    }
    if op == '-' && y <= x {
        assert(eval_tokens(tokens(st), st, 3, (x - y) as u64) == Ok::<u64, Seq<char>>((x - y) as u64));
    }
    assert(spec_parse_expr(s) == eval_tokens(tokens(st), st, 1, x));
}

/// Trimming two terms joined by an operator trims the front of the first
/// and the back of the second.
proof fn lemma_trim_joined(t1: Seq<char>, t2: Seq<char>, op: char)
    requires
        spec_parse_term(t1) is Ok,
        spec_parse_term(t2) is Ok,
    ensures
        trim(t1 + seq![' ', op, ' '] + t2) == trim_start(t1) + seq![' ', op, ' '] + trim_end(t2),
{
    let s = t1 + seq![' ', op, ' '] + t2;
    let l1 = t1.len() as int;
    let (i1, _) = lemma_trim_shape(t1);
    let (_, j2) = lemma_trim_shape(t2);
    assert forall|k: int| 0 <= k < i1 implies is_whitespace(s[k]) by {
        assert(s[k] == t1[k]);
    }
    assert(s[i1] == t1[i1]);
    lemma_trim_start(s, i1);
    lemma_trim_start(t1, i1);
    let s1 = s.skip(i1);
    let e = l1 + 3 + j2 - i1;
    assert forall|k: int| e <= k < s1.len() implies is_whitespace(s1[k]) by {
        assert(s1[k] == t2[k + i1 - l1 - 3]);
    }
    assert(s1[e - 1] == t2[j2 - 1]);
    lemma_trim_end(s1, e);
    lemma_trim_end(t2, j2);
    assert(s1.take(e) =~= t1.skip(i1) + seq![' ', op, ' '] + t2.take(j2));
}

/// The tokens of two operator-free terms joined by an operator: the first
/// term trimmed, the operator, the second term trimmed.
proof fn lemma_tokens_of_two(a: Seq<char>, b: Seq<char>, op: char)
    requires
        operator_free(a),
        operator_free(b),
        op == '+' || op == '-',
        a.len() > 0,
        !is_whitespace(a[0]),
        trim(b).len() > 0,
    ensures
        tokens(a + seq![' ', op, ' '] + b) == seq![trim(a), seq![op], trim(b)],
{
    let st = a + seq![' ', op, ' '] + b;
    let m1 = a.len() as int;
    let n = st.len() as int;
    // The first term.
    assert forall|k: int| 0 <= k < m1 + 1 implies st[k] != '+' && st[k] != '-' by {
        if k < m1 {
            assert(st[k] == a[k]);
        }
    }
    lemma_tokenize_plain(st, 0, m1 + 1);
    let first = st.subrange(0, m1 + 1);
    assert(first =~= a.push(' '));
    assert(Seq::<char>::empty() + first =~= first);
    assert(first.drop_last() =~= a);
    assert(trim_start(first) == first);
    assert(trim_start(a) == a);
    assert(trim(first) == trim(a));
    let j = lemma_trailing_whitespace(a);
    assert(j > 0);
    assert(trim(a).len() > 0);
    assert(st[m1 + 1] == op);
    let ops = seq![trim(a), seq![op]];
    assert(tokenize_state(st, m1 + 2) == (ops, Seq::<char>::empty())) by {
        assert(Seq::<Seq<char>>::empty().push(trim(a)).push(seq![op]) =~= ops);
    }
    // The second term.
    assert forall|k: int| m1 + 2 <= k < n implies st[k] != '+' && st[k] != '-' by {
        if k > m1 + 2 {
            assert(st[k] == b[k - m1 - 3]);
        }
    }
    lemma_tokenize_plain(st, m1 + 2, n);
    let second = st.subrange(m1 + 2, n);
    assert(second =~= seq![' '] + b);
    assert(Seq::<char>::empty() + second =~= second);
    assert(second.drop_first() =~= b);
    assert(trim_start(second) == trim_start(b));
    assert(trim(second) == trim(b));
    assert(tokens(st) =~= seq![trim(a), seq![op], trim(b)]);
}

/// A hexadecimal digit: `0`-`9`, `a`-`f` or `A`-`F`.
pub open spec fn is_hex_digit(c: char) -> bool {
    ||| '0' <= c && c <= '9'
    ||| 'a' <= c && c <= 'f'
    ||| 'A' <= c && c <= 'F'
}

/// The value of a hexadecimal digit: 0 to 9 for the decimal digits, and 10
/// to 15 for `a` to `f` and for `A` to `F` alike.
pub open spec fn hex_digit_value(c: char) -> nat {
    if '0' <= c && c <= '9' {
        (c as int - '0' as int) as nat
    } else if 'a' <= c && c <= 'f' {
        (c as int - 'a' as int + 10) as nat
    } else {
        (c as int - 'A' as int + 10) as nat
    }
}

/// The number that the first `n` hexadecimal digits of `d` write, most
/// significant first.
pub open spec fn hex_number(d: Seq<char>, n: int) -> nat
    decreases n,
{
    if n <= 0 {
        0
    } else {
        hex_number(d, n - 1) * 16 + hex_digit_value(d[n - 1])
    }
}

/// `16` to the power `n`.
pub open spec fn pow16(n: nat) -> nat
    decreases n,
{
    if n == 0 {
        1
    } else {
        16 * pow16((n - 1) as nat)
    }
}

/// Hexadecimal literals evaluate to the number their digits write, whatever
/// the case of the letters: `0x` followed by one to sixteen hexadecimal
/// digits is that number.
pub proof fn lemma_hex_literal_value(d: Seq<char>)
    requires
        1 <= d.len() <= 16,
        forall|k: int| 0 <= k < d.len() ==> is_hex_digit(#[trigger] d[k]),
    ensures
        spec_parse_expr(seq!['0', 'x'] + d) == Ok::<u64, Seq<char>>(hex_number(d, d.len() as int) as u64),
        hex_number(d, d.len() as int) <= u64::MAX,
{
    let s = seq!['0', 'x'] + d;
    let n = s.len() as int;
    assert forall|k: int| 0 <= k < n implies s[k] != '+' && s[k] != '-' && s[k] != '_' && !is_whitespace(s[k]) by {
        if k >= 2 {
            assert(s[k] == d[k - 2]);
            assert(is_hex_digit(d[k - 2]));
        }
    }
    // The whole string is one term.
    lemma_trim_start(s, 0);
    assert(s.skip(0) =~= s);
    lemma_trim_end(s, n);
    assert(s.take(n) =~= s);
    assert(trim(s) == s);
    lemma_tokenize_plain(s, 0, n);
    assert(Seq::<char>::empty() + s.subrange(0, n) =~= s);
    assert(tokens(s) =~= seq![s]);
    assert(spec_parse_expr(s) == spec_parse_term(s));
    // Its digits.
    lemma_no_underscores(s);
    assert(has_hex_prefix(s));
    assert(s.skip(2) =~= d);
    assert(d[0] != '+' && d[0] != '-') by {
        assert(is_hex_digit(d[0]));
    }
    lemma_hex_fold(d, d.len() as int);
    lemma_pow16_mono(d.len() as nat, 16);
    assert(pow16(16) == 0x1_0000_0000_0000_0000) by {
        reveal_with_fuel(pow16, 17);
    }
}

proof fn lemma_no_underscores(s: Seq<char>)
    requires
        forall|k: int| 0 <= k < s.len() ==> s[k] != '_',
    ensures
        without_underscores(s) == s,
    decreases s.len(),
{
    if s.len() > 0 {
        lemma_no_underscores(s.drop_last());
        assert(s.drop_last().push(s.last()) =~= s);
    }
}

proof fn lemma_pow16_mono(m: nat, n: nat)
    requires
        m <= n,
    ensures
        pow16(m) <= pow16(n),
        pow16(m) >= 1,
    decreases n,
{
    if n > 0 && m < n {
        lemma_pow16_mono(m, (n - 1) as nat);
    } else if n > 0 {
        lemma_pow16_mono((n - 1) as nat, (n - 1) as nat);
    }
}

/// Folding the first `n` hexadecimal digits gives the number they write,
/// which is below `16^n`.
proof fn lemma_hex_fold(d: Seq<char>, n: int)
    requires
        0 <= n <= d.len() <= 16,
        forall|k: int| 0 <= k < d.len() ==> is_hex_digit(#[trigger] d[k]),
    ensures
        hex_number(d, n) < pow16(n as nat),
        fold_digits(d, 16, n) == Ok::<u64, IntErrorKind>(hex_number(d, n) as u64),
    decreases n,
{
    if n > 0 {
        lemma_hex_fold(d, n - 1);
        let c = d[n - 1];
        assert(is_hex_digit(c));
        assert(digit_value(c, 16) == Some(hex_digit_value(c)));
        let acc = hex_number(d, n - 1);
        let p = pow16((n - 1) as nat);
        let x = hex_digit_value(c);
        assert(acc * 16 + x < 16 * p) by (nonlinear_arith)
            requires
                acc < p,
                x < 16,
        ;
        lemma_pow16_mono(n as nat, 16);
        assert(pow16(16) == 0x1_0000_0000_0000_0000) by {
            reveal_with_fuel(pow16, 17);
        }
    }
}

/// The number of bytes that a size unit written right after a number
/// stands for: none or `B` for bytes, `KiB`, `MiB`, `GiB` for powers of 1024
/// and `KB`, `MB`, `GB` for powers of 1000, each in the spellings a board
/// file may use.
pub open spec fn unit_bytes(u: Seq<char>) -> Option<nat> {
    if u.len() == 0 || u == seq!['B'] || u == seq!['b'] {
        Some(1)
    } else if u == seq!['K', 'i', 'B'] || u == seq!['K', 'I', 'B'] || u == seq!['k', 'i', 'b'] {
        Some(1024)
    } else if u == seq!['M', 'i', 'B'] || u == seq!['M', 'I', 'B'] || u == seq!['m', 'i', 'b'] {
        Some(1024 * 1024)
    } else if u == seq!['G', 'i', 'B'] || u == seq!['G', 'I', 'B'] || u == seq!['g', 'i', 'b'] {
        Some(1024 * 1024 * 1024)
    } else if u == seq!['K', 'B'] || u == seq!['k', 'b'] {
        Some(1000)
    } else if u == seq!['M', 'B'] || u == seq!['m', 'b'] {
        Some(1000 * 1000)
    } else if u == seq!['G', 'B'] || u == seq!['g', 'b'] {
        Some(1000 * 1000 * 1000)
    } else {
        None
    }
}

/// The number that the first `n` decimal digits of `d` write, most
/// significant first.
pub open spec fn decimal_number(d: Seq<char>, n: int) -> nat
    decreases n,
{
    if n <= 0 {
        0
    } else {
        decimal_number(d, n - 1) * 10 + (d[n - 1] as int - '0' as int) as nat
    }
}

/// A size written as decimal digits and a unit is the number the digits
/// write times the bytes the unit stands for, when that fits in 64 bits.
pub proof fn lemma_decimal_size_value(d: Seq<char>, u: Seq<char>)
    requires
        d.len() >= 1,
        forall|k: int| 0 <= k < d.len() ==> '0' <= #[trigger] d[k] && d[k] <= '9',
        unit_bytes(u) is Some,
        decimal_number(d, d.len() as int) * unit_bytes(u)->Some_0 <= u64::MAX,
    ensures
        spec_parse_expr(d + u) == Ok::<u64, Seq<char>>(
            (decimal_number(d, d.len() as int) * unit_bytes(u)->Some_0) as u64,
        ),
{
    lemma_unit_chars(u);
    let s = d + u;
    let l = d.len() as int;
    assert forall|k: int| 0 <= k < s.len() implies s[k] != '+' && s[k] != '-' && !is_whitespace(s[k]) by {
        if k < l {
            assert(s[k] == d[k]);
        } else {
            assert(s[k] == u[k - l]);
        }
    }
    lemma_single_term(s);
    lemma_decimal_term(d, u);
}

/// An expression without operators and without whitespace is one term.
proof fn lemma_single_term(s: Seq<char>)
    requires
        s.len() > 0,
        forall|k: int| 0 <= k < s.len() ==> #[trigger] s[k] != '+' && s[k] != '-' && !is_whitespace(s[k]),
    ensures
        trim(s) == s,
        spec_parse_expr(s) == spec_parse_term(s),
{
    let n = s.len() as int;
    lemma_trim_start(s, 0);
    assert(s.skip(0) =~= s);
    lemma_trim_end(s, n);
    assert(s.take(n) =~= s);
    assert(trim(s) == s);
    lemma_tokenize_plain(s, 0, n);
    assert(Seq::<char>::empty() + s.subrange(0, n) =~= s);
    assert(tokens(s) =~= seq![s]);
}

/// A term of decimal digits and a unit.
proof fn lemma_decimal_term(d: Seq<char>, u: Seq<char>)
    requires
        d.len() >= 1,
        forall|k: int| 0 <= k < d.len() ==> '0' <= #[trigger] d[k] && d[k] <= '9',
        unit_bytes(u) is Some,
        decimal_number(d, d.len() as int) * unit_bytes(u)->Some_0 <= u64::MAX,
        trim(d + u) == d + u,
    ensures
        spec_parse_term(d + u) == Ok::<u64, Seq<char>>(
            (decimal_number(d, d.len() as int) * unit_bytes(u)->Some_0) as u64,
        ),
{
    lemma_unit_chars(u);
    let s = d + u;
    let l = d.len() as int;
    if l >= 2 {
        assert(s[1] == d[1]);
    } else if u.len() > 0 {
        assert(s[1] == u[0]);
    }
    assert(!has_hex_prefix(s));
    assert forall|k: int| 0 <= k < l implies (('0' <= s[k] && s[k] <= '9') || s[k] == '_') by {
        assert(s[k] == d[k]);
    }
    if u.len() > 0 {
        assert(s[l] == u[0]);
    }
    lemma_digit_prefix_len(s, l);
    assert(s.take(l) =~= d);
    assert(s.skip(l) =~= u);
    assert forall|k: int| 0 <= k < d.len() implies d[k] != '_' by {}
    lemma_no_underscores(d);
    if l >= 2 {
        assert(!has_hex_prefix(d));
    }
    assert(d[0] != '+' && d[0] != '-');
    let v = decimal_number(d, l);
    let m = unit_bytes(u)->Some_0;
    assert(m >= 1);
    assert(v <= u64::MAX) by (nonlinear_arith)
        requires
            v * m <= u64::MAX,
            m >= 1,
    ;
    lemma_decimal_fold(d, l);
    assert(spec_parse_number(d) == Ok::<u64, Seq<char>>(v as u64));
    lemma_unit_value(u);
}

/// A unit parses to the bytes it stands for.
#[verifier::rlimit(40)]
proof fn lemma_unit_value(u: Seq<char>)
    requires
        unit_bytes(u) is Some,
    ensures
        spec_parse_size_suffix(u) == Ok::<u64, Seq<char>>(unit_bytes(u)->Some_0 as u64),
{
    lemma_unit_chars(u);
    assert forall|k: int| 0 <= k < u.len() implies !is_whitespace(u[k]) by {}
    if u.len() > 0 {
        lemma_trim_start(u, 0);
        assert(u.skip(0) =~= u);
        lemma_trim_end(u, u.len() as int);
        assert(u.take(u.len() as int) =~= u);
    }
    assert(trim(u) == u);
    if u =~= seq!['B'] {
        reveal_strlit("B");
        assert(u == "B"@);
    } else if u =~= seq!['b'] {
        reveal_strlit("b");
        reveal_strlit("B");
        assert(u != "B"@) by { assert("B"@[0] != u[0]); }
        assert(u == "b"@);
    } else if u =~= seq!['K', 'i', 'B'] {
        reveal_strlit("KiB");
        reveal_strlit("B");
        reveal_strlit("b");
        assert(u == "KiB"@);
    } else if u =~= seq!['K', 'I', 'B'] {
        reveal_strlit("KIB");
        reveal_strlit("B");
        reveal_strlit("b");
        reveal_strlit("KiB");
        assert(u != "KiB"@) by { assert("KiB"@[1] != u[1]); }
        assert(u == "KIB"@);
    } else if u =~= seq!['k', 'i', 'b'] {
        reveal_strlit("kib");
        reveal_strlit("B");
        reveal_strlit("b");
        reveal_strlit("KiB");
        assert(u != "KiB"@) by { assert("KiB"@[0] != u[0]); }
        reveal_strlit("KIB");
        assert(u != "KIB"@) by { assert("KIB"@[0] != u[0]); }
        assert(u == "kib"@);
    } else if u =~= seq!['M', 'i', 'B'] {
        reveal_strlit("MiB");
        reveal_strlit("B");
        reveal_strlit("b");
        reveal_strlit("KiB");
        assert(u != "KiB"@) by { assert("KiB"@[0] != u[0]); }
        reveal_strlit("KIB");
        assert(u != "KIB"@) by { assert("KIB"@[0] != u[0]); }
        reveal_strlit("kib");
        assert(u != "kib"@) by { assert("kib"@[0] != u[0]); }
        assert(u == "MiB"@);
    } else if u =~= seq!['M', 'I', 'B'] {
        reveal_strlit("MIB");
        reveal_strlit("B");
        reveal_strlit("b");
        reveal_strlit("KiB");
        assert(u != "KiB"@) by { assert("KiB"@[0] != u[0]); }
        reveal_strlit("KIB");
        assert(u != "KIB"@) by { assert("KIB"@[0] != u[0]); }
        reveal_strlit("kib");
        assert(u != "kib"@) by { assert("kib"@[0] != u[0]); }
        reveal_strlit("MiB");
        assert(u != "MiB"@) by { assert("MiB"@[1] != u[1]); }
        assert(u == "MIB"@);
    } else if u =~= seq!['m', 'i', 'b'] {
        reveal_strlit("mib");
        reveal_strlit("B");
        reveal_strlit("b");
        reveal_strlit("KiB");
        assert(u != "KiB"@) by { assert("KiB"@[0] != u[0]); }
        reveal_strlit("KIB");
        assert(u != "KIB"@) by { assert("KIB"@[0] != u[0]); }
        reveal_strlit("kib");
        assert(u != "kib"@) by { assert("kib"@[0] != u[0]); }
        reveal_strlit("MiB");
        assert(u != "MiB"@) by { assert("MiB"@[0] != u[0]); }
        reveal_strlit("MIB");
        assert(u != "MIB"@) by { assert("MIB"@[0] != u[0]); }
        assert(u == "mib"@);
    } else if u =~= seq!['G', 'i', 'B'] {
        reveal_strlit("GiB");
        reveal_strlit("B");
        reveal_strlit("b");
        reveal_strlit("KiB");
        assert(u != "KiB"@) by { assert("KiB"@[0] != u[0]); }
        reveal_strlit("KIB");
        assert(u != "KIB"@) by { assert("KIB"@[0] != u[0]); }
        reveal_strlit("kib");
        assert(u != "kib"@) by { assert("kib"@[0] != u[0]); }
        reveal_strlit("MiB");
        assert(u != "MiB"@) by { assert("MiB"@[0] != u[0]); }
        reveal_strlit("MIB");
        assert(u != "MIB"@) by { assert("MIB"@[0] != u[0]); }
        reveal_strlit("mib");
        assert(u != "mib"@) by { assert("mib"@[0] != u[0]); }
        assert(u == "GiB"@);
    } else if u =~= seq!['G', 'I', 'B'] {
        reveal_strlit("GIB");
        reveal_strlit("B");
        reveal_strlit("b");
        reveal_strlit("KiB");
        assert(u != "KiB"@) by { assert("KiB"@[0] != u[0]); }
        reveal_strlit("KIB");
        assert(u != "KIB"@) by { assert("KIB"@[0] != u[0]); }
        reveal_strlit("kib");
        assert(u != "kib"@) by { assert("kib"@[0] != u[0]); }
        reveal_strlit("MiB");
        assert(u != "MiB"@) by { assert("MiB"@[0] != u[0]); }
        reveal_strlit("MIB");
        assert(u != "MIB"@) by { assert("MIB"@[0] != u[0]); }
        reveal_strlit("mib");
        assert(u != "mib"@) by { assert("mib"@[0] != u[0]); }
        reveal_strlit("GiB");
        assert(u != "GiB"@) by { assert("GiB"@[1] != u[1]); }
        assert(u == "GIB"@);
    } else if u =~= seq!['g', 'i', 'b'] {
        reveal_strlit("gib");
        reveal_strlit("B");
        reveal_strlit("b");
        reveal_strlit("KiB");
        assert(u != "KiB"@) by { assert("KiB"@[0] != u[0]); }
        reveal_strlit("KIB");
        assert(u != "KIB"@) by { assert("KIB"@[0] != u[0]); }
        reveal_strlit("kib");
        assert(u != "kib"@) by { assert("kib"@[0] != u[0]); }
        reveal_strlit("MiB");
        assert(u != "MiB"@) by { assert("MiB"@[0] != u[0]); }
        reveal_strlit("MIB");
        assert(u != "MIB"@) by { assert("MIB"@[0] != u[0]); }
        reveal_strlit("mib");
        assert(u != "mib"@) by { assert("mib"@[0] != u[0]); }
        reveal_strlit("GiB");
        assert(u != "GiB"@) by { assert("GiB"@[0] != u[0]); }
        reveal_strlit("GIB");
        assert(u != "GIB"@) by { assert("GIB"@[0] != u[0]); }
        assert(u == "gib"@);
    } else if u =~= seq!['K', 'B'] {
        reveal_strlit("KB");
        reveal_strlit("B");
        reveal_strlit("b");
        reveal_strlit("KiB");
        reveal_strlit("KIB");
        reveal_strlit("kib");
        reveal_strlit("MiB");
        reveal_strlit("MIB");
        reveal_strlit("mib");
        reveal_strlit("GiB");
        reveal_strlit("GIB");
        reveal_strlit("gib");
        assert(u == "KB"@);
    } else if u =~= seq!['k', 'b'] {
        reveal_strlit("kb");
        reveal_strlit("B");
        reveal_strlit("b");
        reveal_strlit("KiB");
        reveal_strlit("KIB");
        reveal_strlit("kib");
        reveal_strlit("MiB");
        reveal_strlit("MIB");
        reveal_strlit("mib");
        reveal_strlit("GiB");
        reveal_strlit("GIB");
        reveal_strlit("gib");
        reveal_strlit("KB");
        assert(u != "KB"@) by { assert("KB"@[0] != u[0]); }
        assert(u == "kb"@);
    } else if u =~= seq!['M', 'B'] {
        reveal_strlit("MB");
        reveal_strlit("B");
        reveal_strlit("b");
        reveal_strlit("KiB");
        reveal_strlit("KIB");
        reveal_strlit("kib");
        reveal_strlit("MiB");
        reveal_strlit("MIB");
        reveal_strlit("mib");
        reveal_strlit("GiB");
        reveal_strlit("GIB");
        reveal_strlit("gib");
        reveal_strlit("KB");
        assert(u != "KB"@) by { assert("KB"@[0] != u[0]); }
        reveal_strlit("kb");
        assert(u != "kb"@) by { assert("kb"@[0] != u[0]); }
        assert(u == "MB"@);
    } else if u =~= seq!['m', 'b'] {
        reveal_strlit("mb");
        reveal_strlit("B");
        reveal_strlit("b");
        reveal_strlit("KiB");
        reveal_strlit("KIB");
        reveal_strlit("kib");
        reveal_strlit("MiB");
        reveal_strlit("MIB");
        reveal_strlit("mib");
        reveal_strlit("GiB");
        reveal_strlit("GIB");
        reveal_strlit("gib");
        reveal_strlit("KB");
        assert(u != "KB"@) by { assert("KB"@[0] != u[0]); }
        reveal_strlit("kb");
        assert(u != "kb"@) by { assert("kb"@[0] != u[0]); }
        reveal_strlit("MB");
        assert(u != "MB"@) by { assert("MB"@[0] != u[0]); }
        assert(u == "mb"@);
    } else if u =~= seq!['G', 'B'] {
        reveal_strlit("GB");
        reveal_strlit("B");
        reveal_strlit("b");
        reveal_strlit("KiB");
        reveal_strlit("KIB");
        reveal_strlit("kib");
        reveal_strlit("MiB");
        reveal_strlit("MIB");
        reveal_strlit("mib");
        reveal_strlit("GiB");
        reveal_strlit("GIB");
        reveal_strlit("gib");
        reveal_strlit("KB");
        assert(u != "KB"@) by { assert("KB"@[0] != u[0]); }
        reveal_strlit("kb");
        assert(u != "kb"@) by { assert("kb"@[0] != u[0]); }
        reveal_strlit("MB");
        assert(u != "MB"@) by { assert("MB"@[0] != u[0]); }
        reveal_strlit("mb");
        assert(u != "mb"@) by { assert("mb"@[0] != u[0]); }
        assert(u == "GB"@);
    } else if u =~= seq!['g', 'b'] {
        reveal_strlit("gb");
        reveal_strlit("B");
        reveal_strlit("b");
        reveal_strlit("KiB");
        reveal_strlit("KIB");
        reveal_strlit("kib");
        reveal_strlit("MiB");
        reveal_strlit("MIB");
        reveal_strlit("mib");
        reveal_strlit("GiB");
        reveal_strlit("GIB");
        reveal_strlit("gib");
        reveal_strlit("KB");
        assert(u != "KB"@) by { assert("KB"@[0] != u[0]); }
        reveal_strlit("kb");
        assert(u != "kb"@) by { assert("kb"@[0] != u[0]); }
        reveal_strlit("MB");
        assert(u != "MB"@) by { assert("MB"@[0] != u[0]); }
        reveal_strlit("mb");
        assert(u != "mb"@) by { assert("mb"@[0] != u[0]); }
        reveal_strlit("GB");
        assert(u != "GB"@) by { assert("GB"@[0] != u[0]); }
        assert(u == "gb"@);
    }
}

/// The units' characters: letters, no whitespace, and the spellings that
/// the size suffix parser compares against.
proof fn lemma_unit_chars(u: Seq<char>)
    requires
        unit_bytes(u) is Some,
    ensures
        forall|k: int|
            0 <= k < u.len() ==> ('a' <= #[trigger] u[k] && u[k] <= 'z') || ('A' <= u[k] && u[k] <= 'Z'),
        u.len() > 0 ==> u[0] != 'x' && u[0] != 'X',
        u.len() > 0 ==> u.last() != ' ',
{
}

/// Folding the first `n` decimal digits gives the number they write, when
/// that number fits in 64 bits.
proof fn lemma_decimal_fold(d: Seq<char>, n: int)
    requires
        0 <= n <= d.len(),
        forall|k: int| 0 <= k < d.len() ==> '0' <= #[trigger] d[k] && d[k] <= '9',
        decimal_number(d, n) <= u64::MAX,
    ensures
        fold_digits(d, 10, n) == Ok::<u64, IntErrorKind>(decimal_number(d, n) as u64),
    decreases n,
{
    if n > 0 {
        assert('0' <= d[n - 1] && d[n - 1] <= '9');
        assert(decimal_number(d, n - 1) <= decimal_number(d, n)) by (nonlinear_arith)
            requires
                decimal_number(d, n) == decimal_number(d, n - 1) * 10 + (d[n - 1] as int - '0' as int) as nat,
        ;
        lemma_decimal_fold(d, n - 1);
        assert(digit_value(d[n - 1], 10) == Some((d[n - 1] as int - '0' as int) as nat));
    }
}

/// Where the leading whitespace of `t` ends.
proof fn lemma_leading_whitespace(t: Seq<char>) -> (i: int)
    ensures
        0 <= i <= t.len(),
        forall|k: int| 0 <= k < i ==> is_whitespace(t[k]),
        i == t.len() || !is_whitespace(t[i]),
        trim_start(t) == t.skip(i),
    decreases t.len(),
{
    if t.len() > 0 && is_whitespace(t[0]) {
        let rest = t.drop_first();
        let i = lemma_leading_whitespace(rest);
        assert forall|k: int| 0 <= k < i + 1 implies is_whitespace(t[k]) by {
            if k > 0 {
                assert(t[k] == rest[k - 1]);
            }
        }
        if i + 1 < t.len() {
            assert(t[i + 1] == rest[i]);
        }
        assert(rest.skip(i) =~= t.skip(i + 1));
        i + 1
    } else {
        assert(t.skip(0) =~= t);
        0
    }
}

/// Where the trailing whitespace of `t` starts.
proof fn lemma_trailing_whitespace(t: Seq<char>) -> (j: int)
    ensures
        0 <= j <= t.len(),
        forall|k: int| j <= k < t.len() ==> is_whitespace(t[k]),
        j == 0 || !is_whitespace(t[j - 1]),
        trim_end(t) == t.take(j),
    decreases t.len(),
{
    if t.len() > 0 && is_whitespace(t.last()) {
        let rest = t.drop_last();
        let j = lemma_trailing_whitespace(rest);
        assert forall|k: int| j <= k < t.len() implies is_whitespace(t[k]) by {
            if k < t.len() - 1 {
                assert(t[k] == rest[k]);
            }
        }
        if j > 0 {
            assert(t[j - 1] == rest[j - 1]);
        }
        assert(rest.take(j) =~= t.take(j));
        j
    } else {
        assert(t.take(t.len() as int) =~= t);
        t.len() as int
    }
}

/// A term that is not all whitespace: `trim` keeps the characters from its
/// first to its last non-whitespace one, and trimming again changes nothing.
proof fn lemma_trim_shape(t: Seq<char>) -> (ij: (int, int))
    requires
        spec_parse_term(t) is Ok,
    ensures
        0 <= ij.0 < ij.1 <= t.len(),
        forall|k: int| 0 <= k < ij.0 ==> is_whitespace(t[k]),
        forall|k: int| ij.1 <= k < t.len() ==> is_whitespace(t[k]),
        !is_whitespace(t[ij.0]),
        !is_whitespace(t[ij.1 - 1]),
        trim(t) == t.subrange(ij.0, ij.1),
        trim(trim(t)) == trim(t),
{
    let i = lemma_leading_whitespace(t);
    let u = t.skip(i);
    let jj = lemma_trailing_whitespace(u);
    assert(trim(t) == u.take(jj));
    assert(trim(t).len() > 0);
    assert(u[0] == t[i]);
    assert(u[jj - 1] == t[i + jj - 1]);
    assert forall|k: int| i + jj <= k < t.len() implies is_whitespace(t[k]) by {
        assert(t[k] == u[k - i]);
    }
    let x = t.subrange(i, i + jj);
    assert(u.take(jj) =~= x);
    assert(x[0] == t[i]);
    assert(x[x.len() - 1] == t[i + jj - 1]);
    lemma_trim_start(x, 0);
    assert(x.skip(0) =~= x);
    lemma_trim_end(x, x.len() as int);
    assert(x.take(x.len() as int) =~= x);
    (i, i + jj)
}

/// Characters other than operators only grow the current term.
proof fn lemma_tokenize_plain(s: Seq<char>, m: int, n: int)
    requires
        0 <= m <= n <= s.len(),
        forall|k: int| m <= k < n ==> s[k] != '+' && s[k] != '-',
    ensures
        tokenize_state(s, n) == (tokenize_state(s, m).0, tokenize_state(s, m).1 + s.subrange(m, n)),
    decreases n - m,
{
    if n > m {
        lemma_tokenize_plain(s, m, n - 1);
        assert(tokenize_state(s, m).1 + s.subrange(m, n) =~= (tokenize_state(s, m).1 + s.subrange(m, n - 1)).push(
            s[n - 1],
        ));
    } else {
        assert(tokenize_state(s, m).1 + s.subrange(m, n) =~= tokenize_state(s, m).1);
    }
}

proof fn lemma_trim_start(s: Seq<char>, i: int)
    requires
        0 <= i <= s.len(),
        forall|j: int| 0 <= j < i ==> is_whitespace(s[j]),
        i == s.len() || !is_whitespace(s[i]),
    ensures
        trim_start(s) == s.skip(i),
    decreases i,
{
    if i > 0 {
        let rest = s.drop_first();
        assert forall|j: int| 0 <= j < i - 1 implies is_whitespace(rest[j]) by {
            assert(rest[j] == s[j + 1]);
        }
        if i < s.len() {
            assert(rest[i - 1] == s[i]);
        }
        lemma_trim_start(rest, i - 1);
        assert(rest.skip(i - 1) =~= s.skip(i));
    } else {
        assert(s.skip(0) =~= s);
    }
}

proof fn lemma_trim_end(s: Seq<char>, j: int)
    requires
        0 <= j <= s.len(),
        forall|k: int| j <= k < s.len() ==> is_whitespace(s[k]),
        j == 0 || !is_whitespace(s[j - 1]),
    ensures
        trim_end(s) == s.take(j),
    decreases s.len() - j,
{
    if j < s.len() {
        let rest = s.drop_last();
        assert forall|k: int| j <= k < rest.len() implies is_whitespace(rest[k]) by {
            assert(rest[k] == s[k]);
        }
        if j > 0 {
            assert(rest[j - 1] == s[j - 1]);
        }
        lemma_trim_end(rest, j);
        assert(rest.take(j) =~= s.take(j));
    } else {
        assert(s.take(j) =~= s);
    }
}

/// `s` without leading and trailing whitespace.
fn trim_chars(s: &Vec<char>) -> (r: Vec<char>)
    ensures
        r@ == trim(s@),
{
    let n = s.len();
    let mut i: usize = 0;
    while i < n && is_whitespace_char(s[i])
        invariant
            n == s@.len(),
            i <= n,
            forall|j: int| 0 <= j < i ==> is_whitespace(s@[j]),
        decreases n - i,
    {
        i += 1;
    }
    proof {
        lemma_trim_start(s@, i as int);
    }
    let mut j: usize = n;
    while j > i && is_whitespace_char(s[j - 1])
        invariant
            n == s@.len(),
            i <= j <= n,
            forall|k: int| j <= k < n ==> is_whitespace(s@[k]),
        decreases j,
    {
        j -= 1;
    }
    let ghost t = s@.skip(i as int);
    proof {
        assert forall|k: int| (j - i) <= k < t.len() implies is_whitespace(t[k]) by {
            assert(t[k] == s@[k + i]);
        }
        if j > i {
            assert(t[j - i - 1] == s@[j - 1]);
        }
        lemma_trim_end(t, (j - i) as int);
    }
    let mut r: Vec<char> = Vec::new();
    let mut k: usize = i;
    while k < j
        invariant
            n == s@.len(),
            i <= k <= j <= n,
            r@ == s@.subrange(i as int, k as int),
        decreases j - k,
    {
        r.push(s[k]);
        k += 1;
        assert(r@ =~= s@.subrange(i as int, k as int));
    }
    assert(r@ =~= t.take(j - i));
    r
}

/// Build an error message from pieces.
fn message(a: &str, b: &Vec<char>) -> (r: String)
    ensures
        r@ == a@ + b@,
{
    let mut r = String::new();
    push_str(&mut r, a);
    push_chars(&mut r, b);
    assert(r@ =~= a@ + b@);
    r
}

/// `{:?}` of the characters `s`.
fn push_debug_chars(out: &mut String, s: &Vec<char>)
    ensures
        final(out)@ == old(out)@ + debug_str(s@),
{
    let st = string_of(s);
    push_debug_str(out, st.as_str());
}

fn digit_of(c: char, radix: u64) -> (r: Option<u64>)
    requires
        radix == 10 || radix == 16,
    ensures
        match digit_value(c, radix as nat) {
            Some(v) => r == Some(v as u64),
            None => r is None,
        },
{
    let v: u64 = if '0' <= c && c <= '9' {
        (c as u64) - 48
    } else if 'a' <= c && c <= 'z' {
        (c as u64) - 97 + 10
    } else if 'A' <= c && c <= 'Z' {
        (c as u64) - 65 + 10
    } else {
        radix
    };
    if v < radix {
        Some(v)
    } else {
        None
    }
}

/// Once the digits fail to parse, more digits do not change the error.
proof fn lemma_fold_digits_err(d: Seq<char>, radix: nat, m: int, n: int)
    requires
        0 <= m <= n,
        fold_digits(d, radix, m) is Err,
    ensures
        fold_digits(d, radix, n) == fold_digits(d, radix, m),
    decreases n - m,
{
    if n > m {
        lemma_fold_digits_err(d, radix, m, n - 1);
    }
}

/// `u64::from_str_radix(s[start..], radix)`.
fn parse_radix(s: &Vec<char>, start: usize, radix: u64) -> (r: Result<u64, IntErrorKind>)
    requires
        start <= s@.len(),
        radix == 10 || radix == 16,
    ensures
        r == from_str_radix(s@.skip(start as int), radix as nat),
{
    let ghost src = s@.skip(start as int);
    let n = s.len();
    if start == n {
        return Err(IntErrorKind::Empty);
    }
    assert(src[0] == s@[start as int]);
    if n - start == 1 && (s[start] == '+' || s[start] == '-') {
        return Err(IntErrorKind::InvalidDigit);
    }
    let first = if s[start] == '+' {
        start + 1
    } else {
        start
    };
    let ghost d = s@.skip(first as int);
    assert(d =~= (if src[0] == '+' { src.drop_first() } else { src }));
    let mut acc: u64 = 0;
    let mut i: usize = first;
    while i < n
        invariant
            n == s@.len(),
            first <= i <= n,
            radix == 10 || radix == 16,
            d == s@.skip(first as int),
            from_str_radix(s@.skip(start as int), radix as nat) == fold_digits(d, radix as nat, d.len() as int),
            fold_digits(d, radix as nat, (i - first) as int) == Ok::<u64, IntErrorKind>(acc),
        decreases n - i,
    {
        assert(d[(i - first) as int] == s@[i as int]);
        let ghost k = (i - first) as int;
        let x = match digit_of(s[i], radix) {
            Some(x) => x,
            None => {
                proof {
                    assert(fold_digits(d, radix as nat, k + 1) == Err::<u64, IntErrorKind>(IntErrorKind::InvalidDigit));
                    lemma_fold_digits_err(d, radix as nat, k + 1, d.len() as int);
                }
                return Err(IntErrorKind::InvalidDigit);
            },
        };
        if acc > (u64::MAX - x) / radix {
            proof {
                assert(acc * radix + x > u64::MAX) by (nonlinear_arith)
                    requires
                        acc > (u64::MAX - x) / (radix as int),
                        radix > 0,
                        x <= u64::MAX,
                ;
                assert(fold_digits(d, radix as nat, k + 1) == Err::<u64, IntErrorKind>(IntErrorKind::PosOverflow));
                lemma_fold_digits_err(d, radix as nat, k + 1, d.len() as int);
            }
            return Err(IntErrorKind::PosOverflow);
        }
        proof {
            assert(acc * radix + x <= u64::MAX) by (nonlinear_arith)
                requires
                    acc <= (u64::MAX - x) / (radix as int),
                    radix > 0,
                    x <= u64::MAX,
            ;
        }
        acc = acc * radix + x;
        i += 1;
    }
    Ok(acc)
}

proof fn lemma_without_underscores_step(s: Seq<char>, i: int)
    requires
        0 <= i < s.len(),
    ensures
        without_underscores(s.take(i + 1)) == if s[i] == '_' {
            without_underscores(s.take(i))
        } else {
            without_underscores(s.take(i)).push(s[i])
        },
{
    assert(s.take(i + 1).drop_last() =~= s.take(i));
    assert(s.take(i + 1).last() == s[i]);
}

fn parse_error(prefix: &str, s: &Vec<char>, e: IntErrorKind) -> (r: String)
    ensures
        r@ == prefix@ + debug_str(s@) + ": "@ + int_error_text(e),
{
    let mut r = String::new();
    push_str(&mut r, prefix);
    push_debug_chars(&mut r, s);
    push_str(&mut r, ": ");
    match e {
        IntErrorKind::Empty => push_str(&mut r, "cannot parse integer from empty string"),
        IntErrorKind::InvalidDigit => push_str(&mut r, "invalid digit found in string"),
        IntErrorKind::PosOverflow => push_str(&mut r, "number too large to fit in target type"),
    }
    r
}

/// A number: decimal digits, or hexadecimal digits after `0x`, underscores ignored.
fn parse_number_u64(s: &Vec<char>) -> (r: Result<u64, String>)
    ensures
        result_view(r) == spec_parse_number(s@),
{
    let mut cleaned: Vec<char> = Vec::new();
    let mut i: usize = 0;
    while i < s.len()
        invariant
            i <= s@.len(),
            cleaned@ == without_underscores(s@.take(i as int)),
        decreases s@.len() - i,
    {
        proof {
            lemma_without_underscores_step(s@, i as int);
        }
        if s[i] != '_' {
            cleaned.push(s[i]);
        }
        i += 1;
    }
    assert(s@.take(s@.len() as int) =~= s@);
    if cleaned.len() >= 2 && cleaned[0] == '0' && (cleaned[1] == 'x' || cleaned[1] == 'X') {
        match parse_radix(&cleaned, 2, 16) {
            Ok(v) => Ok(v),
            Err(e) => Err(parse_error("invalid hex integer ", s, e)),
        }
    } else {
        assert(cleaned@.skip(0) =~= cleaned@);
        match parse_radix(&cleaned, 0, 10) {
            Ok(v) => Ok(v),
            Err(e) => Err(parse_error("invalid integer ", s, e)),
        }
    }
}

fn chars_eq(a: &Vec<char>, b: &str) -> (r: bool)
    ensures
        r == (a@ == b@),
{
    let bc = chars_of(b);
    if a.len() != bc.len() {
        return false;
    }
    let mut i: usize = 0;
    while i < a.len()
        invariant
            a@.len() == bc@.len(),
            bc@ == b@,
            i <= a@.len(),
            forall|j: int| 0 <= j < i ==> a@[j] == bc@[j],
        decreases a@.len() - i,
    {
        if a[i] != bc[i] {
            return false;
        }
        i += 1;
    }
    assert(a@ =~= bc@);
    true
}

/// The multiplier of a size suffix.
fn parse_size_suffix(s0: &Vec<char>) -> (r: Result<u64, String>)
    ensures
        result_view(r) == spec_parse_size_suffix(s0@),
{
    let s = trim_chars(s0);
    if s.len() == 0 {
        return Ok(1);
    }
    if chars_eq(&s, "B") || chars_eq(&s, "b") {
        Ok(1)
    } else if chars_eq(&s, "KiB") || chars_eq(&s, "KIB") || chars_eq(&s, "kib") {
        Ok(1024)
    } else if chars_eq(&s, "MiB") || chars_eq(&s, "MIB") || chars_eq(&s, "mib") {
        Ok(1024 * 1024)
    } else if chars_eq(&s, "GiB") || chars_eq(&s, "GIB") || chars_eq(&s, "gib") {
        Ok(1024 * 1024 * 1024)
    } else if chars_eq(&s, "KB") || chars_eq(&s, "kb") {
        Ok(1000)
    } else if chars_eq(&s, "MB") || chars_eq(&s, "mb") {
        Ok(1000 * 1000)
    } else if chars_eq(&s, "GB") || chars_eq(&s, "gb") {
        Ok(1000 * 1000 * 1000)
    } else {
        let mut m = String::new();
        push_str(&mut m, "unknown size suffix: ");
        push_debug_chars(&mut m, &s);
        Err(m)
    }
}

proof fn lemma_digit_prefix_len(s: Seq<char>, i: int)
    requires
        0 <= i <= s.len(),
        forall|j: int| 0 <= j < i ==> (('0' <= s[j] && s[j] <= '9') || s[j] == '_'),
        i == s.len() || !(('0' <= s[i] && s[i] <= '9') || s[i] == '_'),
    ensures
        digit_prefix_len(s) == i,
    decreases i,
{
    if i > 0 {
        let rest = s.drop_first();
        assert forall|j: int| 0 <= j < i - 1 implies (('0' <= rest[j] && rest[j] <= '9') || rest[j] == '_') by {
            assert(rest[j] == s[j + 1]);
        }
        if i < s.len() {
            assert(rest[i - 1] == s[i]);
        }
        lemma_digit_prefix_len(rest, i - 1);
    }
}

fn sub_chars(s: &Vec<char>, from: usize, to: usize) -> (r: Vec<char>)
    requires
        from <= to <= s@.len(),
    ensures
        r@ == s@.subrange(from as int, to as int),
{
    let mut r: Vec<char> = Vec::new();
    let mut k: usize = from;
    while k < to
        invariant
            from <= k <= to <= s@.len(),
            r@ == s@.subrange(from as int, k as int),
        decreases to - k,
    {
        r.push(s[k]);
        k += 1;
        assert(r@ =~= s@.subrange(from as int, k as int));
    }
    r
}

/// One term: a hexadecimal number, or a decimal number with an optional size suffix.
fn parse_term_u64(term0: &Vec<char>) -> (r: Result<u64, String>)
    ensures
        result_view(r) == spec_parse_term(term0@),
{
    let term = trim_chars(term0);
    if term.len() == 0 {
        return Err(string_of_str("empty term"));
    }
    if term.len() >= 2 && term[0] == '0' && (term[1] == 'x' || term[1] == 'X') {
        return parse_number_u64(&term);
    }
    let mut split: usize = 0;
    while split < term.len() && (('0' <= term[split] && term[split] <= '9') || term[split] == '_')
        invariant
            split <= term@.len(),
            forall|j: int|
                0 <= j < split ==> (('0' <= term@[j] && term@[j] <= '9') || term@[j] == '_'),
        decreases term@.len() - split,
    {
        split += 1;
    }
    proof {
        lemma_digit_prefix_len(term@, split as int);
    }
    let num = sub_chars(&term, 0, split);
    let suffix = sub_chars(&term, split, term.len());
    assert(num@ =~= term@.take(split as int));
    assert(suffix@ =~= term@.skip(split as int));
    if num.len() == 0 {
        return Err(message("missing number in term: ", &term));
    }
    let n = match parse_number_u64(&num) {
        Ok(n) => n,
        Err(e) => return Err(e),
    };
    let m = match parse_size_suffix(&suffix) {
        Ok(m) => m,
        Err(e) => return Err(e),
    };
    match n.checked_mul(m) {
        Some(v) => Ok(v),
        None => Err(message("overflow in term: ", &term)),
    }
}

fn string_of_str(s: &str) -> (r: String)
    ensures
        r@ == s@,
{
    let mut r = String::new();
    push_str(&mut r, s);
    assert(r@ =~= s@);
    r
}

/// Split an expression into trimmed terms and the operators `+` and `-`.
fn tokenize_expr(s: &Vec<char>) -> (r: Result<Vec<Vec<char>>, String>)
    ensures
        match r {
            Ok(t) => tokens(s@).len() > 0 && views(t@) == tokens(s@),
            Err(e) => tokens(s@).len() == 0 && e@ == "empty expression"@,
        },
{
    let mut out: Vec<Vec<char>> = Vec::new();
    let mut cur: Vec<char> = Vec::new();
    let mut i: usize = 0;
    while i < s.len()
        invariant
            i <= s@.len(),
            (views(out@), cur@) == tokenize_state(s@, i as int),
        decreases s@.len() - i,
    {
        let c = s[i];
        if c == '+' || c == '-' {
            let t = trim_chars(&cur);
            if t.len() > 0 {
                out.push(t);
            }
            let mut op: Vec<char> = Vec::new();
            op.push(c);
            out.push(op);
            cur = Vec::new();
        } else {
            cur.push(c);
        }
        i += 1;
        proof {
            assert(views(out@) =~= tokenize_state(s@, i as int).0);
            assert(cur@ =~= tokenize_state(s@, i as int).1);
        }
    }
    let t = trim_chars(&cur);
    if t.len() > 0 {
        out.push(t);
    }
    assert(views(out@) =~= tokens(s@));
    if out.len() == 0 {
        return Err(string_of_str("empty expression"));
    }
    Ok(out)
}

/// Value of a size expression.
fn parse_expr_u64(s_in: &str) -> (r: Result<u64, String>)
    ensures
        result_view(r) == spec_parse_expr(s_in@),
{
    let raw = chars_of(s_in);
    let s = trim_chars(&raw);
    if s.len() == 0 {
        return Err(string_of_str("empty value"));
    }
    let tokens = match tokenize_expr(&s) {
        Ok(t) => t,
        Err(e) => return Err(e),
    };
    let ghost toks = views(tokens@);
    assert(tokens@[0]@ == toks[0]);
    let mut acc = match parse_term_u64(&tokens[0]) {
        Ok(v) => v,
        Err(e) => return Err(e),
    };
    let mut i: usize = 1;
    while i < tokens.len()
        invariant
            toks == views(tokens@),
            toks == crate::config::expr::tokens(s@),
            1 <= i,
            i <= tokens@.len() + 1,
            spec_parse_expr(s_in@) == eval_tokens(toks, s@, i as int, acc),
        decreases tokens@.len() + 1 - i,
    {
        assert(tokens@[i as int]@ == toks[i as int]);
        if i + 1 >= tokens.len() {
            let mut m = String::new();
            push_str(&mut m, "operator ");
            push_debug_chars(&mut m, &tokens[i]);
            push_str(&mut m, " missing rhs");
            return Err(m);
        }
        assert(tokens@[i + 1]@ == toks[i + 1]);
        let rhs = match parse_term_u64(&tokens[i + 1]) {
            Ok(v) => v,
            Err(e) => return Err(e),
        };
        let op = &tokens[i];
        if op.len() == 1 && op[0] == '+' {
            assert(toks[i as int] =~= seq!['+']);
            acc = match acc.checked_add(rhs) {
                Some(v) => v,
                None => return Err(message("overflow in expression: ", &s)),
            };
        } else if op.len() == 1 && op[0] == '-' {
            assert(toks[i as int] =~= seq!['-']);
            acc = match acc.checked_sub(rhs) {
                Some(v) => v,
                None => return Err(message("underflow in expression: ", &s)),
            };
        } else {
            assert(toks[i as int] != seq!['+']);
            assert(toks[i as int] != seq!['-']);
            return Err(message("unexpected operator: ", op));
        }
        i += 2;
    }
    Ok(acc)
}

} // verus!

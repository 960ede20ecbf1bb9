//! Text helpers: decimal and binary-unit formatting.

use vstd::prelude::*;

verus! {

/// The character of a decimal digit `d` (`0 <= d < 10`).
pub open spec fn digit_char(d: int) -> char {
    ((d + 48) as u8) as char
}

/// Decimal digits of `n`, most significant first, without leading zeros.
pub open spec fn decimal(n: nat) -> Seq<char>
    decreases n,
{
    if n < 10 {
        seq![digit_char(n as int)]
    } else {
        decimal(n / 10).push(digit_char((n % 10) as int))
    }
}

/// Appends one character to a string (`String::push`).
#[verifier::external_body]
pub(crate) fn push_char(s: &mut String, c: char)
    ensures
        final(s)@ == old(s)@.push(c),
{
    s.push(c);
}

fn digit(d: u128) -> (c: char)
    requires
        d < 10,
    ensures
        c == digit_char(d as int),
{
    let b: u8 = d as u8 + 48u8;
    b as char
}

/// Writes the decimal digits of `n` after `s`.
pub fn push_decimal(s: &mut String, n: u128)
    ensures
        final(s)@ == old(s)@ + decimal(n as nat),
    decreases n,
{
    if n < 10 {
        push_char(s, digit(n));
    } else {
        push_decimal(s, n / 10);
        push_char(s, digit(n % 10));
    }
}


/// `2` to the power `e`.
pub open spec fn two_pow(e: nat) -> nat
    decreases e,
{
    if e == 0 { 1 } else { 2 * two_pow((e - 1) as nat) }
}

/// `1024` to the power `k`.
pub open spec fn kib_pow(k: nat) -> nat
    decreases k,
{
    if k == 0 { 1 } else { 1024 * kib_pow((k - 1) as nat) }
}

/// Number of binary digits of `n` (0 for 0).
pub open spec fn bit_length(n: nat) -> nat
    decreases n,
{
    if n == 0 { 0 } else { 1 + bit_length(n / 2) }
}

/// `n / d` rounded to the nearest integer, ties to the even neighbour.
pub open spec fn div_round_half_even(n: nat, d: nat) -> nat
    recommends
        d > 0,
{
    let q = n / d;
    let r = n % d;
    if 2 * r > d || (2 * r == d && q % 2 == 1) { q + 1 } else { q }
}

/// The value of `n as f64`: `n` rounded to 53 significant bits, ties to even.
pub open spec fn nearest_double(n: nat) -> nat {
    if bit_length(n) <= 53 {
        n
    } else {
        let e = (bit_length(n) - 53) as nat;
        div_round_half_even(n, two_pow(e)) * two_pow(e)
    }
}

/// Index of the binary unit (`B`, `KiB`, ..., `PiB`) used for `bytes`:
/// the largest `k <= 5` with `1024^k <= bytes`.
pub open spec fn unit_index(bytes: nat) -> nat {
    if bytes >= kib_pow(5) {
        5
    } else if bytes >= kib_pow(4) {
        4
    } else if bytes >= kib_pow(3) {
        3
    } else if bytes >= kib_pow(2) {
        2
    } else if bytes >= kib_pow(1) {
        1
    } else {
        0
    }
}

/// Name of binary unit `k`.
pub open spec fn unit_name(k: nat) -> Seq<char> {
    if k == 0 {
        "B"@
    } else if k == 1 {
        "KiB"@
    } else if k == 2 {
        "MiB"@
    } else if k == 3 {
        "GiB"@
    } else if k == 4 {
        "TiB"@
    } else {
        "PiB"@
    }
}

/// `bytes` in its unit, in hundredths, rounded as `{:.2}` rounds the `f64` quotient.
pub open spec fn scaled_hundredths(bytes: nat) -> nat {
    div_round_half_even(nearest_double(bytes) * 100, kib_pow(unit_index(bytes)))
}

/// Text of `bytes` in a readable binary unit: whole bytes as `"<n> B"`, larger
/// sizes with two decimals, e.g. `"1.50 KiB"`.
pub open spec fn human_bytes_text(bytes: nat) -> Seq<char> {
    if unit_index(bytes) == 0 {
        decimal(bytes) + " "@ + unit_name(0)
    } else {
        let h = scaled_hundredths(bytes);
        decimal(h / 100) + seq!['.', digit_char((h % 100) as int / 10), digit_char(
            (h % 100) as int % 10,
        )] + " "@ + unit_name(unit_index(bytes))
    }
}

proof fn lemma_two_pow_pos(e: nat)
    ensures
        two_pow(e) >= 1,
    decreases e,
{
    if e > 0 {
        lemma_two_pow_pos((e - 1) as nat);
    }
}

proof fn lemma_bit_length_le(n: nat, k: nat)
    requires
        n < two_pow(k),
    ensures
        bit_length(n) <= k,
    decreases k,
{
    if n > 0 {
        assert(k > 0);
        lemma_bit_length_le(n / 2, (k - 1) as nat);
    }
}

proof fn lemma_two_pow_64()
    ensures
        two_pow(64) == 0x1_0000_0000_0000_0000,
{
    reveal_with_fuel(two_pow, 65);
}

fn bit_len(n: u64) -> (r: u32)
    ensures
        r == bit_length(n as nat),
        r <= 64,
{
    proof {
        lemma_two_pow_64();
        lemma_bit_length_le(n as nat, 64);
    }
    let mut m: u64 = n;
    let mut c: u32 = 0;
    while m > 0
        invariant
            bit_length(n as nat) == c + bit_length(m as nat),
            bit_length(n as nat) <= 64,
        decreases m,
    {
        m = m / 2;
        c = c + 1;
    }
    c
}

fn round_half_even(n: u128, d: u128) -> (q: u128)
    requires
        d > 0,
    ensures
        q == div_round_half_even(n as nat, d as nat),
{
    let q = n / d;
    let r = n % d;
    proof {
        assert(d > 1 ==> q <= n / 2) by (nonlinear_arith)
            requires
                q == n / d,
                d > 0,
        ;
    }
    if r > d - r || (r == d - r && q % 2 == 1) {
        q + 1
    } else {
        q
    }
}


proof fn lemma_kib_pow_values()
    ensures
        kib_pow(1) == 1024,
        kib_pow(2) == 1048576,
        kib_pow(3) == 1073741824,
        kib_pow(4) == 1099511627776,
        kib_pow(5) == 1125899906842624,
{
    reveal_with_fuel(kib_pow, 6);
}

/// `n as f64`, as an exact integer: `n` rounded to 53 significant bits.
fn nearest_double_exact(n: u64) -> (r: u128)
    ensures
        r == nearest_double(n as nat),
        r <= n + 2048,
{
    let bl = bit_len(n);
    if bl <= 53 {
        n as u128
    } else {
        let e: u32 = bl - 53;
        let mut p: u128 = 1;
        let mut i: u32 = 0;
        while i < e
            invariant
                i <= e,
                e <= 11,
                p == two_pow(i as nat),
                p <= 2048,
            decreases e - i,
        {
            proof {
                reveal_with_fuel(two_pow, 12);
                assert(two_pow(i as nat) <= two_pow(10)) by {
                    lemma_two_pow_monotone(i as nat, 10);
                }
            }
            p = p * 2;
            i = i + 1;
        }
        proof {
            lemma_two_pow_pos(e as nat);
        }
        let q = round_half_even(n as u128, p);
        proof {
            let nn = n as int;
            let pp = p as int;
            assert(q <= nn / pp + 1);
            assert((nn / pp) * pp <= nn) by (nonlinear_arith)
                requires
                    pp > 0,
                    nn >= 0,
            ;
            assert(q * pp <= nn + pp) by (nonlinear_arith)
                requires
                    q <= nn / pp + 1,
                    (nn / pp) * pp <= nn,
                    pp > 0,
            ;
        }
        q * p
    }
}

proof fn lemma_two_pow_monotone(a: nat, b: nat)
    requires
        a <= b,
    ensures
        two_pow(a) <= two_pow(b),
    decreases b,
{
    if a < b {
        lemma_two_pow_monotone(a, (b - 1) as nat);
        lemma_two_pow_pos((b - 1) as nat);
    }
}

fn unit_label(k: u32) -> (r: &'static str)
    requires
        k <= 5,
    ensures
        r@ == unit_name(k as nat),
{
    if k == 0 {
        "B"
    } else if k == 1 {
        "KiB"
    } else if k == 2 {
        "MiB"
    } else if k == 3 {
        "GiB"
    } else if k == 4 {
        "TiB"
    } else {
        "PiB"
    }
}

/// Formats a byte count in a readable binary unit (`B`, `KiB`, ..., `PiB`):
/// whole bytes below 1 KiB, otherwise the value in the largest unit that keeps
/// it at least 1, with two decimals (`1536` gives `"1.50 KiB"`).
pub fn human_bytes(bytes: u64) -> (s: String)
    ensures
        s@ == human_bytes_text(bytes as nat),
{
    proof {
        lemma_kib_pow_values();
    }
    let mut s = String::new();
    let (idx, divisor): (u32, u128) = if bytes >= 1125899906842624 {
        (5, 1125899906842624)
    } else if bytes >= 1099511627776 {
        (4, 1099511627776)
    } else if bytes >= 1073741824 {
        (3, 1073741824)
    } else if bytes >= 1048576 {
        (2, 1048576)
    } else if bytes >= 1024 {
        (1, 1024)
    } else {
        (0, 1)
    };
    assert(idx == unit_index(bytes as nat));
    assert(divisor == kib_pow(idx as nat));
    if idx == 0 {
        push_decimal(&mut s, bytes as u128);
        s.append(" ");
        s.append(unit_label(0));
        return s;
    }
    let value = nearest_double_exact(bytes);
    let h = round_half_even(value * 100, divisor);
    let frac = h % 100;
    push_decimal(&mut s, h / 100);
    push_char(&mut s, '.');
    push_char(&mut s, digit(frac / 10));
    push_char(&mut s, digit(frac % 10));
    s.append(" ");
    s.append(unit_label(idx));
    s
}


/// Decimal text of a signed integer, with a leading `-` when negative.
pub open spec fn signed_decimal(i: int) -> Seq<char> {
    if i < 0 {
        seq!['-'] + decimal((-i) as nat)
    } else {
        decimal(i as nat)
    }
}

/// Writes the decimal text of `i` after `s`.
pub fn push_signed_decimal(s: &mut String, i: i64)
    ensures
        final(s)@ == old(s)@ + signed_decimal(i as int),
{
    if i < 0 {
        push_char(s, '-');
        let m: u128 = (-(i as i128)) as u128;
        push_decimal(s, m);
    } else {
        push_decimal(s, i as u128);
    }
}

} // verus!

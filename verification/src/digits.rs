//! Positional notation: the mathematical model of what the numeric encoders
//! write.

use vstd::prelude::*;

verus! {

/// The character for one digit: `0`-`9`, then `a`-`f` or `A`-`F`.
pub open spec fn digit_char(d: nat, upper_case: bool) -> char
    recommends
        d < 16,
{
    if d < 10 {
        ((0x30 + d) as u8) as char
    } else if upper_case {
        ((0x41 + d - 10) as u8) as char
    } else {
        ((0x61 + d - 10) as u8) as char
    }
}

/// The value of a digit character, 0 for any other character.
pub open spec fn digit_value(c: char) -> nat {
    if '0' <= c <= '9' {
        (c as nat - 0x30) as nat
    } else if 'a' <= c <= 'f' {
        (c as nat - 0x61 + 10) as nat
    } else if 'A' <= c <= 'F' {
        (c as nat - 0x41 + 10) as nat
    } else {
        0
    }
}

/// The digits of `n` in the given base, most significant first, without
/// leading zeros; zero is the single digit `0`.
pub open spec fn digits(n: nat, base: nat, upper_case: bool) -> Seq<char>
    recommends
        2 <= base <= 16,
    decreases n,
    via digits_terminates
{
    if n < base || base < 2 {
        seq![digit_char(n, upper_case)]
    } else {
        digits(n / base, base, upper_case).push(digit_char(n % base, upper_case))
    }
}

#[via_fn]
proof fn digits_terminates(n: nat, base: nat, upper_case: bool) {
    if n >= base && base >= 2 {
        assert(n / base < n) by (nonlinear_arith)
            requires
                n >= base,
                base >= 2,
        ;
    }
}

/// The number that a string of digits denotes in the given base.
pub open spec fn number(s: Seq<char>, base: nat) -> nat
    decreases s.len(),
{
    if s.len() == 0 {
        0
    } else {
        number(s.drop_last(), base) * base + digit_value(s.last())
    }
}

/// `base` to the power `k`.
pub open spec fn power(base: nat, k: nat) -> nat
    decreases k,
{
    if k == 0 {
        1
    } else {
        base * power(base, (k - 1) as nat)
    }
}

/// Powers with the same base multiply by adding the exponents.
pub proof fn lemma_power_add(base: nat, m: nat, n: nat)
    ensures
        power(base, m + n) == power(base, m) * power(base, n),
    decreases m,
{
    if m == 0 {
        assert(power(base, 0) == 1);
        assert(power(base, n) == 1 * power(base, n));
    } else {
        lemma_power_add(base, (m - 1) as nat, n);
        assert(power(base, m + n) == base * power(base, (m - 1 + n) as nat));
        assert(base * (power(base, (m - 1) as nat) * power(base, n)) == (base * power(
            base,
            (m - 1) as nat,
        )) * power(base, n)) by (nonlinear_arith);
    }
}

/// The decimal rendering of an integer: an optional `-`, then the digits of
/// the magnitude. Never padded, never a `+`.
pub open spec fn decimal_text(n: int) -> Seq<char> {
    if n < 0 {
        seq!['-'] + digits((-n) as nat, 10, false)
    } else {
        digits(n as nat, 10, false)
    }
}

/// The integer that a decimal rendering denotes.
pub open spec fn decimal_value(s: Seq<char>) -> int {
    if s.len() > 0 && s[0] == '-' {
        -(number(s.subrange(1, s.len() as int), 10) as int)
    } else {
        number(s, 10) as int
    }
}

/// A digit character denotes the digit it was made from.
pub proof fn lemma_digit_value(d: nat, upper_case: bool)
    requires
        d < 16,
    ensures
        digit_value(digit_char(d, upper_case)) == d,
        digit_char(d, upper_case) != '-',
        digit_char(d, upper_case) == '0' <==> d == 0,
        (digit_char(d, upper_case) as u32) < 0x80,
{
}

/// Unfolding of `digits` for a number of more than one digit.
pub proof fn lemma_digits_step(n: nat, base: nat, upper_case: bool)
    requires
        2 <= base,
    ensures
        n < base ==> digits(n, base, upper_case) == seq![digit_char(n, upper_case)],
        n >= base ==> digits(n, base, upper_case) == digits(n / base, base, upper_case).push(
            digit_char(n % base, upper_case),
        ),
        digits(n, base, upper_case).len() >= 1,
    decreases n,
{
    if n >= base {
        assert(n / base < n) by (nonlinear_arith)
            requires
                n >= base,
                base >= 2,
        ;
        lemma_digits_step(n / base, base, upper_case);
    }
}

/// A number below `base^k` has at most `k` digits.
pub proof fn lemma_digits_len(n: nat, base: nat, upper_case: bool, k: nat)
    requires
        2 <= base,
        1 <= k,
        n < power(base, k),
    ensures
        1 <= digits(n, base, upper_case).len() <= k,
    decreases k,
{
    lemma_digits_step(n, base, upper_case);
    if n >= base {
        reveal_with_fuel(power, 2);
        assert(k >= 2);
        let p = power(base, (k - 1) as nat);
        assert(n / base < p) by (nonlinear_arith)
            requires
                n < base * p,
                base >= 2,
        ;
        lemma_digits_len(n / base, base, upper_case, (k - 1) as nat);
    }
}

/// A number that is at least `base^k` has more than `k` digits.
pub proof fn lemma_digits_len_lower(n: nat, base: nat, upper_case: bool, k: nat)
    requires
        2 <= base,
        n >= power(base, k),
    ensures
        digits(n, base, upper_case).len() > k,
    decreases k,
{
    lemma_digits_step(n, base, upper_case);
    if k > 0 {
        reveal_with_fuel(power, 2);
        let p = power(base, (k - 1) as nat);
        assert(p >= 1) by {
            lemma_power_positive(base, (k - 1) as nat);
        }
        assert(n >= base) by (nonlinear_arith)
            requires
                n >= base * p,
                p >= 1,
                base >= 2,
        ;
        assert(n / base >= p) by (nonlinear_arith)
            requires
                n >= base * p,
                base >= 2,
        ;
        lemma_digits_len_lower(n / base, base, upper_case, (k - 1) as nat);
    }
}

/// A power of a positive base is positive.
pub proof fn lemma_power_positive(base: nat, k: nat)
    requires
        1 <= base,
    ensures
        power(base, k) >= 1,
    decreases k,
{
    if k > 0 {
        lemma_power_positive(base, (k - 1) as nat);
        let p = power(base, (k - 1) as nat);
        assert(base * p >= 1) by (nonlinear_arith)
            requires
                base >= 1,
                p >= 1,
        ;
    }
}

/// How many decimal digits the magnitudes of each integer width have at
/// most.
pub proof fn lemma_decimal_widths(n: nat)
    ensures
        n <= 0xff ==> digits(n, 10, false).len() <= 3,
        n <= 0xffff ==> digits(n, 10, false).len() <= 5,
        n <= 0xffff_ffff ==> digits(n, 10, false).len() <= 10,
        n <= 0x8000_0000_0000_0000 ==> digits(n, 10, false).len() <= 19,
        n <= 0xffff_ffff_ffff_ffff ==> digits(n, 10, false).len() <= 20,
        n <= 0xffff_ffff_ffff_ffff_ffff_ffff_ffff_ffff ==> digits(n, 10, false).len() <= 39,
{
    reveal_with_fuel(power, 40);
    if n <= 0xff {
        lemma_digits_len(n, 10, false, 3);
    }
    if n <= 0xffff {
        lemma_digits_len(n, 10, false, 5);
    }
    if n <= 0xffff_ffff {
        lemma_digits_len(n, 10, false, 10);
    }
    if n <= 0x8000_0000_0000_0000 {
        lemma_digits_len(n, 10, false, 19);
    }
    if n <= 0xffff_ffff_ffff_ffff {
        lemma_digits_len(n, 10, false, 20);
    }
    if n <= 0xffff_ffff_ffff_ffff_ffff_ffff_ffff_ffff {
        lemma_digits_len(n, 10, false, 39);
    }
}

/// How many hexadecimal digits the numbers of each integer width have at
/// most: two for each byte.
pub proof fn lemma_hex_widths(n: nat, upper_case: bool)
    ensures
        n <= 0xff ==> digits(n, 16, upper_case).len() <= 2,
        n <= 0xffff ==> digits(n, 16, upper_case).len() <= 4,
        n <= 0xffff_ffff ==> digits(n, 16, upper_case).len() <= 8,
        n <= 0xffff_ffff_ffff_ffff ==> digits(n, 16, upper_case).len() <= 16,
        n <= 0xffff_ffff_ffff_ffff_ffff_ffff_ffff_ffff ==> digits(n, 16, upper_case).len() <= 32,
{
    reveal_with_fuel(power, 33);
    if n <= 0xff {
        lemma_digits_len(n, 16, upper_case, 2);
    }
    if n <= 0xffff {
        lemma_digits_len(n, 16, upper_case, 4);
    }
    if n <= 0xffff_ffff {
        lemma_digits_len(n, 16, upper_case, 8);
    }
    if n <= 0xffff_ffff_ffff_ffff {
        lemma_digits_len(n, 16, upper_case, 16);
    }
    if n <= 0xffff_ffff_ffff_ffff_ffff_ffff_ffff_ffff {
        lemma_digits_len(n, 16, upper_case, 32);
    }
}

/// How many binary digits the numbers of each integer width have at most:
/// eight for each byte.
pub proof fn lemma_bin_widths(n: nat)
    ensures
        n <= 0xff ==> digits(n, 2, false).len() <= 8,
        n <= 0xffff ==> digits(n, 2, false).len() <= 16,
        n <= 0xffff_ffff ==> digits(n, 2, false).len() <= 32,
        n <= 0xffff_ffff_ffff_ffff ==> digits(n, 2, false).len() <= 64,
        n <= 0xffff_ffff_ffff_ffff_ffff_ffff_ffff_ffff ==> digits(n, 2, false).len() <= 128,
{
    reveal_with_fuel(power, 33);
    lemma_power_add(2, 32, 32);
    lemma_power_add(2, 64, 64);
    assert(power(2, 32) == 0x1_0000_0000);
    assert(power(2, 64) == 0x1_0000_0000 * 0x1_0000_0000);
    assert(power(2, 128) == 0x1_0000_0000_0000_0000 * 0x1_0000_0000_0000_0000);
    if n <= 0xff {
        lemma_digits_len(n, 2, false, 8);
    }
    if n <= 0xffff {
        lemma_digits_len(n, 2, false, 16);
    }
    if n <= 0xffff_ffff {
        lemma_digits_len(n, 2, false, 32);
    }
    if n <= 0xffff_ffff_ffff_ffff {
        lemma_digits_len(n, 2, false, 64);
    }
    if n <= 0xffff_ffff_ffff_ffff_ffff_ffff_ffff_ffff {
        lemma_digits_len(n, 2, false, 128);
    }
}

/// Reading the digits of a number back gives the number.
pub proof fn lemma_number_of_digits(n: nat, base: nat, upper_case: bool)
    requires
        2 <= base <= 16,
    ensures
        number(digits(n, base, upper_case), base) == n,
    decreases n,
{
    lemma_digits_step(n, base, upper_case);
    if n < base {
        let s = seq![digit_char(n, upper_case)];
        assert(s.drop_last() =~= Seq::<char>::empty());
        assert(number(s.drop_last(), base) == 0);
        lemma_digit_value(n, upper_case);
        assert(number(s, base) == 0 * base + n);
    } else {
        let rest = digits(n / base, base, upper_case);
        let s = rest.push(digit_char(n % base, upper_case));
        assert(s.drop_last() =~= rest);
        assert(n / base < n) by (nonlinear_arith)
            requires
                n >= base,
                base >= 2,
        ;
        lemma_number_of_digits(n / base, base, upper_case);
        assert(n % base < base) by (nonlinear_arith)
            requires
                base >= 2,
        ;
        lemma_digit_value(n % base, upper_case);
        assert((n / base) * base + n % base == n) by (nonlinear_arith)
            requires
                base >= 2,
        ;
    }
}

/// Every character of a rendering is a digit of the base, and the first one
/// is `0` only when the number is zero.
pub proof fn lemma_digits_shape(n: nat, base: nat, upper_case: bool)
    requires
        2 <= base <= 16,
    ensures
        forall|i: int|
            0 <= i < digits(n, base, upper_case).len() ==> exists|d: nat|
                d < base && #[trigger] digits(n, base, upper_case)[i] == digit_char(d, upper_case),
        digits(n, base, upper_case)[0] == '0' <==> n == 0,
        n == 0 ==> digits(n, base, upper_case) == seq!['0'],
    decreases n,
{
    lemma_digits_step(n, base, upper_case);
    let s = digits(n, base, upper_case);
    if n < base {
        lemma_digit_value(n, upper_case);
        assert(s[0] == digit_char(n, upper_case));
    } else {
        assert(n / base < n && n / base > 0) by (nonlinear_arith)
            requires
                n >= base,
                base >= 2,
        ;
        lemma_digits_shape(n / base, base, upper_case);
        let rest = digits(n / base, base, upper_case);
        assert(n % base < base) by (nonlinear_arith)
            requires
                base >= 2,
        ;
        assert forall|i: int| 0 <= i < s.len() implies exists|d: nat|
            d < base && #[trigger] s[i] == digit_char(d, upper_case) by {
            if i < rest.len() {
                assert(s[i] == rest[i]);
            } else {
                assert(s[i] == digit_char(n % base, upper_case));
            }
        }
        assert(s[0] == rest[0]);
    }
}

/// Every character of a rendering is ASCII.
pub proof fn lemma_digits_ascii(n: nat, base: nat, upper_case: bool)
    requires
        2 <= base <= 16,
    ensures
        forall|i: int|
            0 <= i < digits(n, base, upper_case).len() ==> (#[trigger] digits(
                n,
                base,
                upper_case,
            )[i] as u32) < 0x80,
{
    lemma_digits_shape(n, base, upper_case);
    let s = digits(n, base, upper_case);
    assert forall|i: int| 0 <= i < s.len() implies (#[trigger] s[i] as u32) < 0x80 by {
        let d = choose|d: nat| d < base && s[i] == digit_char(d, upper_case);
        lemma_digit_value(d, upper_case);
    }
}

} // verus!

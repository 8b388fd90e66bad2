//! Numbers rendered into messages.

use vstd::prelude::*;
use vstd::string::*;

verus! {

/// `String::push` appends one character.
pub assume_specification[ String::push ](s: &mut String, c: char)
    ensures
        final(s)@ == old(s)@.push(c),
;

/// The character of a digit below sixteen, letters in upper case.
pub open spec fn digit(d: nat) -> char {
    if d < 10 { (48 + d) as char } else { (55 + d) as char }
}

/// `n` in decimal, without leading zeros.
pub open spec fn decimal(n: nat) -> Seq<char>
    decreases n,
{
    if n < 10 { seq![digit(n)] } else { decimal(n / 10).push(digit(n % 10)) }
}

/// `n` in hexadecimal, without leading zeros.
pub open spec fn hexadecimal(n: nat) -> Seq<char>
    decreases n,
{
    if n < 16 { seq![digit(n)] } else { hexadecimal(n / 16).push(digit(n % 16)) }
}

/// The lowest `width` hexadecimal digits of `n`, leading zeros included.
pub open spec fn hexadecimal_padded(n: nat, width: nat) -> Seq<char>
    decreases width,
{
    if width == 0 {
        Seq::empty()
    } else {
        hexadecimal_padded(n / 16, (width - 1) as nat).push(digit(n % 16))
    }
}

/// `n` in decimal with a minus sign where it is negative.
pub open spec fn integer(n: int) -> Seq<char> {
    if n < 0 { seq!['-'] + decimal((-n) as nat) } else { decimal(n as nat) }
}

/// The sign that a number always shows.
pub open spec fn sign(n: int) -> Seq<char> {
    if n < 0 { seq!['-'] } else { seq!['+'] }
}

pub open spec fn magnitude(n: int) -> nat {
    if n < 0 { (-n) as nat } else { n as nat }
}

/// The integer nearest to `num / 625`; the odd divisor leaves no ties.
pub open spec fn rounded_625ths(num: int) -> int {
    (2 * num + 625) / 1250
}

/// `n` doubled until it is as large as five times the significand of a double.
pub open spec fn scaled(n: nat) -> nat
    decreases 0xa0_0000_0000_0000 - n,
{
    if n == 0 || n >= 0x50_0000_0000_0000 { n } else { scaled(2 * n) }
}

/// Whether an exact tie between `t` and `t + 1` tenths shows as `t + 1`.
///
/// The value on display is the double nearest to `(2t + 1) / 20`. Where the fraction is a double
/// itself the even digit is shown. Elsewhere the double lies beside it: its significand is a fifth
/// of `scaled(2t + 1)`, rounded to the nearest integer, and that rounds up for a remainder of three
/// or four. (From 2^51 on a double is too coarse for tenths; there the rule is only a convention.)
pub open spec fn tie_goes_up(t: nat) -> bool {
    let odd = 2 * t + 1;
    if odd % 5 == 0 { t % 2 == 1 } else { scaled(odd) % 5 >= 3 }
}

/// The number of tenths that a display of `num / den` with one decimal shows.
pub open spec fn tenths(num: nat, den: nat) -> nat {
    let t = 10 * num / den;
    let rest = 10 * num % den;
    if 2 * rest < den {
        t
    } else if 2 * rest > den {
        t + 1
    } else if tie_goes_up(t) {
        t + 1
    } else {
        t
    }
}

/// `t` tenths with one decimal.
pub open spec fn one_decimal(t: nat) -> Seq<char> {
    decimal(t / 10).push('.').push(digit(t % 10))
}

fn digit_char(d: u64) -> (c: char)
    requires
        d < 16,
    ensures
        c == digit(d as nat),
{
    if d < 10 {
        (48 + d as u8) as char
    } else {
        (55 + d as u8) as char
    }
}

pub fn push_decimal(out: &mut String, n: u64)
    ensures
        final(out)@ == old(out)@ + decimal(n as nat),
    decreases n,
{
    if n >= 10 {
        push_decimal(out, n / 10);
    }
    out.push(digit_char(n % 10));
    assert(out@ =~= old(out)@ + decimal(n as nat));
}

pub fn push_hexadecimal(out: &mut String, n: u64)
    ensures
        final(out)@ == old(out)@ + hexadecimal(n as nat),
    decreases n,
{
    if n >= 16 {
        push_hexadecimal(out, n / 16);
    }
    out.push(digit_char(n % 16));
    assert(out@ =~= old(out)@ + hexadecimal(n as nat));
}

pub fn push_hexadecimal_padded(out: &mut String, n: u64, width: u32)
    ensures
        final(out)@ == old(out)@ + hexadecimal_padded(n as nat, width as nat),
    decreases width,
{
    if width > 0 {
        push_hexadecimal_padded(out, n / 16, width - 1);
        out.push(digit_char(n % 16));
    }
    assert(out@ =~= old(out)@ + hexadecimal_padded(n as nat, width as nat));
}

pub fn push_integer(out: &mut String, n: i128)
    requires
        -0x8000_0000_0000_0000 <= n <= 0x7fff_ffff_ffff_ffff,
    ensures
        final(out)@ == old(out)@ + integer(n as int),
{
    if n < 0 {
        out.push('-');
        push_decimal(out, (-n) as u64);
    } else {
        push_decimal(out, n as u64);
    }
    assert(out@ =~= old(out)@ + integer(n as int));
}

pub fn push_sign(out: &mut String, n: i128)
    ensures
        final(out)@ == old(out)@ + sign(n as int),
{
    if n < 0 {
        out.push('-');
    } else {
        out.push('+');
    }
    assert(out@ =~= old(out)@ + sign(n as int));
}

fn ties_up(t: u64) -> (r: bool)
    requires
        t < 0x4000_0000_0000_0000,
    ensures
        r == tie_goes_up(t as nat),
{
    let odd: u64 = 2 * t + 1;
    if odd % 5 == 0 {
        t % 2 == 1
    } else {
        let mut n: u64 = odd;
        while n < 0x50_0000_0000_0000
            invariant
                0 < n,
                scaled(n as nat) == scaled(odd as nat),
            decreases 0xa0_0000_0000_0000 - n,
        {
            n = 2 * n;
        }
        n % 5 >= 3
    }
}

/// Appends `num / den` with one decimal.
pub fn push_one_decimal(out: &mut String, num: u128, den: u64)
    requires
        0 < den,
        10 * num / (den as int) < 0x4000_0000_0000_0000,
    ensures
        final(out)@ == old(out)@ + one_decimal(tenths(num as nat, den as nat)),
{
    assert(10 * num < 0x4000_0000_0000_0000 * den) by (nonlinear_arith)
        requires
            0 < den,
            10 * num / (den as int) < 0x4000_0000_0000_0000,
    ;
    assert(0x4000_0000_0000_0000 * den < 0x1_0000_0000_0000_0000_0000_0000_0000_0000int) by (nonlinear_arith)
        requires
            den <= 0xffff_ffff_ffff_ffff,
    ;
    let scaled_num: u128 = 10 * num;
    let mut t: u64 = (scaled_num / den as u128) as u64;
    let rest: u128 = scaled_num % den as u128;
    if 2 * rest > den as u128 || (2 * rest == den as u128 && ties_up(t)) {
        t = t + 1;
    }
    push_decimal(out, t / 10);
    out.push('.');
    out.push(digit_char(t % 10));
    assert(out@ =~= old(out)@ + one_decimal(tenths(num as nat, den as nat)));
}

/// The integer nearest to `num / 625`.
pub fn round_625ths(num: i128) -> (r: i128)
    requires
        -0x1_0000_0000_0000_0000_0000 < num < 0x1_0000_0000_0000_0000_0000,
    ensures
        r == rounded_625ths(num as int),
{
    let top: i128 = 2 * num + 625;
    if top >= 0 {
        top / 1250
    } else {
        -((1249 - top) / 1250)
    }
}

/// The digit that a character stands for.
pub open spec fn digit_value(c: char) -> int {
    if '0' <= c <= '9' { c as int - '0' as int } else { c as int - 'A' as int + 10 }
}

/// What a run of decimal digits reads as.
pub open spec fn read_decimal(s: Seq<char>) -> int
    decreases s.len(),
{
    if s.len() == 0 { 0 } else { 10 * read_decimal(s.drop_last()) + digit_value(s.last()) }
}

/// What a run of hexadecimal digits reads as.
pub open spec fn read_hexadecimal(s: Seq<char>) -> int
    decreases s.len(),
{
    if s.len() == 0 { 0 } else { 16 * read_hexadecimal(s.drop_last()) + digit_value(s.last()) }
}

/// A number in decimal is made of the digits from nought to nine, begins with nought only where it is
/// nought, and reads back as itself.
pub proof fn decimals_read_back(n: nat)
    ensures
        read_decimal(decimal(n)) == n,
        decimal(n).len() > 0,
        forall|i: int| 0 <= i < decimal(n).len() ==> '0' <= #[trigger] decimal(n)[i] <= '9',
        decimal(n)[0] == '0' ==> n == 0,
    decreases n,
{
    if n < 10 {
        reveal_with_fuel(read_decimal, 2);
        assert(decimal(n).drop_last() =~= Seq::empty());
    } else {
        decimals_read_back(n / 10);
        assert(decimal(n).drop_last() =~= decimal(n / 10));
        assert(decimal(n)[0] == decimal(n / 10)[0]);
    }
}

/// A number in hexadecimal is made of the digits from nought to nine and the capitals from A to F,
/// begins with nought only where it is nought, and reads back as itself.
pub proof fn hexadecimals_read_back(n: nat)
    ensures
        read_hexadecimal(hexadecimal(n)) == n,
        hexadecimal(n).len() > 0,
        forall|i: int|
            0 <= i < hexadecimal(n).len() ==> '0' <= #[trigger] hexadecimal(n)[i] <= '9' || 'A' <= hexadecimal(n)[i] <= 'F',
        hexadecimal(n)[0] == '0' ==> n == 0,
    decreases n,
{
    if n < 16 {
        reveal_with_fuel(read_hexadecimal, 2);
        assert(hexadecimal(n).drop_last() =~= Seq::empty());
    } else {
        hexadecimals_read_back(n / 16);
        assert(hexadecimal(n).drop_last() =~= hexadecimal(n / 16));
        assert(hexadecimal(n)[0] == hexadecimal(n / 16)[0]);
    }
}

/// Padded digits are as many as asked for, and read as the lowest digits of the number.
pub proof fn padded_digits_read_back(n: nat, width: nat)
    ensures
        hexadecimal_padded(n, width).len() == width,
        forall|i: int|
            0 <= i < width ==> '0' <= #[trigger] hexadecimal_padded(n, width)[i] <= '9' || 'A'
                <= hexadecimal_padded(n, width)[i] <= 'F',
        read_hexadecimal(hexadecimal_padded(n, width)) == n as int % vstd::arithmetic::power::pow(16, width),
    decreases width,
{
    vstd::arithmetic::power::lemma_pow_positive(16, width);
    if width == 0 {
        vstd::arithmetic::power::lemma_pow0(16);
    } else {
        let w = (width - 1) as nat;
        padded_digits_read_back(n / 16, w);
        assert(hexadecimal_padded(n, width).drop_last() =~= hexadecimal_padded(n / 16, w));
        vstd::arithmetic::power::lemma_pow_positive(16, w);
        let p = vstd::arithmetic::power::pow(16, w);
        reveal(vstd::arithmetic::power::pow);
        assert(vstd::arithmetic::power::pow(16, width) == 16 * p);
        vstd::arithmetic::div_mod::lemma_breakdown(n as int, 16, p);
    }
}

/// A negative number shows a minus sign before its size, and any other shows no sign; where the sign
/// is always shown it is a plus for nought and above.
pub proof fn signs_tell_negative_numbers(n: int)
    ensures
        n < 0 ==> integer(n)[0] == '-' && read_decimal(integer(n).skip(1)) == -n,
        n >= 0 ==> '0' <= integer(n)[0] <= '9' && read_decimal(integer(n)) == n,
        sign(n).len() == 1,
        sign(n)[0] == if n < 0 { '-' } else { '+' },
        magnitude(n) == if n < 0 { -n } else { n },
{
    if n < 0 {
        decimals_read_back((-n) as nat);
        assert(integer(n).skip(1) =~= decimal((-n) as nat));
    } else {
        decimals_read_back(n as nat);
    }
}

/// The rounded number of frames lies within half a frame of the exact one.
pub proof fn rounding_goes_to_the_nearest(num: int)
    ensures
        -312 <= 625 * rounded_625ths(num) - num <= 312,
{
}

/// The shown tenths lie within half a tenth of the exact quotient.
pub proof fn tenths_are_the_nearest(num: nat, den: nat)
    requires
        den > 0,
    ensures
        2 * den * tenths(num, den) <= 20 * num + den,
        20 * num <= 2 * den * tenths(num, den) + den,
{
    let t = 10 * num / den;
    let rest = 10 * num % den;
    assert(10 * num == den * t + rest) by (nonlinear_arith)
        requires
            den > 0,
            t == 10 * num / den,
            rest == 10 * num % den,
    ;
    assert(rest < den) by (nonlinear_arith)
        requires
            den > 0,
            rest == 10 * num % den,
    ;
    assert(2 * den * (t + 1) == 2 * den * t + 2 * den) by (nonlinear_arith);
    assert(2 * (den * t) == 2 * den * t) by (nonlinear_arith);
}

/// A number of tenths shows as the whole part, a point, and the tenth.
pub proof fn one_decimal_stands_behind_the_point(t: nat)
    ensures
        ({
            let s = one_decimal(t);
            &&& s.len() >= 3
            &&& s[s.len() - 2] == '.'
            &&& 10 * read_decimal(s.take(s.len() - 2)) + digit_value(s.last()) == t
        }),
{
    decimals_read_back(t / 10);
    assert(one_decimal(t).take(one_decimal(t).len() - 2) =~= decimal(t / 10));
}

/// A tie that a double holds exactly shows the even tenth.
pub proof fn an_exact_tie_shows_the_even_tenth(num: nat, den: nat)
    requires
        den > 0,
        2 * (10 * num % den) == den,
        (2 * (10 * num / den) + 1) % 5 == 0,
    ensures
        tenths(num, den) % 2 == 0,
{
}

proof fn lemma_scaled(n: nat, k: nat)
    requires
        n > 0,
        0x50_0000_0000_0000 <= n * vstd::arithmetic::power2::pow2(k) < 0xa0_0000_0000_0000,
    ensures
        scaled(n) == n * vstd::arithmetic::power2::pow2(k),
    decreases k,
{
    vstd::arithmetic::power2::lemma2_to64();
    if k == 0 {
        assert(n * vstd::arithmetic::power2::pow2(0) == n) by (nonlinear_arith)
            requires
                vstd::arithmetic::power2::pow2(0) == 1,
        ;
    } else {
        let p = vstd::arithmetic::power2::pow2((k - 1) as nat);
        vstd::arithmetic::power2::lemma_pow2_unfold(k);
        vstd::arithmetic::power2::lemma_pow2_pos((k - 1) as nat);
        assert((2 * n) * p == n * vstd::arithmetic::power2::pow2(k)) by (nonlinear_arith)
            requires
                vstd::arithmetic::power2::pow2(k) == 2 * p,
        ;
        assert(2 * n <= (2 * n) * p) by (nonlinear_arith)
            requires
                p >= 1,
        ;
        lemma_scaled(2 * n, (k - 1) as nat);
    }
}

/// A tie that no double holds shows the tenth on whose side the nearest double lies. The tie is
/// `2 t + 1` twentieths; `n` is its numerator doubled up to the size of five significands, and `m` the
/// significand nearest to a fifth of it.
pub proof fn a_tie_goes_to_the_side_of_its_double(t: nat, k: nat, n: int, m: int)
    requires
        (2 * t + 1) % 5 != 0,
        n == (2 * t + 1) * vstd::arithmetic::power2::pow2(k),
        0x50_0000_0000_0000 <= n < 0xa0_0000_0000_0000,
        -2 <= 5 * m - n <= 2,
        n % 5 != 0,
    ensures
        tie_goes_up(t) <==> 5 * m > n,
{
    lemma_scaled((2 * t + 1) as nat, k);
}

} // verus!

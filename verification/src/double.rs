//! Decimal numbers with a fraction or an exponent, rounded to double precision
//! and cut off to whole numbers.
//!
//! A decimal text stands for an exact rational number. Reading it gives the
//! double nearest to that number, the one with the even significand where two
//! are equally near. Nothing here computes with doubles: the rounding is done
//! on whole numbers and on the digits of the fraction.

use crate::number::{
    all_digits, decimal_text, digit_of, digits_value, is_digit, lemma_number_text_reads_back,
    read_digit,
};
use vstd::arithmetic::div_mod::lemma_fundamental_div_mod_converse;
use vstd::arithmetic::power::{lemma_pow0, lemma_pow1, lemma_pow_adds, pow};
use vstd::prelude::*;

verus! {

/// Two to the power of `n`.
pub open spec fn two_to(n: nat) -> nat
    decreases n,
{
    if n == 0 {
        1
    } else {
        2 * two_to((n - 1) as nat)
    }
}

/// Ten to the power of `n`.
pub open spec fn ten_to(n: nat) -> nat
    decreases n,
{
    if n == 0 {
        1
    } else {
        10 * ten_to((n - 1) as nat)
    }
}

/// How many decimal digits `s` starts with.
pub open spec fn digit_run(s: Seq<char>) -> nat
    decreases s.len(),
{
    if s.len() > 0 && is_digit(s[0], 10) {
        1 + digit_run(s.skip(1))
    } else {
        0
    }
}

/// `s` starts with a plus or a minus sign.
pub open spec fn has_sign(s: Seq<char>) -> bool {
    s.len() > 0 && (s[0] == '+' || s[0] == '-')
}

/// `s` without the sign it may start with.
pub open spec fn unsigned(s: Seq<char>) -> Seq<char> {
    if has_sign(s) {
        s.skip(1)
    } else {
        s
    }
}

/// The exponent at the end of a decimal number: nothing, which stands for
/// zero, or `e` in either case, an optional sign and digits.
pub open spec fn exponent_of(s: Seq<char>) -> Option<int> {
    if s.len() == 0 {
        Some(0)
    } else {
        let digits = unsigned(s.skip(1));
        if (s[0] == 'e' || s[0] == 'E') && digits.len() > 0 && all_digits(digits, 10) {
            if s.len() > 1 && s[1] == '-' {
                Some(-digits_value(digits, 10))
            } else {
                Some(digits_value(digits, 10) as int)
            }
        } else {
            None
        }
    }
}

/// A decimal number: `digits` read as a whole number, times ten to the power
/// of `scale`.
pub struct Decimal {
    pub negative: bool,
    pub digits: Seq<char>,
    pub scale: int,
}

/// The digits behind the point, if `s` starts with one.
pub open spec fn fraction_of(s: Seq<char>) -> Seq<char> {
    if s.len() > 0 && s[0] == '.' {
        s.skip(1).take(digit_run(s.skip(1)) as int)
    } else {
        Seq::empty()
    }
}

/// What follows the fraction, if `s` starts with one.
pub open spec fn after_fraction(s: Seq<char>) -> Seq<char> {
    if s.len() > 0 && s[0] == '.' {
        s.skip(1).skip(digit_run(s.skip(1)) as int)
    } else {
        s
    }
}

/// The decimal number that `s` stands for: an optional sign, digits with an
/// optional point before, among or after them, and an optional exponent.
pub open spec fn decimal_of(s: Seq<char>) -> Option<Decimal> {
    let body = unsigned(s);
    let whole = body.take(digit_run(body) as int);
    let after = body.skip(digit_run(body) as int);
    let fraction = fraction_of(after);
    let exponent = exponent_of(after_fraction(after));
    if whole.len() + fraction.len() > 0 && exponent is Some {
        Some(
            Decimal {
                negative: s.len() > 0 && s[0] == '-',
                digits: whole + fraction,
                scale: exponent->0 - fraction.len(),
            },
        )
    } else {
        None
    }
}

impl Decimal {
    /// The numerator of the number's absolute value.
    pub open spec fn numerator(self) -> nat {
        if self.scale >= 0 {
            digits_value(self.digits, 10) * ten_to(self.scale as nat)
        } else {
            digits_value(self.digits, 10)
        }
    }

    /// The denominator of the number's absolute value.
    pub open spec fn denominator(self) -> nat {
        if self.scale >= 0 {
            1
        } else {
            ten_to((-self.scale) as nat)
        }
    }
}

/// `num / den`, rounded to the nearest whole number, ties to the even one.
pub open spec fn round_half_even(num: nat, den: nat) -> nat {
    let quotient = num / den;
    let remainder = num % den;
    if 2 * remainder < den || (2 * remainder == den && quotient % 2 == 0) {
        quotient
    } else {
        quotient + 1
    }
}

/// The binary exponent of a whole number: the greatest `e` with
/// `two_to(e) <= n`, for `n` other than zero.
pub open spec fn floor_log2(n: nat) -> nat
    decreases n,
{
    if n < 2 {
        0
    } else {
        1 + floor_log2(n / 2)
    }
}

/// The whole part of the double nearest to `num / den`.
///
/// A double from `two_to(e)` up to `two_to(e + 1)` is a multiple of
/// `two_to(e - 52)`. Below one only a number within `two_to(-54)` of one
/// rounds up to it.
pub open spec fn whole_part_of_double(num: nat, den: nat) -> nat {
    if num < den {
        if num * two_to(54) >= den * (two_to(54) - 1) {
            1
        } else {
            0
        }
    } else {
        let e = floor_log2(num / den);
        if e >= 52 {
            let spacing = two_to((e - 52) as nat);
            round_half_even(num, den * spacing) * spacing
        } else {
            let parts = two_to((52 - e) as nat);
            round_half_even(num * parts, den) / parts
        }
    }
}

/// The double nearest to `num / den` is zero: the number is at most half of
/// the least double above zero.
pub open spec fn rounds_to_zero(num: nat, den: nat) -> bool {
    num * two_to(1075) <= den
}

/// A decimal number, rounded to a double and converted to an unsigned 64-bit
/// number: `None` if it is negative or lies above the range. The double just
/// above the range counts as its upper end.
pub open spec fn decimal_as_u64(d: Decimal) -> Option<u64> {
    let whole = whole_part_of_double(d.numerator(), d.denominator());
    if d.negative {
        if rounds_to_zero(d.numerator(), d.denominator()) {
            Some(0)
        } else {
            None
        }
    } else if whole > two_to(64) {
        None
    } else if whole == two_to(64) {
        Some(u64::MAX)
    } else {
        Some(whole as u64)
    }
}

/// A decimal text, read as a double and converted to an unsigned 64-bit
/// number, or `None` for what is no decimal number.
pub open spec fn double_text_as_u64(s: Seq<char>) -> Option<u64> {
    match decimal_of(s) {
        None => None,
        Some(d) => decimal_as_u64(d),
    }
}

proof fn lemma_two_to_adds(a: nat, b: nat)
    ensures
        two_to(a + b) == two_to(a) * two_to(b),
        two_to(a) >= 1,
    decreases a,
{
    if a > 0 {
        lemma_two_to_adds((a - 1) as nat, b);
        let (p, q) = (two_to((a - 1) as nat), two_to(b));
        assert(2 * (p * q) == (2 * p) * q) by (nonlinear_arith);
        assert((a - 1) as nat + b == (a + b - 1) as nat);
    } else {
        assert(two_to(a) * two_to(b) == two_to(b)) by (nonlinear_arith)
            requires
                two_to(a) == 1,
        ;
    }
}

proof fn lemma_ten_to_adds(a: nat, b: nat)
    ensures
        ten_to(a + b) == ten_to(a) * ten_to(b),
        ten_to(a) >= 1,
    decreases a,
{
    if a > 0 {
        lemma_ten_to_adds((a - 1) as nat, b);
        let (p, q) = (ten_to((a - 1) as nat), ten_to(b));
        assert(10 * (p * q) == (10 * p) * q) by (nonlinear_arith);
        assert((a - 1) as nat + b == (a + b - 1) as nat);
    } else {
        assert(ten_to(a) * ten_to(b) == ten_to(b)) by (nonlinear_arith)
            requires
                ten_to(a) == 1,
        ;
    }
}

/// The powers of two that bound whole numbers as doubles and 64-bit numbers.
pub proof fn lemma_two_to_bounds()
    ensures
        two_to(53) == 0x20_0000_0000_0000,
        two_to(64) == 0x1_0000_0000_0000_0000,
{
    lemma_two_to_64();
}

proof fn lemma_two_to_64()
    ensures
        two_to(11) == 0x800,
        two_to(52) == 0x10_0000_0000_0000,
        two_to(53) == 0x20_0000_0000_0000,
        two_to(64) == 0x1_0000_0000_0000_0000,
        two_to(67) == 0x8_0000_0000_0000_0000,
{
    reveal_with_fuel(two_to, 17);
    lemma_two_to_adds(16, 16);
    lemma_two_to_adds(32, 16);
    lemma_two_to_adds(48, 16);
    lemma_two_to_adds(48, 4);
    lemma_two_to_adds(48, 5);
    lemma_two_to_adds(64, 3);
}

/// Two to the power of 1075 is at most ten to the power of 360.
proof fn lemma_tiny_bound()
    ensures
        two_to(1075) <= ten_to(360),
{
    lemma_eight_below_ten(360);
    lemma_two_to_adds(1075, 5);
    assert(two_to(5) == 32) by {
        reveal_with_fuel(two_to, 6);
    }
    let p = two_to(1075);
    assert(p <= p * 32);
}

proof fn lemma_eight_below_ten(n: nat)
    ensures
        two_to(3 * n) <= ten_to(n),
    decreases n,
{
    if n > 0 {
        lemma_eight_below_ten((n - 1) as nat);
        reveal_with_fuel(two_to, 4);
        assert(3 * n == 3 * ((n - 1) as nat) + 3);
        assert(two_to(3 * n) == 8 * two_to((3 * n - 3) as nat));
    }
}

/// The digits of a number cut in two.
proof fn lemma_digits_split(s: Seq<char>, cut: int)
    requires
        0 <= cut <= s.len(),
    ensures
        digits_value(s, 10) == digits_value(s.take(cut), 10) * ten_to((s.len() - cut) as nat)
            + digits_value(s.skip(cut), 10),
    decreases s.len(),
{
    if cut == s.len() {
        assert(s.take(cut) =~= s);
        assert(s.skip(cut).len() == 0);
        let hi = digits_value(s, 10);
        assert(hi * ten_to(0) == hi) by (nonlinear_arith)
            requires
                ten_to(0) == 1,
        ;
    } else {
        lemma_digits_split(s.drop_last(), cut);
        assert(s.drop_last().take(cut) =~= s.take(cut));
        assert(s.drop_last().skip(cut) =~= s.skip(cut).drop_last());
        assert(s.skip(cut).last() == s.last());
        let hi = digits_value(s.take(cut), 10);
        let p = ten_to((s.len() - cut - 1) as nat);
        assert(hi * (10 * p) == 10 * (hi * p)) by (nonlinear_arith);
    }
}

/// A number of `n` digits is below ten to the power of `n`.
proof fn lemma_digits_bound(s: Seq<char>)
    requires
        all_digits(s, 10),
    ensures
        digits_value(s, 10) < ten_to(s.len()),
    decreases s.len(),
{
    if s.len() > 0 {
        assert(all_digits(s.drop_last(), 10)) by {
            assert forall|i: int| 0 <= i < s.drop_last().len() implies is_digit(
                #[trigger] s.drop_last()[i],
                10,
            ) by {
                assert(is_digit(s[i], 10));
            }
        }
        lemma_digits_bound(s.drop_last());
        assert(is_digit(s[s.len() - 1], 10));
    }
}

/// The digits of a fraction, each below ten.
spec fn fraction_digits(digits: Seq<u8>) -> bool {
    forall|i: int| 0 <= i < digits.len() ==> (#[trigger] digits[i]) < 10
}

/// The numerator of a fraction whose denominator is ten to the power of the
/// number of digits.
spec fn fraction_value(digits: Seq<u8>) -> nat
    decreases digits.len(),
{
    if digits.len() == 0 {
        0
    } else {
        digits[0] as nat * ten_to((digits.len() - 1) as nat) + fraction_value(digits.skip(1))
    }
}

proof fn lemma_fraction_bound(digits: Seq<u8>)
    requires
        fraction_digits(digits),
    ensures
        fraction_value(digits) < ten_to(digits.len()),
    decreases digits.len(),
{
    if digits.len() > 0 {
        assert(fraction_digits(digits.skip(1))) by {
            assert forall|i: int| 0 <= i < digits.skip(1).len() implies (
            #[trigger] digits.skip(1)[i]) < 10 by {
                assert(digits[i + 1] < 10);
            }
        }
        lemma_fraction_bound(digits.skip(1));
        let t = ten_to((digits.len() - 1) as nat);
        assert(digits[0] < 10);
        assert(digits[0] as nat * t <= 9 * t) by (nonlinear_arith)
            requires
                digits[0] < 10,
        ;
    }
}

/// A fraction is worth what its digits are worth as characters.
proof fn lemma_fraction_of_chars(digits: Seq<u8>, chars: Seq<char>)
    requires
        digits.len() == chars.len(),
        forall|i: int| 0 <= i < chars.len() ==> digit_of(#[trigger] chars[i]) == Some(
            digits[i] as nat,
        ),
    ensures
        fraction_value(digits) == digits_value(chars, 10),
    decreases digits.len(),
{
    if digits.len() > 0 {
        lemma_digits_split(chars, 1);
        lemma_fraction_of_chars(digits.skip(1), chars.skip(1));
        assert(chars.take(1).drop_last() =~= Seq::<char>::empty());
        assert(chars.take(1).last() == chars[0]);
        assert(digits_value(Seq::<char>::empty(), 10) == 0);
        assert(digits_value(chars.take(1), 10) == digits[0]);
    }
}

proof fn lemma_fraction_zero(digits: Seq<u8>)
    requires
        fraction_digits(digits),
    ensures
        fraction_value(digits) == 0 <==> forall|i: int|
            0 <= i < digits.len() ==> (#[trigger] digits[i]) == 0,
    decreases digits.len(),
{
    if digits.len() > 0 {
        let rest = digits.skip(1);
        assert(fraction_digits(rest)) by {
            assert forall|i: int| 0 <= i < rest.len() implies (#[trigger] rest[i]) < 10 by {
                assert(digits[i + 1] < 10);
            }
        }
        lemma_fraction_zero(rest);
        lemma_ten_to_adds((digits.len() - 1) as nat, 0);
        let t = ten_to((digits.len() - 1) as nat);
        if digits[0] > 0 {
            assert(digits[0] as nat * t >= 1) by (nonlinear_arith)
                requires
                    digits[0] > 0,
                    t >= 1,
            ;
        } else {
            assert(digits[0] as nat * t == 0) by (nonlinear_arith)
                requires
                    digits[0] == 0,
            ;
            if fraction_value(digits) == 0 {
                assert forall|i: int| 0 <= i < digits.len() implies (#[trigger] digits[i]) == 0 by {
                    if i > 0 {
                        assert(rest[i - 1] == 0);
                    }
                }
            } else {
                let i = choose|i: int| 0 <= i < rest.len() && (#[trigger] rest[i]) != 0;
                assert(digits[i + 1] != 0);
            }
        }
    }
}

fn is_zero_fraction(digits: &Vec<u8>) -> (zero: bool)
    requires
        fraction_digits(digits@),
    ensures
        zero == (fraction_value(digits@) == 0),
{
    proof {
        lemma_fraction_zero(digits@);
    }
    let mut i: usize = 0;
    while i < digits.len()
        invariant
            i <= digits@.len(),
            forall|j: int| 0 <= j < i ==> (#[trigger] digits@[j]) == 0,
            fraction_value(digits@) == 0 <==> forall|j: int|
                0 <= j < digits@.len() ==> (#[trigger] digits@[j]) == 0,
        decreases digits@.len() - i,
    {
        if digits[i] != 0 {
            return false;
        }
        i = i + 1;
    }
    true
}

/// Doubles a fraction and cuts off its whole part, which it returns.
fn double_fraction(digits: &mut Vec<u8>) -> (carry: bool)
    requires
        fraction_digits(old(digits)@),
    ensures
        fraction_digits(final(digits)@),
        final(digits)@.len() == old(digits)@.len(),
        2 * fraction_value(old(digits)@) == fraction_value(final(digits)@) + (if carry {
            ten_to(old(digits)@.len())
        } else {
            0
        }),
{
    let ghost before = digits@;
    let mut carry: bool = false;
    let mut i: usize = digits.len();
    while i > 0
        invariant
            i <= before.len(),
            digits@.len() == before.len(),
            fraction_digits(before),
            fraction_digits(digits@),
            forall|j: int| 0 <= j < i ==> digits@[j] == before[j],
            2 * fraction_value(before.skip(i as int)) == fraction_value(digits@.skip(i as int)) + (
            if carry {
                ten_to((before.len() - i) as nat)
            } else {
                0
            }),
        decreases i,
    {
        let ghost high = digits@.skip(i as int);
        let ghost t = ten_to((before.len() - i) as nat);
        i = i - 1;
        let doubled: u8 = 2 * digits[i] + if carry {
            1
        } else {
            0
        };
        let ghost carried: nat = if carry {
            1
        } else {
            0
        };
        let digit: u8 = if doubled >= 10 {
            doubled - 10
        } else {
            doubled
        };
        carry = doubled >= 10;
        digits.set(i, digit);
        proof {
            assert(before.skip(i as int).skip(1) =~= before.skip(i + 1));
            assert(digits@.skip(i as int).skip(1) =~= high);
            assert(before.skip(i as int)[0] == before[i as int]);
            let d = before[i as int] as nat;
            let n = digit as nat;
            let c: nat = if carry {
                1
            } else {
                0
            };
            assert(2 * (d * t) + carried * t == n * t + c * (10 * t)) by (nonlinear_arith)
                requires
                    2 * d + carried == n + 10 * c,
            ;
            assert(carried * t == if carried == 1 {
                t
            } else {
                0
            }) by (nonlinear_arith)
                requires
                    carried == 0 || carried == 1,
            ;
            assert(c * (10 * t) == if c == 1 {
                10 * t
            } else {
                0
            }) by (nonlinear_arith)
                requires
                    c == 0 || c == 1,
            ;
        }
    }
    proof {
        assert(before.skip(0) =~= before);
        assert(digits@.skip(0) =~= digits@);
    }
    carry
}

/// Tells whether a fraction is within `two_to(-bits)` of one: whether its
/// first `bits` binary digits are all ones.
#[verifier::loop_isolation(false)]
fn starts_with_ones(digits: Vec<u8>, bits: u32) -> (ones: bool)
    requires
        fraction_digits(digits@),
    ensures
        ones == (fraction_value(digits@) * two_to(bits as nat) >= (two_to(bits as nat) - 1)
            * ten_to(digits@.len())),
{
    let ghost den = ten_to(digits@.len());
    let ghost start = fraction_value(digits@);
    let mut digits = digits;
    let mut left: u32 = bits;
    while left > 0
        invariant
            left <= bits,
            fraction_digits(digits@),
            den == ten_to(digits@.len()),
            (start * two_to(bits as nat) >= (two_to(bits as nat) - 1) * den) <==> (fraction_value(
                digits@,
            ) * two_to(left as nat) >= (two_to(left as nat) - 1) * den),
        decreases left,
    {
        let ghost r = fraction_value(digits@);
        let ghost half = two_to((left - 1) as nat);
        proof {
            lemma_two_to_adds((left - 1) as nat, 0);
            lemma_ten_to_adds(digits@.len(), 0);
        }
        let carry = double_fraction(&mut digits);
        let ghost next = fraction_value(digits@);
        if !carry {
            proof {
                lemma_fraction_bound(digits@);
                assert(r * (2 * half) < (2 * half - 1) * den) by (nonlinear_arith)
                    requires
                        2 * r < den,
                        half >= 1,
                ;
            }
            return false;
        }
        proof {
            assert((r * (2 * half) >= (2 * half - 1) * den) == (next * half >= (half - 1) * den))
                by (nonlinear_arith)
                requires
                    2 * r == next + den,
            ;
        }
        left = left - 1;
    }
    proof {
        assert(fraction_value(digits@) * two_to(0) >= (two_to(0) - 1) * den) by (nonlinear_arith)
            requires
                two_to(0) == 1,
        ;
    }
    true
}

proof fn lemma_floor_log2(n: nat)
    requires
        n >= 1,
    ensures
        two_to(floor_log2(n)) <= n < two_to(floor_log2(n) + 1),
    decreases n,
{
    reveal_with_fuel(two_to, 2);
    if n >= 2 {
        lemma_floor_log2(n / 2);
    }
}

/// The binary exponent of a number is below a bound on its bits.
proof fn lemma_log2_below(n: nat, bits: nat)
    requires
        1 <= n < two_to(bits),
    ensures
        floor_log2(n) < bits,
{
    lemma_floor_log2(n);
    let e = floor_log2(n);
    if e >= bits {
        lemma_two_to_adds(bits, (e - bits) as nat);
        lemma_two_to_adds((e - bits) as nat, 0);
        assert(two_to(bits) <= two_to(bits) * two_to((e - bits) as nat)) by (nonlinear_arith)
            requires
                two_to((e - bits) as nat) >= 1,
        ;
    }
}

fn binary_exponent(n: u128) -> (e: u32)
    requires
        1 <= n < 0x8_0000_0000_0000_0000,
    ensures
        e == floor_log2(n as nat),
        e < 67,
    decreases n,
{
    proof {
        lemma_two_to_64();
        lemma_log2_below(n as nat, 67);
    }
    if n < 2 {
        0
    } else {
        1 + binary_exponent(n / 2)
    }
}

fn power_of_two(n: u32) -> (power: u128)
    requires
        n <= 64,
    ensures
        power == two_to(n as nat),
    decreases n,
{
    proof {
        lemma_two_to_64();
        lemma_two_to_adds(n as nat, (64 - n) as nat);
        lemma_two_to_adds((64 - n) as nat, 0);
        assert(two_to(n as nat) <= two_to(n as nat) * two_to((64 - n) as nat)) by (nonlinear_arith)
            requires
                two_to((64 - n) as nat) >= 1,
        ;
    }
    if n == 0 {
        1
    } else {
        2 * power_of_two(n - 1)
    }
}

/// A number with its quotient and remainder for one denominator, divided by
/// a multiple of it.
proof fn lemma_divide_in_steps(q: nat, r: nat, den: nat, spacing: nat)
    requires
        r < den,
        spacing >= 1,
    ensures
        (q * den + r) / den == q,
        (q * den + r) % den == r,
        (q * den + r) / (den * spacing) == q / spacing,
        (q * den + r) % (den * spacing) == (q % spacing) * den + r,
{
    let num = (q * den + r) as int;
    lemma_fundamental_div_mod_converse(num, den as int, q as int, r as int);
    let (a, b) = (q / spacing, q % spacing);
    vstd::arithmetic::div_mod::lemma_fundamental_div_mod(q as int, spacing as int);
    assert(b < spacing);
    assert(num == a * (den * spacing) + (b * den + r) && 0 <= b * den + r < den * spacing)
        by (nonlinear_arith)
        requires
            num == q * den + r,
            q == spacing * a + b,
            0 <= b < spacing,
            0 <= r < den,
            a >= 0,
    ;
    lemma_fundamental_div_mod_converse(
        num,
        (den * spacing) as int,
        a as int,
        (b * den + r) as int,
    );
}

/// Rounding to parts of a whole reaches the next whole number exactly where
/// the fraction is within half a part of it.
proof fn lemma_round_parts(q: nat, r: nat, den: nat, bits: nat)
    requires
        r < den,
        bits >= 1,
    ensures
        round_half_even((q * den + r) * two_to(bits), den) / two_to(bits) == q + (if r * two_to(
            bits + 1,
        ) >= (two_to(bits + 1) - 1) * den {
            1nat
        } else {
            0nat
        }),
{
    let parts = two_to(bits);
    let half = two_to((bits - 1) as nat);
    lemma_two_to_adds(bits, 0);
    lemma_two_to_adds((bits - 1) as nat, 0);
    let f = (r * parts) / den;
    let g = (r * parts) % den;
    vstd::arithmetic::div_mod::lemma_fundamental_div_mod((r * parts) as int, den as int);
    let num = (q * den + r) * parts;
    assert(num == (q * parts + f) * den + g) by (nonlinear_arith)
        requires
            num == (q * den + r) * parts,
            r * parts == den * f + g,
    ;
    lemma_fundamental_div_mod_converse(num as int, den as int, (q * parts + f) as int, g as int);
    assert(f < parts) by (nonlinear_arith)
        requires
            r * parts == den * f + g,
            r < den,
            parts >= 1,
            g >= 0,
            den >= 1,
    ;
    assert(q * parts == 2 * (q * half)) by (nonlinear_arith)
        requires
            parts == 2 * half,
    ;
    assert((q * parts + f) % 2 == f % 2);
    let rounded = round_half_even(num, den);
    let up: bool = 2 * g > den || (2 * g == den && f % 2 == 1);
    assert(rounded == q * parts + f + (if up {
        1nat
    } else {
        0nat
    }));
    let near = r * (2 * parts) >= (2 * parts - 1) * den;
    if f == parts - 1 {
        assert(f % 2 == 1);
        assert(near == (2 * g >= den)) by (nonlinear_arith)
            requires
                near == (r * (2 * parts) >= (2 * parts - 1) * den),
                r * parts == den * f + g,
                f == parts - 1,
        ;
        if up {
            assert(rounded == (q + 1) * parts + 0) by (nonlinear_arith)
                requires
                    rounded == q * parts + f + 1,
                    f == parts - 1,
            ;
            lemma_fundamental_div_mod_converse(rounded as int, parts as int, q as int + 1, 0);
        } else {
            lemma_fundamental_div_mod_converse(rounded as int, parts as int, q as int, f as int);
        }
    } else {
        assert(!near) by (nonlinear_arith)
            requires
                near == (r * (2 * parts) >= (2 * parts - 1) * den),
                r * parts == den * f + g,
                g < den,
                f + 2 <= parts,
                den >= 1,
        ;
        let low: nat = f + (if up {
            1nat
        } else {
            0nat
        });
        lemma_fundamental_div_mod_converse(rounded as int, parts as int, q as int, low as int);
    }
}

/// The whole part of the double nearest to `whole` plus a fraction.
fn round_to_whole(whole: u128, fraction: Vec<u8>) -> (rounded: u128)
    requires
        whole < 0x8_0000_0000_0000_0000,
        fraction_digits(fraction@),
    ensures
        rounded == whole_part_of_double(
            whole as nat * ten_to(fraction@.len()) + fraction_value(fraction@),
            ten_to(fraction@.len()),
        ),
{
    let ghost den = ten_to(fraction@.len());
    let ghost r = fraction_value(fraction@);
    let ghost num = whole as nat * den + r;
    proof {
        lemma_fraction_bound(fraction@);
    }
    if whole == 0 {
        proof {
            assert(num == r) by (nonlinear_arith)
                requires
                    num == whole as nat * den + r,
                    whole == 0,
            ;
            assert(den * (two_to(54) - 1) == (two_to(54) - 1) * den) by (nonlinear_arith);
        }
        return if starts_with_ones(fraction, 54) {
            1
        } else {
            0
        };
    }
    let e: u32 = binary_exponent(whole);
    proof {
        lemma_divide_in_steps(whole as nat, r, den, 1);
        assert(num >= den) by (nonlinear_arith)
            requires
                num == whole as nat * den + r,
                whole >= 1,
        ;
    }
    if e < 52 {
        proof {
            lemma_round_parts(whole as nat, r, den, (52 - e) as nat);
            assert((52 - e) as nat + 1 == (53 - e) as nat);
        }
        return if starts_with_ones(fraction, 53 - e) {
            whole + 1
        } else {
            whole
        };
    }
    let spacing: u128 = power_of_two(e - 52);
    proof {
        lemma_two_to_adds((e - 52) as nat, 0);
        lemma_divide_in_steps(whole as nat, r, den, spacing as nat);
    }
    let steps: u128 = whole / spacing;
    let over: u128 = whole % spacing;
    let ghost remainder = over as nat * den + r;
    let up: bool;
    if spacing == 1 {
        let mut fraction = fraction;
        let carry = double_fraction(&mut fraction);
        let rest = !is_zero_fraction(&fraction);
        up = carry && (rest || steps % 2 == 1);
        proof {
            lemma_fraction_bound(fraction@);
            assert(remainder == r) by (nonlinear_arith)
                requires
                    remainder == over as nat * den + r,
                    over == 0,
            ;
            assert(den * 1 == den);
        }
    } else {
        let half: u128 = spacing / 2;
        let rest = !is_zero_fraction(&fraction);
        up = over > half || (over == half && (rest || steps % 2 == 1));
        proof {
            assert(spacing == 2 * half) by {
                assert(e >= 53) by {
                    if e == 52 {
                        assert(two_to(0) == 1);
                    }
                }
                assert(two_to((e - 52) as nat) == 2 * two_to((e - 53) as nat));
            }
            let (o, h, sp) = (over as nat, half as nat, spacing as nat);
            if over < half {
                assert(2 * remainder < den * sp) by (nonlinear_arith)
                    requires
                        remainder == o * den + r,
                        sp == 2 * h,
                        o + 1 <= h,
                        r < den,
                ;
            } else if over > half {
                assert(2 * remainder > den * sp) by (nonlinear_arith)
                    requires
                        remainder == o * den + r,
                        sp == 2 * h,
                        o >= h + 1,
                        r >= 0,
                        den >= 1,
                ;
            } else {
                assert(2 * remainder == den * sp + 2 * r) by (nonlinear_arith)
                    requires
                        remainder == o * den + r,
                        sp == 2 * h,
                        o == h,
                ;
            }
        }
    }
    assert(round_half_even(num, den * spacing as nat) == steps + (if up {
        1int
    } else {
        0int
    }));
    proof {
        lemma_two_to_64();
        lemma_two_to_adds((e - 52) as nat, (64 - (e - 52)) as nat);
        lemma_two_to_adds((64 - (e - 52)) as nat, 0);
        let t = two_to((64 - (e - 52)) as nat);
        assert(spacing <= 0x1_0000_0000_0000_0000) by (nonlinear_arith)
            requires
                spacing * t == 0x1_0000_0000_0000_0000,
                t >= 1,
        ;
        vstd::arithmetic::div_mod::lemma_fundamental_div_mod(whole as int, spacing as int);
        assert(steps * spacing <= whole && (steps + 1) * spacing <= whole + spacing)
            by (nonlinear_arith)
            requires
                whole == spacing * steps + over,
                over >= 0,
        ;
    }
    if up {
        (steps + 1) * spacing
    } else {
        steps * spacing
    }
}

/// A number from two to the power of 66 on stays above the 64-bit range when
/// it is rounded.
proof fn lemma_large_stays_large(num: nat, den: nat)
    requires
        den >= 1,
        num >= two_to(66) * den,
    ensures
        whole_part_of_double(num, den) > two_to(64),
        num >= den,
{
    let q = num / den;
    let r = num % den;
    vstd::arithmetic::div_mod::lemma_fundamental_div_mod(num as int, den as int);
    lemma_two_to_64();
    lemma_two_to_adds(64, 2);
    assert(two_to(2) == 4) by {
        reveal_with_fuel(two_to, 3);
    }
    let limit = two_to(66);
    assert(q >= limit) by (nonlinear_arith)
        requires
            num == den * q + r,
            num >= limit * den,
            r < den,
            den >= 1,
    ;
    assert(num >= den) by (nonlinear_arith)
        requires
            num == den * q + r,
            q >= 1,
            r >= 0,
    ;
    lemma_floor_log2(q);
    let e = floor_log2(q);
    if e < 66 {
        lemma_two_to_adds(e + 1, (66 - (e + 1)) as nat);
        lemma_two_to_adds((66 - (e + 1)) as nat, 0);
        assert(two_to(e + 1) <= two_to(e + 1) * two_to((66 - (e + 1)) as nat)) by (nonlinear_arith)
            requires
                two_to((66 - (e + 1)) as nat) >= 1,
        ;
    }
    let spacing = two_to((e - 52) as nat);
    lemma_two_to_adds((e - 52) as nat, 52);
    lemma_two_to_adds((e - 52) as nat, 0);
    assert(q * den + r == num) by (nonlinear_arith)
        requires
            num == den * q + r,
    ;
    lemma_divide_in_steps(q, r, den, spacing);
    let steps = q / spacing;
    vstd::arithmetic::div_mod::lemma_fundamental_div_mod(q as int, spacing as int);
    assert(steps >= two_to(52)) by (nonlinear_arith)
        requires
            q == spacing * steps + q % spacing,
            q >= spacing * two_to(52),
            q % spacing < spacing,
            spacing >= 1,
    ;
    let rounded = round_half_even(num, den * spacing);
    assert(rounded * spacing >= spacing * two_to(52)) by (nonlinear_arith)
        requires
            rounded >= two_to(52),
            spacing >= 1,
    ;
    lemma_two_to_adds(66, (e - 66) as nat);
    lemma_two_to_adds((e - 66) as nat, 0);
    assert(limit <= limit * two_to((e - 66) as nat)) by (nonlinear_arith)
        requires
            two_to((e - 66) as nat) >= 1,
    ;
}

/// Tells whether the double nearest to a fraction is zero.
#[verifier::loop_isolation(false)]
fn fraction_rounds_to_zero(fraction: Vec<u8>) -> (zero: bool)
    requires
        fraction_digits(fraction@),
    ensures
        zero == rounds_to_zero(fraction_value(fraction@), ten_to(fraction@.len())),
{
    let ghost den = ten_to(fraction@.len());
    let ghost start = fraction_value(fraction@);
    let mut digits = fraction;
    let mut left: u32 = 1075;
    while left > 1
        invariant
            1 <= left <= 1075,
            fraction_digits(digits@),
            den == ten_to(digits@.len()),
            (start * two_to(1075) <= den) <==> (fraction_value(digits@) * two_to(left as nat)
                <= den),
        decreases left,
    {
        let ghost r = fraction_value(digits@);
        let ghost half = two_to((left - 1) as nat);
        proof {
            lemma_two_to_adds((left - 2) as nat, 0);
            lemma_ten_to_adds(digits@.len(), 0);
        }
        let carry = double_fraction(&mut digits);
        if carry {
            proof {
                assert(half >= 2);
                assert(r * (2 * half) > den) by (nonlinear_arith)
                    requires
                        2 * r >= den,
                        half >= 2,
                        den >= 1,
                ;
            }
            return false;
        }
        proof {
            assert(r * (2 * half) == (2 * r) * half) by (nonlinear_arith);
        }
        left = left - 1;
    }
    let ghost r = fraction_value(digits@);
    proof {
        assert(two_to(1) == 2) by {
            reveal_with_fuel(two_to, 2);
        }
    }
    assert(r * two_to(1) == 2 * r) by (nonlinear_arith)
        requires
            two_to(1) == 2,
    ;
    let carry = double_fraction(&mut digits);
    proof {
        lemma_fraction_bound(digits@);
    }
    !carry || is_zero_fraction(&digits)
}

/// Exponents are kept up to this magnitude, far beyond the length of any text.
const EXPONENT_LIMIT: i128 = 1_000_000_000_000_000_000_000_000_000_000;

/// `kept` is `exact`, or both are beyond the exponent limit on the same side.
spec fn same_up_to_limit(kept: int, exact: int, limit: int) -> bool {
    kept == exact || (kept >= limit && exact >= limit) || (kept <= -limit && exact <= -limit)
}

fn count_digits(chars: &[char]) -> (count: usize)
    ensures
        count == digit_run(chars@),
        count <= chars@.len(),
        all_digits(chars@.take(count as int), 10),
{
    let mut count: usize = 0;
    assert(chars@.skip(0) =~= chars@);
    while count < chars.len()
        invariant
            count <= chars@.len(),
            digit_run(chars@) == count + digit_run(chars@.skip(count as int)),
            all_digits(chars@.take(count as int), 10),
        decreases chars@.len() - count,
    {
        assert(chars@.skip(count as int).skip(1) =~= chars@.skip(count + 1));
        match read_digit(chars[count]) {
            Some(d) if d < 10 => {},
            _ => {
                return count;
            },
        }
        count = count + 1;
    }
    count
}

/// Cuts off the digits at the start.
fn split_digits<'a>(chars: &'a [char]) -> (parts: (&'a [char], &'a [char]))
    ensures
        parts.0@ == chars@.take(digit_run(chars@) as int),
        parts.1@ == chars@.skip(digit_run(chars@) as int),
        all_digits(parts.0@, 10),
{
    let count = count_digits(chars);
    let parts = (
        vstd::slice::slice_subrange(chars, 0, count),
        vstd::slice::slice_subrange(chars, count, chars.len()),
    );
    assert(parts.0@ =~= chars@.take(count as int));
    assert(parts.1@ =~= chars@.skip(count as int));
    parts
}

/// Cuts off a point and the digits behind it.
fn split_fraction<'a>(chars: &'a [char]) -> (parts: (&'a [char], &'a [char]))
    ensures
        parts.0@ == fraction_of(chars@),
        parts.1@ == after_fraction(chars@),
        all_digits(parts.0@, 10),
{
    if chars.len() > 0 && chars[0] == '.' {
        let rest = vstd::slice::slice_subrange(chars, 1, chars.len());
        assert(rest@ =~= chars@.skip(1));
        split_digits(rest)
    } else {
        let none = vstd::slice::slice_subrange(chars, 0, 0);
        assert(none@ =~= Seq::<char>::empty());
        (none, chars)
    }
}

/// Reads digits as a number, which is cut off at the exponent limit.
fn read_magnitude(digits: &[char]) -> (magnitude: Option<i128>)
    ensures
        match magnitude {
            Some(m) => {
                &&& all_digits(digits@, 10)
                &&& 0 <= m <= EXPONENT_LIMIT
                &&& same_up_to_limit(
                    m as int,
                    digits_value(digits@, 10) as int,
                    EXPONENT_LIMIT as int,
                )
            },
            None => !all_digits(digits@, 10),
        },
{
    let mut magnitude: i128 = 0;
    let mut i: usize = 0;
    while i < digits.len()
        invariant
            i <= digits@.len(),
            all_digits(digits@.take(i as int), 10),
            0 <= magnitude <= EXPONENT_LIMIT,
            same_up_to_limit(
                magnitude as int,
                digits_value(digits@.take(i as int), 10) as int,
                EXPONENT_LIMIT as int,
            ),
        decreases digits@.len() - i,
    {
        let ghost after = digits@.take(i + 1);
        proof {
            assert(after.drop_last() =~= digits@.take(i as int));
            assert(after.last() == digits@[i as int]);
        }
        let digit: u32 = match read_digit(digits[i]) {
            Some(d) if d < 10 => d,
            _ => {
                assert(!is_digit(digits@[i as int], 10));
                return None;
            },
        };
        let next: i128 = magnitude * 10 + digit as i128;
        magnitude = if next > EXPONENT_LIMIT {
            EXPONENT_LIMIT
        } else {
            next
        };
        i = i + 1;
    }
    assert(digits@.take(i as int) =~= digits@);
    Some(magnitude)
}

fn read_exponent(chars: &[char]) -> (exponent: Option<i128>)
    ensures
        match exponent {
            Some(e) => {
                &&& exponent_of(chars@) is Some
                &&& -EXPONENT_LIMIT <= e <= EXPONENT_LIMIT
                &&& same_up_to_limit(e as int, exponent_of(chars@)->0, EXPONENT_LIMIT as int)
            },
            None => exponent_of(chars@) is None,
        },
{
    if chars.len() == 0 {
        return Some(0);
    }
    if chars[0] != 'e' && chars[0] != 'E' {
        return None;
    }
    let signed = chars.len() > 1 && (chars[1] == '+' || chars[1] == '-');
    let start: usize = if signed {
        2
    } else {
        1
    };
    let digits = vstd::slice::slice_subrange(chars, start, chars.len());
    assert(digits@ =~= unsigned(chars@.skip(1)));
    if digits.len() == 0 {
        return None;
    }
    match read_magnitude(digits) {
        Some(magnitude) => if chars.len() > 1 && chars[1] == '-' {
            Some(-magnitude)
        } else {
            Some(magnitude)
        },
        None => None,
    }
}

/// The number that digits and some zeros behind them stand for, if it is
/// below two to the power of 66.
fn read_whole(digits: &[char], zeros: u32) -> (whole: Option<u128>)
    requires
        all_digits(digits@, 10),
        zeros < 20,
    ensures
        match whole {
            Some(w) => w == digits_value(digits@, 10) * ten_to(zeros as nat) && w < two_to(66),
            None => digits_value(digits@, 10) * ten_to(zeros as nat) >= two_to(66),
        },
{
    proof {
        lemma_two_to_64();
        lemma_two_to_adds(64, 2);
        reveal_with_fuel(two_to, 3);
        lemma_ten_to_adds(zeros as nat, 0);
    }
    let ghost total = digits_value(digits@, 10);
    let limit: u128 = 0x4_0000_0000_0000_0000;
    let mut whole: u128 = 0;
    let mut i: usize = 0;
    while i < digits.len()
        invariant
            i <= digits@.len(),
            all_digits(digits@, 10),
            limit == 0x4_0000_0000_0000_0000,
            limit == two_to(66),
            whole < limit,
            whole == digits_value(digits@.take(i as int), 10),
            total == digits_value(digits@, 10),
            ten_to(zeros as nat) >= 1,
        decreases digits@.len() - i,
    {
        let ghost after = digits@.take(i + 1);
        proof {
            assert(after.drop_last() =~= digits@.take(i as int));
            assert(after.last() == digits@[i as int]);
            assert(is_digit(digits@[i as int], 10));
        }
        let digit: u32 = match read_digit(digits[i]) {
            Some(d) => d,
            None => 0,
        };
        whole = whole * 10 + digit as u128;
        if whole >= limit {
            proof {
                lemma_digits_split(digits@, i + 1);
                let rest = ten_to((digits@.len() - (i + 1)) as nat);
                lemma_ten_to_adds((digits@.len() - (i + 1)) as nat, 0);
                let z = ten_to(zeros as nat);
                let low = digits_value(digits@.skip(i + 1), 10);
                assert(total * z >= limit) by (nonlinear_arith)
                    requires
                        total == whole * rest + low,
                        whole >= limit,
                        rest >= 1,
                        low >= 0,
                        z >= 1,
                ;
            }
            return None;
        }
        i = i + 1;
    }
    assert(digits@.take(i as int) =~= digits@);
    let mut left: u32 = zeros;
    proof {
        assert(whole * ten_to(zeros as nat) == total * ten_to(zeros as nat));
    }
    while left > 0
        invariant
            left <= zeros,
            limit == 0x4_0000_0000_0000_0000,
            limit == two_to(66),
            whole < limit,
            whole * ten_to(left as nat) == total * ten_to(zeros as nat),
            total == digits_value(digits@, 10),
        decreases left,
    {
        let ghost t = ten_to((left - 1) as nat);
        let ghost before = whole;
        proof {
            lemma_ten_to_adds((left - 1) as nat, 0);
            assert(before * (10 * t) == (before * 10) * t) by (nonlinear_arith);
        }
        whole = whole * 10;
        if whole >= limit {
            proof {
                assert(whole * t >= limit) by (nonlinear_arith)
                    requires
                        whole >= limit,
                        t >= 1,
                ;
            }
            return None;
        }
        left = left - 1;
    }
    proof {
        assert(whole * ten_to(0) == whole) by (nonlinear_arith)
            requires
                ten_to(0) == 1,
        ;
    }
    Some(whole)
}

/// The digits of a fraction, with some zeros in front.
fn read_fraction(zeros: usize, digits: &[char]) -> (fraction: Vec<u8>)
    requires
        all_digits(digits@, 10),
    ensures
        fraction_digits(fraction@),
        fraction@.len() == zeros + digits@.len(),
        fraction_value(fraction@) == digits_value(digits@, 10),
{
    let mut fraction: Vec<u8> = Vec::new();
    let ghost chars = Seq::new(zeros as nat, |i: int| '0') + digits@;
    while fraction.len() < zeros
        invariant
            fraction@.len() <= zeros,
            forall|j: int| 0 <= j < fraction@.len() ==> (#[trigger] fraction@[j]) == 0,
        decreases zeros - fraction@.len(),
    {
        fraction.push(0);
    }
    let mut i: usize = 0;
    while i < digits.len()
        invariant
            i <= digits@.len(),
            all_digits(digits@, 10),
            chars == Seq::new(zeros as nat, |i: int| '0') + digits@,
            fraction@.len() == zeros + i,
            fraction_digits(fraction@),
            forall|j: int|
                0 <= j < fraction@.len() ==> digit_of(#[trigger] chars[j]) == Some(
                    fraction@[j] as nat,
                ),
        decreases digits@.len() - i,
    {
        assert(is_digit(digits@[i as int], 10));
        let digit: u32 = match read_digit(digits[i]) {
            Some(d) => d,
            None => 0,
        };
        fraction.push(digit as u8);
        assert(chars[zeros + i] == digits@[i as int]);
        i = i + 1;
    }
    proof {
        lemma_fraction_of_chars(fraction@, chars);
        lemma_digits_split(chars, zeros as int);
        assert(chars.skip(zeros as int) =~= digits@);
        assert(chars.take(zeros as int) =~= Seq::new(zeros as nat, |i: int| '0'));
        lemma_zeros_value(zeros as nat);
        let t = ten_to((chars.len() - zeros) as nat);
        assert(0 * t == 0);
    }
    fraction
}

proof fn lemma_zeros_value(n: nat)
    ensures
        digits_value(Seq::new(n, |i: int| '0'), 10) == 0,
    decreases n,
{
    if n > 0 {
        lemma_zeros_value((n - 1) as nat);
        assert(Seq::new(n, |i: int| '0').drop_last() =~= Seq::new((n - 1) as nat, |i: int| '0'));
    }
}

/// A fraction whose first decimal digit is zero is cut off to zero.
proof fn lemma_small_is_cut_off(num: nat, den: nat)
    requires
        10 * num < den,
    ensures
        whole_part_of_double(num, den) == 0,
{
    let t = two_to(54);
    assert(t >= 2) by {
        lemma_two_to_adds(53, 0);
    }
    assert(num * t < den * (t - 1)) by (nonlinear_arith)
        requires
            10 * num < den,
            t >= 2,
    ;
}

/// Zero is cut off to zero, whatever its sign and scale.
proof fn lemma_zero_is_zero(d: Decimal)
    requires
        digits_value(d.digits, 10) == 0,
    ensures
        decimal_as_u64(d) == Some(0u64),
{
    let (num, den) = (d.numerator(), d.denominator());
    lemma_ten_to_adds((-d.scale) as nat, 0);
    let t = ten_to(d.scale as nat);
    assert(0 * t == 0);
    assert(num == 0);
    assert(den >= 1);
    lemma_small_is_cut_off(num, den);
    assert(0 * two_to(1075) == 0);
    lemma_two_to_64();
}

fn clamp_whole(whole: u128) -> (number: Option<u64>)
    ensures
        number == (if whole > two_to(64) {
            None
        } else if whole == two_to(64) {
            Some(u64::MAX)
        } else {
            Some(whole as u64)
        }),
{
    proof {
        lemma_two_to_64();
    }
    let limit: u128 = 0x1_0000_0000_0000_0000;
    if whole > limit {
        None
    } else if whole == limit {
        Some(u64::MAX)
    } else {
        Some(whole as u64)
    }
}

/// Converts a number without a fraction.
fn convert_scaled_up(
    negative: bool,
    digits: &[char],
    scale: i128,
    Ghost(d): Ghost<Decimal>,
) -> (number: Option<u64>)
    requires
        all_digits(digits@, 10),
        digits_value(digits@, 10) > 0,
        scale >= 0,
        d.negative == negative,
        d.digits == digits@,
        same_up_to_limit(scale as int, d.scale, 1000),
    ensures
        number == decimal_as_u64(d),
{
    let ghost value = digits_value(digits@, 10);
    let ghost power = ten_to(d.scale as nat);
    proof {
        lemma_ten_to_adds(d.scale as nat, 0);
        assert(value * power >= 1) by (nonlinear_arith)
            requires
                value >= 1,
                power >= 1,
        ;
        assert(d.denominator() == 1);
        assert(d.numerator() == value * power);
    }
    if negative {
        proof {
            lemma_two_to_adds(1074, 0);
            assert((value * power) * two_to(1075) > 1) by (nonlinear_arith)
                requires
                    value * power >= 1,
                    two_to(1075) >= 2,
            ;
        }
        return None;
    }
    if scale >= 20 {
        proof {
            lemma_ten_to_adds(20, (d.scale - 20) as nat);
            lemma_ten_to_adds((d.scale - 20) as nat, 0);
            assert(ten_to(20) == 100_000_000_000_000_000_000) by {
                reveal_with_fuel(ten_to, 21);
            }
            lemma_two_to_64();
            lemma_two_to_adds(64, 2);
            reveal_with_fuel(two_to, 3);
            let rest = ten_to((d.scale - 20) as nat);
            assert(value * power >= two_to(66) * 1) by (nonlinear_arith)
                requires
                    power == ten_to(20) * rest,
                    ten_to(20) >= two_to(66),
                    rest >= 1,
                    value >= 1,
            ;
            lemma_large_stays_large(d.numerator(), 1);
        }
        return None;
    }
    match read_whole(digits, scale as u32) {
        None => {
            proof {
                lemma_large_stays_large(d.numerator(), 1);
            }
            None
        },
        Some(whole) => {
            let fraction: Vec<u8> = Vec::new();
            proof {
                lemma_two_to_64();
                lemma_two_to_adds(64, 2);
                reveal_with_fuel(two_to, 3);
                assert(ten_to(0) == 1);
                assert(whole as nat * 1 + 0 == whole as nat);
            }
            clamp_whole(round_to_whole(whole, fraction))
        },
    }
}

/// Converts a number with as many digits as its fraction or more.
fn convert_mixed(
    negative: bool,
    digits: &[char],
    point: usize,
    Ghost(d): Ghost<Decimal>,
) -> (number: Option<u64>)
    requires
        all_digits(digits@, 10),
        point <= digits@.len(),
        d.negative == negative,
        d.digits == digits@,
        d.scale == point - digits@.len(),
        d.scale < 0,
    ensures
        number == decimal_as_u64(d),
{
    let whole_digits = vstd::slice::slice_subrange(digits, 0, point);
    let fraction_part = vstd::slice::slice_subrange(digits, point, digits.len());
    let ghost den = d.denominator();
    let ghost high = digits_value(whole_digits@, 10);
    let ghost low = digits_value(fraction_part@, 10);
    proof {
        assert(all_digits(whole_digits@, 10)) by {
            assert forall|i: int| 0 <= i < whole_digits@.len() implies is_digit(
                #[trigger] whole_digits@[i],
                10,
            ) by {
                assert(is_digit(digits@[i], 10));
            }
        }
        assert(all_digits(fraction_part@, 10)) by {
            assert forall|i: int| 0 <= i < fraction_part@.len() implies is_digit(
                #[trigger] fraction_part@[i],
                10,
            ) by {
                assert(is_digit(digits@[point + i], 10));
            }
        }
        lemma_digits_split(digits@, point as int);
        assert(digits@.take(point as int) =~= whole_digits@);
        assert(digits@.skip(point as int) =~= fraction_part@);
        assert(d.numerator() == high * den + low);
        lemma_ten_to_adds(fraction_part@.len(), 0);
        assert(high * ten_to(0) == high) by (nonlinear_arith)
            requires
                ten_to(0) == 1,
        ;
    }
    let whole = match read_whole(whole_digits, 0) {
        None => {
            proof {
                let limit = two_to(66);
                lemma_two_to_adds(65, 0);
                assert(high * den + low >= limit * den) by (nonlinear_arith)
                    requires
                        high >= limit,
                        low >= 0,
                ;
                lemma_large_stays_large(d.numerator(), den);
                lemma_positive_is_not_zero(d);
            }
            return None;
        },
        Some(w) => w,
    };
    if negative && whole > 0 {
        proof {
            assert(high * den + low >= den) by (nonlinear_arith)
                requires
                    high >= 1,
                    low >= 0,
            ;
            lemma_positive_is_not_zero(d);
        }
        return None;
    }
    let fraction = read_fraction(0, fraction_part);
    proof {
        lemma_two_to_64();
        lemma_two_to_adds(64, 2);
        reveal_with_fuel(two_to, 3);
        assert(0 * den + low == low);
    }
    if negative {
        if fraction_rounds_to_zero(fraction) {
            Some(0)
        } else {
            None
        }
    } else {
        clamp_whole(round_to_whole(whole, fraction))
    }
}

/// A number of one or more does not round to zero.
proof fn lemma_positive_is_not_zero(d: Decimal)
    requires
        d.numerator() >= d.denominator() >= 1,
    ensures
        !rounds_to_zero(d.numerator(), d.denominator()),
{
    lemma_two_to_adds(1074, 0);
    let (num, den) = (d.numerator(), d.denominator());
    assert(num * two_to(1075) > den) by (nonlinear_arith)
        requires
            num >= den,
            den >= 1,
            two_to(1075) >= 2,
    ;
}

/// Converts a number whose fraction starts with zeros that are not written.
fn convert_scaled_down(
    negative: bool,
    digits: &[char],
    scale: i128,
    Ghost(d): Ghost<Decimal>,
) -> (number: Option<u64>)
    requires
        all_digits(digits@, 10),
        -scale > digits@.len(),
        scale >= -2_000_000_000_000_000_000_000_000_000_000,
        d.negative == negative,
        d.digits == digits@,
        same_up_to_limit(scale as int, d.scale, 100_000_000_000_000_000_000_000),
    ensures
        number == decimal_as_u64(d),
{
    let written: usize = digits.len();
    let ghost num = digits_value(digits@, 10);
    let ghost n = digits@.len();
    let ghost den = ten_to((-d.scale) as nat);
    proof {
        assert(-d.scale > n);
        lemma_digits_bound(digits@);
        lemma_ten_to_adds(n, (-d.scale - n) as nat);
        lemma_ten_to_adds((-d.scale - n - 1) as nat, 0);
        let gap = ten_to((-d.scale - n) as nat);
        assert(gap == 10 * ten_to((-d.scale - n - 1) as nat));
        assert(10 * num < den) by (nonlinear_arith)
            requires
                num < ten_to(n),
                den == ten_to(n) * gap,
                gap >= 10,
        ;
    }
    if !negative {
        proof {
            lemma_small_is_cut_off(num, den);
            lemma_two_to_64();
        }
        return Some(0);
    }
    let zeros: i128 = -scale - written as i128;
    if zeros >= 360 {
        proof {
            lemma_tiny_bound();
            lemma_ten_to_adds(360, (-d.scale - n - 360) as nat);
            lemma_ten_to_adds((-d.scale - n - 360) as nat, 0);
            let gap = ten_to((-d.scale - n) as nat);
            let rest = ten_to((-d.scale - n - 360) as nat);
            assert(gap >= two_to(1075)) by (nonlinear_arith)
                requires
                    gap == ten_to(360) * rest,
                    ten_to(360) >= two_to(1075),
                    rest >= 1,
            ;
            assert(num * two_to(1075) <= den) by (nonlinear_arith)
                requires
                    num < ten_to(n),
                    den == ten_to(n) * gap,
                    gap >= two_to(1075),
                    two_to(1075) >= 0,
            ;
        }
        return Some(0);
    }
    let fraction = read_fraction(zeros as usize, digits);
    if fraction_rounds_to_zero(fraction) {
        Some(0)
    } else {
        None
    }
}

/// A decimal number as it was read. The scale is exact up to a limit far
/// beyond the length of any text.
struct DecimalText {
    negative: bool,
    digits: Vec<char>,
    scale: i128,
}

impl DecimalText {
    spec fn stands_for(&self, d: Decimal) -> bool {
        &&& self.negative == d.negative
        &&& self.digits@ == d.digits
        &&& all_digits(d.digits, 10)
        &&& -2 * EXPONENT_LIMIT <= self.scale <= EXPONENT_LIMIT
        &&& same_up_to_limit(
            self.scale as int,
            d.scale,
            100_000_000_000_000_000_000_000_000_000,
        )
    }
}

fn read_decimal(chars: &[char]) -> (decimal: Option<DecimalText>)
    ensures
        match decimal {
            Some(t) => decimal_of(chars@) is Some && t.stands_for(decimal_of(chars@)->0),
            None => decimal_of(chars@) is None,
        },
{
    let negative = chars.len() > 0 && chars[0] == '-';
    let body = if chars.len() > 0 && (chars[0] == '+' || chars[0] == '-') {
        vstd::slice::slice_subrange(chars, 1, chars.len())
    } else {
        chars
    };
    assert(body@ =~= unsigned(chars@));
    let (whole, after) = split_digits(body);
    let (fraction, exponent_part) = split_fraction(after);
    if whole.len() == 0 && fraction.len() == 0 {
        return None;
    }
    let exponent: i128 = match read_exponent(exponent_part) {
        Some(e) => e,
        None => {
            return None;
        },
    };
    let mut digits: Vec<char> = Vec::new();
    digits.extend_from_slice(whole);
    digits.extend_from_slice(fraction);
    proof {
        assert(digits@ =~= whole@ + fraction@);
        assert forall|i: int| 0 <= i < digits@.len() implies is_digit(#[trigger] digits@[i], 10) by {
            if i < whole@.len() {
                assert(is_digit(whole@[i], 10));
            } else {
                assert(is_digit(fraction@[i - whole@.len()], 10));
            }
        }
    }
    Some(DecimalText { negative, digits, scale: exponent - fraction.len() as i128 })
}

/// Reads a decimal number and converts it to an unsigned 64-bit number, as if
/// it were read as a double first.
pub fn parse_double_as_u64(chars: &[char]) -> (number: Option<u64>)
    ensures
        number == double_text_as_u64(chars@),
{
    let text = match read_decimal(chars) {
        Some(t) => t,
        None => {
            return None;
        },
    };
    let ghost d = decimal_of(chars@)->0;
    let digits = text.digits.as_slice();
    let all = read_fraction(0, digits);
    if is_zero_fraction(&all) {
        proof {
            lemma_zero_is_zero(d);
        }
        return Some(0);
    }
    if text.scale >= 0 {
        convert_scaled_up(text.negative, digits, text.scale, Ghost(d))
    } else if -text.scale <= digits.len() as i128 {
        let point: usize = digits.len() - (-text.scale) as usize;
        convert_mixed(text.negative, digits, point, Ghost(d))
    } else {
        convert_scaled_down(text.negative, digits, text.scale, Ghost(d))
    }
}

/// A whole number up to two to the power of 53 keeps its value as a double.
proof fn lemma_small_whole_is_exact(n: nat, den: nat)
    requires
        n <= two_to(53),
        den >= 1,
    ensures
        whole_part_of_double(n * den, den) == n,
{
    lemma_two_to_64();
    let num = n * den;
    if n == two_to(53) {
        assert(num >= den) by (nonlinear_arith)
            requires
                num == n * den,
                n >= 1,
        ;
        assert(floor_log2(n) == 53) by {
            lemma_floor_log2(n);
            assert(two_to(54) == 2 * two_to(53));
            lemma_log2_below(n, 54);
            if floor_log2(n) < 53 {
                let e = floor_log2(n) + 1;
                lemma_two_to_adds(e, (53 - e) as nat);
                lemma_two_to_adds((53 - e) as nat, 0);
                assert(two_to(e) <= two_to(e) * two_to((53 - e) as nat)) by (nonlinear_arith)
                    requires
                        two_to((53 - e) as nat) >= 1,
                ;
            }
        }
        assert(two_to(1) == 2) by {
            reveal_with_fuel(two_to, 2);
        }
        lemma_divide_in_steps(n, 0, den, 2);
        assert((n % 2) * den == 0) by (nonlinear_arith)
            requires
                n % 2 == 0,
        ;
        assert(num / den == n);
        assert((floor_log2(num / den) - 52) as nat == 1);
        assert(round_half_even(num, den * 2) == n / 2);
        assert(round_half_even(num, den * two_to(1)) * two_to(1) == n);
    } else if n == 0 {
        assert(num == 0) by (nonlinear_arith)
            requires
                num == n * den,
                n == 0,
        ;
        assert(10 * num < den);
        lemma_small_is_cut_off(num, den);
    } else {
        assert(num >= den) by (nonlinear_arith)
            requires
                num == n * den,
                n >= 1,
        ;
        lemma_divide_in_steps(n, 0, den, 1);
        lemma_log2_below(n, 53);
        let e = floor_log2(n);
        if e < 52 {
            let bits = (52 - e) as nat;
            lemma_round_parts(n, 0, den, bits);
            lemma_two_to_adds(bits, 0);
            let top = two_to(bits + 1);
            assert(0 * top < (top - 1) * den) by (nonlinear_arith)
                requires
                    top >= 2,
                    den >= 1,
            ;
        } else {
            assert(two_to(0) == 1);
            assert(n / 1 == n);
            assert(round_half_even(num, den * 1) == n);
            assert(n * 1 == n);
        }
    }
}

proof fn lemma_digit_run_of_text(digits: Seq<char>, rest: Seq<char>)
    requires
        all_digits(digits, 10),
        rest.len() > 0 ==> !is_digit(rest[0], 10),
    ensures
        digit_run(digits + rest) == digits.len(),
    decreases digits.len(),
{
    let all = digits + rest;
    if digits.len() == 0 {
        assert(all =~= rest);
    } else {
        assert(is_digit(digits[0], 10));
        assert(all.skip(1) =~= digits.skip(1) + rest);
        assert forall|i: int| 0 <= i < digits.skip(1).len() implies is_digit(
            #[trigger] digits.skip(1)[i],
            10,
        ) by {
            assert(is_digit(digits[i + 1], 10));
        }
        lemma_digit_run_of_text(digits.skip(1), rest);
    }
}

/// A whole number up to two to the power of 53 reads the same with a zero
/// behind a decimal point.
pub proof fn lemma_point_zero_reads_as_whole(n: nat)
    requires
        n <= two_to(53),
    ensures
        double_text_as_u64(decimal_text(n) + seq!['.', '0']) == Some(n as u64),
{
    let digits = decimal_text(n);
    let tail = seq!['.', '0'];
    let text = digits + tail;
    lemma_number_text_reads_back(n, 10);
    assert(is_digit(digits[0], 10));
    assert(text[0] == digits[0]);
    assert(unsigned(text) == text);
    lemma_digit_run_of_text(digits, tail);
    assert(text.take(digits.len() as int) =~= digits);
    assert(text.skip(digits.len() as int) =~= tail);
    assert(tail.skip(1) =~= seq!['0']);
    lemma_digit_run_of_text(seq!['0'], Seq::empty());
    assert(seq!['0'] + Seq::<char>::empty() =~= seq!['0']);
    assert(fraction_of(tail) =~= seq!['0']);
    assert(after_fraction(tail) =~= Seq::<char>::empty());
    let d = decimal_of(text)->0;
    assert(d.digits =~= digits.push('0'));
    assert(d.digits.drop_last() =~= digits);
    assert(digits_value(d.digits, 10) == n * 10);
    assert(ten_to(1) == 10) by {
        reveal_with_fuel(ten_to, 2);
    }
    lemma_small_whole_is_exact(n, 10);
    lemma_two_to_64();
}

/// An exponent is nothing, or the letter `e` in either case and digits, with a
/// sign in between or not. A minus sign makes it negative.
pub proof fn law_exponents(digits: Seq<char>)
    requires
        digits.len() > 0,
        all_digits(digits, 10),
    ensures
        ({
            let value = digits_value(digits, 10) as int;
            &&& exponent_of(Seq::empty()) == Some(0int)
            &&& exponent_of(seq!['e'] + digits) == Some(value)
            &&& exponent_of(seq!['E'] + digits) == Some(value)
            &&& exponent_of(seq!['e', '+'] + digits) == Some(value)
            &&& exponent_of(seq!['E', '+'] + digits) == Some(value)
            &&& exponent_of(seq!['e', '-'] + digits) == Some(-value)
            &&& exponent_of(seq!['E', '-'] + digits) == Some(-value)
        }),
{
    assert(is_digit(digits[0], 10));
    assert((seq!['e'] + digits).skip(1) =~= digits);
    assert((seq!['E'] + digits).skip(1) =~= digits);
    let (plus, minus) = (seq!['+'] + digits, seq!['-'] + digits);
    assert((seq!['e', '+'] + digits).skip(1) =~= plus);
    assert((seq!['E', '+'] + digits).skip(1) =~= plus);
    assert((seq!['e', '-'] + digits).skip(1) =~= minus);
    assert((seq!['E', '-'] + digits).skip(1) =~= minus);
    assert(plus.skip(1) =~= digits);
    assert(minus.skip(1) =~= digits);
}

/// What stands behind the sign of a number, in its parts.
proof fn lemma_body_parts(whole: Seq<char>, fraction: Seq<char>, tail: Seq<char>)
    requires
        all_digits(whole, 10),
        all_digits(fraction, 10),
        exponent_of(tail) is Some,
    ensures
        ({
            let after = seq!['.'] + (fraction + tail);
            let body = whole + after;
            &&& digit_run(body) == whole.len()
            &&& body.take(whole.len() as int) == whole
            &&& body.skip(whole.len() as int) == after
            &&& fraction_of(after) == fraction
            &&& after_fraction(after) == tail
            &&& !has_sign(body)
        }),
        ({
            let body = whole + tail;
            &&& digit_run(body) == whole.len()
            &&& body.take(whole.len() as int) == whole
            &&& body.skip(whole.len() as int) == tail
            &&& fraction_of(tail) == Seq::<char>::empty()
            &&& after_fraction(tail) == tail
            &&& whole.len() > 0 ==> !has_sign(body)
        }),
{
    let after = seq!['.'] + (fraction + tail);
    let body = whole + after;
    assert(!is_digit('.', 10));
    if tail.len() > 0 {
        assert(tail[0] == 'e' || tail[0] == 'E');
        assert(!is_digit(tail[0], 10));
    }
    lemma_digit_run_of_text(whole, after);
    assert(body.take(whole.len() as int) =~= whole);
    assert(body.skip(whole.len() as int) =~= after);
    assert(after.skip(1) =~= fraction + tail);
    lemma_digit_run_of_text(fraction, tail);
    assert((fraction + tail).take(fraction.len() as int) =~= fraction);
    assert((fraction + tail).skip(fraction.len() as int) =~= tail);
    lemma_digit_run_of_text(whole, tail);
    assert((whole + tail).take(whole.len() as int) =~= whole);
    assert((whole + tail).skip(whole.len() as int) =~= tail);
    if whole.len() > 0 {
        assert(is_digit(whole[0], 10));
        assert(body[0] == whole[0]);
        assert((whole + tail)[0] == whole[0]);
    } else {
        assert(body[0] == '.');
    }
}

/// The sign in front of a number.
proof fn lemma_signed(sign: Seq<char>, body: Seq<char>)
    requires
        sign == Seq::<char>::empty() || sign == seq!['+'] || sign == seq!['-'],
        body.len() > 0,
        !has_sign(body),
    ensures
        unsigned(sign + body) == body,
        (sign + body).len() > 0,
        (sign + body)[0] == '-' <==> sign == seq!['-'],
{
    let text = sign + body;
    if sign.len() == 0 {
        assert(text =~= body);
        assert(sign != seq!['-']) by {
            assert(seq!['-'].len() == 1);
        }
    } else {
        assert(text[0] == sign[0]);
        assert(text.skip(1) =~= body);
        assert(seq!['+'][0] == '+' && seq!['-'][0] == '-');
    }
}

/// A decimal number is read from its parts: an optional sign, digits, a point
/// and digits, and an exponent. The digits count as one whole number, and each
/// one behind the point takes one off the exponent.
pub proof fn law_decimal_parts(
    sign: Seq<char>,
    whole: Seq<char>,
    fraction: Seq<char>,
    tail: Seq<char>,
)
    requires
        sign == Seq::<char>::empty() || sign == seq!['+'] || sign == seq!['-'],
        all_digits(whole, 10),
        all_digits(fraction, 10),
        whole.len() + fraction.len() > 0,
        exponent_of(tail) is Some,
    ensures
        decimal_of(sign + (whole + (seq!['.'] + (fraction + tail)))) == Some(
            Decimal {
                negative: sign == seq!['-'],
                digits: whole + fraction,
                scale: exponent_of(tail)->0 - fraction.len(),
            },
        ),
{
    lemma_body_parts(whole, fraction, tail);
    lemma_signed(sign, whole + (seq!['.'] + (fraction + tail)));
}

/// Without a point a decimal number is read in the same way.
pub proof fn law_decimal_without_point(sign: Seq<char>, whole: Seq<char>, tail: Seq<char>)
    requires
        sign == Seq::<char>::empty() || sign == seq!['+'] || sign == seq!['-'],
        all_digits(whole, 10),
        whole.len() > 0,
        exponent_of(tail) is Some,
    ensures
        decimal_of(sign + (whole + tail)) == Some(
            Decimal { negative: sign == seq!['-'], digits: whole, scale: exponent_of(tail)->0 },
        ),
{
    lemma_body_parts(whole, Seq::empty(), tail);
    lemma_signed(sign, whole + tail);
    assert(whole + Seq::<char>::empty() =~= whole);
}

proof fn lemma_run_is_digits(s: Seq<char>)
    ensures
        digit_run(s) <= s.len(),
        forall|i: int| 0 <= i < digit_run(s) ==> is_digit(#[trigger] s[i], 10),
    decreases s.len(),
{
    if s.len() > 0 && is_digit(s[0], 10) {
        let rest = s.skip(1);
        lemma_run_is_digits(rest);
        assert forall|i: int| 0 <= i < digit_run(s) implies is_digit(#[trigger] s[i], 10) by {
            if i > 0 {
                assert(is_digit(rest[i - 1], 10));
            }
        }
    }
}

/// A text with any character but digits, signs, a point and the letter `e` is
/// no decimal number, wherever that character stands.
pub proof fn law_foreign_characters(s: Seq<char>, i: int)
    requires
        0 <= i < s.len(),
        !is_digit(s[i], 10),
        s[i] != '+',
        s[i] != '-',
        s[i] != '.',
        s[i] != 'e',
        s[i] != 'E',
    ensures
        double_text_as_u64(s) is None,
{
    let body = unsigned(s);
    let at = if has_sign(s) {
        i - 1
    } else {
        i
    };
    assert(body[at] == s[i]);
    lemma_run_is_digits(body);
    let run = digit_run(body) as int;
    let after = body.skip(run);
    let at = at - run;
    assert(after[at] == s[i]);
    let rest = after_fraction(after);
    let at = if after[0] == '.' {
        lemma_run_is_digits(after.skip(1));
        assert(after.skip(1)[at - 1] == s[i]);
        at - 1 - digit_run(after.skip(1))
    } else {
        at
    };
    assert(rest[at] == s[i]);
    if exponent_of(rest) is Some {
        let digits = unsigned(rest.skip(1));
        let at = if has_sign(rest.skip(1)) {
            at - 2
        } else {
            at - 1
        };
        assert(digits[at] == s[i]);
    }
}

/// A text without digits is no decimal number.
pub proof fn law_no_digits_no_number(s: Seq<char>)
    requires
        forall|i: int| 0 <= i < s.len() ==> !is_digit(#[trigger] s[i], 10),
    ensures
        double_text_as_u64(s) is None,
{
    let body = unsigned(s);
    if body.len() > 0 {
        assert(body[0] == s[0] || body[0] == s[1]);
        let after = body.skip(digit_run(body) as int);
        assert(after =~= body);
        if after[0] == '.' && after.len() > 1 {
            assert(after.skip(1)[0] == s[1] || after.skip(1)[0] == s[2]);
        }
    }
}

/// A number of up to `bits` whole bits is cut off to its whole part, unless its
/// fraction is nearer to one than a double of that size can tell.
pub proof fn law_fraction_is_cut_off(d: Decimal, bits: nat)
    requires
        !d.negative,
        bits <= 52,
        d.numerator() / d.denominator() < two_to(bits),
        (d.numerator() % d.denominator()) * two_to((54 - bits) as nat) < (two_to(
            (54 - bits) as nat,
        ) - 1) * d.denominator(),
    ensures
        decimal_as_u64(d) == Some((d.numerator() / d.denominator()) as u64),
{
    let (num, den) = (d.numerator(), d.denominator());
    lemma_ten_to_adds((-d.scale) as nat, 0);
    lemma_two_to_64();
    let (q, r) = (num / den, num % den);
    vstd::arithmetic::div_mod::lemma_fundamental_div_mod(num as int, den as int);
    assert(num == q * den + r) by (nonlinear_arith)
        requires
            num == den * q + r,
    ;
    lemma_two_to_adds(bits, (52 - bits) as nat);
    lemma_two_to_adds((52 - bits) as nat, 0);
    assert(two_to(bits) <= two_to(bits) * two_to((52 - bits) as nat)) by (nonlinear_arith)
        requires
            two_to((52 - bits) as nat) >= 1,
    ;
    let near = two_to((54 - bits) as nat);
    lemma_two_to_adds((54 - bits) as nat, 0);
    if q == 0 {
        assert(num == r) by (nonlinear_arith)
            requires
                num == q * den + r,
                q == 0,
        ;
        lemma_two_to_adds((54 - bits) as nat, bits);
        lemma_two_to_adds(bits, 0);
        lemma_finer_is_nearer(num, den, near, two_to(bits));
        let t = two_to(54);
        assert(den * (t - 1) == (t - 1) * den) by (nonlinear_arith);
    } else {
        assert(num >= den) by (nonlinear_arith)
            requires
                num == q * den + r,
                q >= 1,
                r >= 0,
                den >= 1,
        ;
        lemma_log2_below(q, bits);
        let parts = (52 - floor_log2(q)) as nat;
        lemma_round_parts(q, r, den, parts);
        let more = (parts + 1 - (54 - bits)) as nat;
        lemma_two_to_adds((54 - bits) as nat, more);
        lemma_two_to_adds(more, 0);
        lemma_finer_is_nearer(r, den, near, two_to(more));
    }
}

proof fn lemma_finer_is_nearer(r: nat, den: nat, near: nat, more: nat)
    requires
        r * near < (near - 1) * den,
        near >= 1,
        more >= 1,
    ensures
        r * (near * more) < (near * more - 1) * den,
{
    assert(r * (near * more) < (near * more - 1) * den) by (nonlinear_arith)
        requires
            r * near < (near - 1) * den,
            near >= 1,
            more >= 1,
            den >= 0,
    {
        assert(r * (near * more) == (r * near) * more);
        assert((r * near) * more + more <= ((near - 1) * den) * more);
        assert(((near - 1) * den) * more == (near * more) * den - more * den);
        assert(more * den >= den);
    }
}

/// A number below two to the power of 52 whose fraction is within one part in
/// two to the power of 54 of the next whole number is rounded up to it.
pub proof fn law_nearly_whole_is_rounded_up(d: Decimal)
    requires
        !d.negative,
        d.numerator() / d.denominator() < two_to(52),
        (d.numerator() % d.denominator()) * two_to(54) >= (two_to(54) - 1) * d.denominator(),
    ensures
        decimal_as_u64(d) == Some((d.numerator() / d.denominator() + 1) as u64),
{
    let (num, den) = (d.numerator(), d.denominator());
    lemma_ten_to_adds((-d.scale) as nat, 0);
    lemma_two_to_64();
    let (q, r) = (num / den, num % den);
    vstd::arithmetic::div_mod::lemma_fundamental_div_mod(num as int, den as int);
    assert(num == q * den + r) by (nonlinear_arith)
        requires
            num == den * q + r,
    ;
    if q == 0 {
        assert(num == r) by (nonlinear_arith)
            requires
                num == q * den + r,
                q == 0,
        ;
        let t = two_to(54);
        assert(den * (t - 1) == (t - 1) * den) by (nonlinear_arith);
    } else {
        assert(num >= den) by (nonlinear_arith)
            requires
                num == q * den + r,
                q >= 1,
                r >= 0,
                den >= 1,
        ;
        lemma_log2_below(q, 52);
        let parts = (52 - floor_log2(q)) as nat;
        lemma_round_parts(q, r, den, parts);
        let top = two_to(parts + 1);
        let more = (54 - (parts + 1)) as nat;
        lemma_two_to_adds(parts + 1, more);
        lemma_two_to_adds(parts + 1, 0);
        lemma_two_to_adds(more, 0);
        if r * top < (top - 1) * den {
            lemma_finer_is_nearer(r, den, top, two_to(more));
        }
    }
}

/// The value of a decimal number is that of its digits as a whole number, and a
/// zero behind the digits makes up for a scale that is one less.
pub proof fn law_scale(digits: Seq<char>, scale: int, negative: bool)
    ensures
        ({
            let plain = Decimal { negative, digits, scale: 0 };
            plain.numerator() == digits_value(digits, 10) && plain.denominator() == 1
        }),
        ({
            let a = Decimal { negative, digits, scale };
            let b = Decimal { negative, digits: digits.push('0'), scale: scale - 1 };
            a.numerator() * b.denominator() == b.numerator() * a.denominator()
        }),
{
    let n = digits_value(digits, 10);
    assert(n * 1 == n) by (nonlinear_arith);
    let longer = digits.push('0');
    assert(longer.drop_last() =~= digits);
    assert(digits_value(longer, 10) == n * 10);
    if scale >= 1 {
        let p = ten_to((scale - 1) as nat);
        assert(n * (10 * p) == (n * 10) * p) by (nonlinear_arith);
    } else {
        let p = ten_to((-scale) as nat);
        assert((-(scale - 1)) as nat == (-scale) as nat + 1);
        assert(n * (10 * p) == (n * 10) * p) by (nonlinear_arith);
    }
}

/// A whole number up to two to the power of 53 keeps its value, in whatever way
/// it is written.
pub proof fn law_small_whole_number_is_exact(d: Decimal, n: nat)
    requires
        !d.negative,
        n <= two_to(53),
        d.numerator() == n * d.denominator(),
    ensures
        decimal_as_u64(d) == Some(n as u64),
{
    lemma_ten_to_adds((-d.scale) as nat, 0);
    lemma_two_to_64();
    lemma_small_whole_is_exact(n, d.denominator());
}

proof fn lemma_thousand_below(n: nat)
    ensures
        ten_to(3 * n) <= two_to(10 * n),
        ten_to(3 * n) >= 1,
    decreases n,
{
    if n > 0 {
        let m = (n - 1) as nat;
        lemma_thousand_below(m);
        lemma_ten_to_adds(3, 3 * m);
        lemma_two_to_adds(10, 10 * m);
        assert(ten_to(3) == 1000) by {
            reveal_with_fuel(ten_to, 4);
        }
        assert(two_to(10) == 1024) by {
            reveal_with_fuel(two_to, 11);
        }
        assert(3 + 3 * m == 3 * n && 10 + 10 * m == 10 * n);
    }
}

/// A negative number is refused, however near to zero as long as it is not
/// nearer than ten to the power of minus 300. Negative zero is zero.
pub proof fn law_negative_numbers(d: Decimal)
    requires
        d.negative,
    ensures
        d.numerator() * ten_to(300) >= d.denominator() ==> decimal_as_u64(d) is None,
        d.numerator() == 0 ==> decimal_as_u64(d) == Some(0u64),
{
    let (num, den) = (d.numerator(), d.denominator());
    lemma_ten_to_adds((-d.scale) as nat, 0);
    lemma_thousand_below(100);
    lemma_two_to_adds(1000, 75);
    lemma_two_to_adds(74, 1);
    lemma_two_to_adds(74, 0);
    reveal_with_fuel(two_to, 2);
    let (small, low, high) = (ten_to(300), two_to(1000), two_to(75));
    assert(high >= 2);
    if num * small >= den {
        assert(num >= 1) by (nonlinear_arith)
            requires
                num * small >= den,
                den >= 1,
        ;
        assert(num * (low * high) > den) by (nonlinear_arith)
            requires
                num * small >= den,
                1 <= small <= low,
                high >= 2,
                num >= 1,
        ;
    }
    if num == 0 {
        let t = two_to(1075);
        assert(0 * t == 0) by (nonlinear_arith);
    }
}

/// Rounding goes to the nearest whole number, and between two that are equally
/// near to the even one.
pub proof fn law_rounding(num: nat, den: nat)
    requires
        den >= 1,
    ensures
        ({
            let twice_off = 2 * (round_half_even(num, den) * den - num);
            &&& -den <= twice_off <= den
            &&& twice_off == den || twice_off == -den ==> round_half_even(num, den) % 2 == 0
        }),
{
    let (q, r) = (num / den, num % den);
    vstd::arithmetic::div_mod::lemma_fundamental_div_mod(num as int, den as int);
    assert(r < den);
    assert((q + 1) * den == den * q + den) by (nonlinear_arith);
    assert(q * den == den * q) by (nonlinear_arith);
}

/// The double just above the range of 64 bits counts as the upper end of the
/// range, and the next one is refused.
pub proof fn law_upper_end(d: Decimal)
    requires
        !d.negative,
    ensures
        whole_part_of_double(d.numerator(), d.denominator()) == 0x1_0000_0000_0000_0000
            ==> decimal_as_u64(d) == Some(0xFFFF_FFFF_FFFF_FFFFu64),
        whole_part_of_double(d.numerator(), d.denominator()) > 0x1_0000_0000_0000_0000
            ==> decimal_as_u64(d) is None,
        whole_part_of_double(d.numerator(), d.denominator()) < 0x1_0000_0000_0000_0000 ==> (
        decimal_as_u64(d) matches Some(n) && n == whole_part_of_double(
            d.numerator(),
            d.denominator(),
        )),
{
    lemma_two_to_64();
}

/// A number far above the range of 64 bits is refused.
pub proof fn law_large_numbers(d: Decimal)
    requires
        d.numerator() >= two_to(66) * d.denominator(),
    ensures
        decimal_as_u64(d) is None,
{
    let (num, den) = (d.numerator(), d.denominator());
    lemma_ten_to_adds((-d.scale) as nat, 0);
    lemma_large_stays_large(num, den);
    lemma_two_to_adds(1074, 1);
    lemma_two_to_adds(1074, 0);
    reveal_with_fuel(two_to, 2);
    let t = two_to(1075);
    assert(num * t > den) by (nonlinear_arith)
        requires
            num >= den,
            den >= 1,
            t >= 2,
    ;
}

/// The double nearest to a number from two to the power of 52 on is off by at
/// most one part in two to the power of 53.
pub proof fn law_double_is_near(num: nat, den: nat)
    requires
        den >= 1,
        num >= two_to(52) * den,
    ensures
        ({
            let rounded = (whole_part_of_double(num, den) * den) as int;
            let distance = if rounded >= num {
                rounded - num
            } else {
                num - rounded
            };
            distance * two_to(53) <= num
        }),
{
    let (q, r) = (num / den, num % den);
    vstd::arithmetic::div_mod::lemma_fundamental_div_mod(num as int, den as int);
    let limit = two_to(52);
    lemma_two_to_64();
    assert(q >= limit && num >= den) by (nonlinear_arith)
        requires
            num == den * q + r,
            num >= limit * den,
            r < den,
            den >= 1,
            limit >= 1,
    ;
    lemma_floor_log2(q);
    let e = floor_log2(q);
    if e < 52 {
        lemma_two_to_adds(e + 1, (52 - (e + 1)) as nat);
        lemma_two_to_adds((52 - (e + 1)) as nat, 0);
        assert(two_to(e + 1) <= two_to(e + 1) * two_to((52 - (e + 1)) as nat)) by (nonlinear_arith)
            requires
                two_to((52 - (e + 1)) as nat) >= 1,
        ;
    }
    let spacing = two_to((e - 52) as nat);
    lemma_two_to_adds((e - 52) as nat, 52);
    lemma_two_to_adds((e - 52) as nat, 0);
    let wide = (den * spacing) as int;
    assert(wide >= 1) by (nonlinear_arith)
        requires
            den >= 1,
            spacing >= 1,
            wide == den * spacing,
    ;
    let (steps, left) = (num as int / wide, num as int % wide);
    vstd::arithmetic::div_mod::lemma_fundamental_div_mod(num as int, wide);
    assert(0 <= left < wide);
    let rounded = round_half_even(num, den * spacing) as int;
    assert(rounded == steps || rounded == steps + 1);
    let total = (whole_part_of_double(num, den) * den) as int;
    assert(total == rounded * wide) by (nonlinear_arith)
        requires
            total == (rounded * spacing) * den,
            wide == den * spacing,
    ;
    let distance = if total >= num {
        total - num
    } else {
        num - total
    };
    assert((steps + 1) * wide == steps * wide + wide) by (nonlinear_arith);
    assert(wide * steps == steps * wide) by (nonlinear_arith);
    assert(2 * distance <= wide);
    assert(num >= wide * limit) by (nonlinear_arith)
        requires
            num == den * q + r,
            q >= spacing * limit,
            wide == den * spacing,
            r >= 0,
            den >= 1,
    ;
    assert(two_to(53) == 2 * limit) by {
        reveal_with_fuel(two_to, 2);
    }
    assert(distance * (2 * limit) <= wide * limit) by (nonlinear_arith)
        requires
            2 * distance <= wide,
            limit >= 1,
    ;
}

/// The powers are those of two and of ten.
pub proof fn law_powers(n: nat)
    ensures
        two_to(n) == pow(2, n),
        ten_to(n) == pow(10, n),
    decreases n,
{
    lemma_pow0(2);
    lemma_pow0(10);
    if n > 0 {
        law_powers((n - 1) as nat);
        lemma_pow1(2);
        lemma_pow1(10);
        lemma_pow_adds(2, 1, (n - 1) as nat);
        lemma_pow_adds(10, 1, (n - 1) as nat);
    }
}

} // verus!

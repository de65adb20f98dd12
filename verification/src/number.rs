//! Integers written as text.

use crate::text::{
    chars_of, is_blank, is_white_space, law_trim_keeps_inner_text, string_of, trim, trimmed,
};
use vstd::arithmetic::power::{lemma_pow0, lemma_pow1, lemma_pow_adds, pow};
use vstd::prelude::*;

verus! {

/// What a character stands for as a digit: 0 to 9 for `0` to `9`, 10 to 15
/// for the letters `a` to `f` in either case.
pub open spec fn digit_of(c: char) -> Option<nat> {
    if '0' <= c <= '9' {
        Some((c as u32 - '0' as u32) as nat)
    } else if 'a' <= c <= 'f' {
        Some((c as u32 - 'a' as u32 + 10) as nat)
    } else if 'A' <= c <= 'F' {
        Some((c as u32 - 'A' as u32 + 10) as nat)
    } else {
        None
    }
}

/// `c` is a digit of numbers written to this radix.
pub open spec fn is_digit(c: char, radix: nat) -> bool {
    digit_of(c) matches Some(d) && d < radix
}

/// Every character of `s` is a digit.
pub open spec fn all_digits(s: Seq<char>, radix: nat) -> bool {
    forall|i: int| 0 <= i < s.len() ==> is_digit(#[trigger] s[i], radix)
}

/// The number that a sequence of digits stands for.
pub open spec fn digits_value(s: Seq<char>, radix: nat) -> nat
    decreases s.len(),
{
    if s.len() == 0 {
        0
    } else {
        digits_value(s.drop_last(), radix) * radix + digit_of(s.last()).unwrap_or(0)
    }
}

/// The digits of an unsigned number: what follows an optional plus sign.
pub open spec fn unsigned_digits(s: Seq<char>) -> Seq<char> {
    if s.len() > 0 && s[0] == '+' {
        s.skip(1)
    } else {
        s
    }
}

/// `s` as an unsigned 64-bit number: an optional plus sign, then one digit or
/// more, of a value that fits.
pub open spec fn unsigned_of(s: Seq<char>, radix: nat) -> Option<u64> {
    let digits = unsigned_digits(s);
    if digits.len() > 0 && all_digits(digits, radix) && digits_value(digits, radix) <= u64::MAX {
        Some(digits_value(digits, radix) as u64)
    } else {
        None
    }
}

/// A number with an optional `0x` in front. Without it, what is no decimal
/// number is read as a hexadecimal one.
pub open spec fn literal_of(s: Seq<char>) -> Option<u64> {
    let t = trimmed(s);
    if t.len() >= 2 && t[0] == '0' && (t[1] == 'x' || t[1] == 'X') {
        unsigned_of(t.skip(2), 16)
    } else if unsigned_of(t, 10) is Some {
        unsigned_of(t, 10)
    } else {
        unsigned_of(t, 16)
    }
}

proof fn lemma_value_grows(s: Seq<char>, radix: nat, cut: int)
    requires
        0 <= cut <= s.len(),
        radix >= 1,
    ensures
        digits_value(s.take(cut), radix) <= digits_value(s, radix),
    decreases s.len(),
{
    if cut == s.len() {
        assert(s.take(cut) =~= s);
    } else {
        lemma_value_grows(s.drop_last(), radix, cut);
        assert(s.drop_last().take(cut) =~= s.take(cut));
        let v = digits_value(s.drop_last(), radix);
        assert(v <= v * radix) by (nonlinear_arith)
            requires
                radix >= 1,
        ;
    }
}

/// Reads a digit.
pub fn read_digit(c: char) -> (digit: Option<u32>)
    ensures
        match digit {
            Some(d) => digit_of(c) == Some(d as nat) && d < 16,
            None => digit_of(c) is None,
        },
{
    if '0' <= c && c <= '9' {
        Some(c as u32 - '0' as u32)
    } else if 'a' <= c && c <= 'f' {
        Some(c as u32 - 'a' as u32 + 10)
    } else if 'A' <= c && c <= 'F' {
        Some(c as u32 - 'A' as u32 + 10)
    } else {
        None
    }
}

/// Reads an unsigned number, as `u64::from_str_radix` does.
pub fn parse_unsigned(chars: &[char], radix: u32) -> (number: Option<u64>)
    requires
        2 <= radix <= 16,
    ensures
        number == unsigned_of(chars@, radix as nat),
{
    let digits = if chars.len() > 0 && chars[0] == '+' {
        vstd::slice::slice_subrange(chars, 1, chars.len())
    } else {
        chars
    };
    assert(digits@ =~= unsigned_digits(chars@));
    if digits.len() == 0 {
        return None;
    }
    let mut value: u64 = 0;
    let mut i: usize = 0;
    while i < digits.len()
        invariant
            2 <= radix <= 16,
            i <= digits@.len(),
            all_digits(digits@.take(i as int), radix as nat),
            value == digits_value(digits@.take(i as int), radix as nat),
            digits@ == unsigned_digits(chars@),
        decreases digits@.len() - i,
    {
        let ghost before = digits@.take(i as int);
        let ghost after = digits@.take(i + 1);
        assert(after.drop_last() =~= before);
        assert(after.last() == digits@[i as int]);
        let digit: u32 = match read_digit(digits[i]) {
            Some(d) if d < radix => d,
            _ => {
                assert(!is_digit(digits@[i as int], radix as nat));
                return None;
            },
        };
        assert(0 <= value * radix <= u64::MAX * 16) by (nonlinear_arith)
            requires
                0 <= value <= u64::MAX,
                0 <= radix <= 16,
        ;
        let wide: u128 = value as u128 * radix as u128 + digit as u128;
        assert(wide == digits_value(after, radix as nat));
        if wide > u64::MAX as u128 {
            proof {
                lemma_value_grows(digits@, radix as nat, i + 1);
            }
            return None;
        }
        value = wide as u64;
        i = i + 1;
    }
    assert(digits@.take(i as int) =~= digits@);
    Some(value)
}

/// Parse numeric literals in decimal or hexadecimal form.
pub fn parse_u64_literal(value: &str) -> (number: Option<u64>)
    ensures
        number == literal_of(value@),
{
    let chars = chars_of(value);
    let inner = trim(chars.as_slice());
    if inner.len() >= 2 && inner[0] == '0' && (inner[1] == 'x' || inner[1] == 'X') {
        return parse_unsigned(vstd::slice::slice_subrange(inner, 2, inner.len()), 16);
    }
    match parse_unsigned(inner, 10) {
        Some(number) => Some(number),
        None => parse_unsigned(inner, 16),
    }
}

/// Reads a plain decimal number, as `str::parse::<u64>` does.
pub fn parse_decimal(value: &str) -> (number: Option<u64>)
    ensures
        number == unsigned_of(value@, 10),
{
    let chars = chars_of(value);
    parse_unsigned(chars.as_slice(), 10)
}

/// The character for a digit, letters in upper case.
pub open spec fn digit_char(d: nat) -> char {
    if d < 10 {
        (('0' as u32 + d) as u8) as char
    } else {
        (('A' as u32 + (d - 10)) as u8) as char
    }
}

/// A number written with the fewest digits, at least one.
pub open spec fn number_text(n: nat, radix: nat) -> Seq<char>
    decreases n,
{
    if radix < 2 || n < radix {
        seq![digit_char(n)]
    } else {
        proof {
            assert(n / radix < n) by (nonlinear_arith)
                requires
                    n >= radix >= 2,
            ;
        }
        number_text(n / radix, radix).push(digit_char(n % radix))
    }
}

/// `s` filled up with zeros on the left to a width.
pub open spec fn zero_padded(s: Seq<char>, width: nat) -> Seq<char> {
    if s.len() >= width {
        s
    } else {
        Seq::new((width - s.len()) as nat, |i: int| '0') + s
    }
}

/// A number in hexadecimal, with at least `width` digits.
pub open spec fn hex_text(n: nat, width: nat) -> Seq<char> {
    zero_padded(number_text(n, 16), width)
}

/// A number in decimal.
pub open spec fn decimal_text(n: nat) -> Seq<char> {
    number_text(n, 10)
}

fn write_digit(d: u32) -> (c: char)
    requires
        d < 16,
    ensures
        c == digit_char(d as nat),
{
    if d < 10 {
        ('0' as u8 + d as u8) as char
    } else {
        ('A' as u8 + (d as u8 - 10)) as char
    }
}

fn write_number(n: u64, radix: u64) -> (chars: Vec<char>)
    requires
        2 <= radix <= 16,
    ensures
        chars@ == number_text(n as nat, radix as nat),
    decreases n,
{
    if n < radix {
        let mut chars: Vec<char> = Vec::new();
        chars.push(write_digit(n as u32));
        chars
    } else {
        assert(n / radix < n) by (nonlinear_arith)
            requires
                n >= radix >= 2,
        ;
        let mut chars = write_number(n / radix, radix);
        chars.push(write_digit((n % radix) as u32));
        chars
    }
}

/// Writes a number in upper case hexadecimal, filled up with zeros to `width`.
pub fn to_hex(n: u64, width: usize) -> (s: String)
    ensures
        s@ == hex_text(n as nat, width as nat),
{
    let digits = write_number(n, 16);
    let mut chars: Vec<char> = Vec::new();
    while chars.len() < width && width - chars.len() > digits.len()
        invariant
            chars@ == Seq::new(chars@.len(), |i: int| '0'),
            digits@.len() >= width ==> chars@.len() == 0,
            digits@.len() < width ==> chars@.len() + digits@.len() <= width,
        decreases width - chars@.len(),
    {
        chars.push('0');
    }
    let mut digits = digits;
    chars.append(&mut digits);
    string_of(chars.as_slice())
}

/// Writes a number in decimal.
pub fn to_decimal(n: u64) -> (s: String)
    ensures
        s@ == decimal_text(n as nat),
{
    string_of(write_number(n, 10).as_slice())
}

/// A number that was written can be read back: its text is made of digits
/// with its value.
pub proof fn lemma_number_text_reads_back(n: nat, radix: nat)
    requires
        2 <= radix <= 16,
    ensures
        number_text(n, radix).len() >= 1,
        all_digits(number_text(n, radix), radix),
        digits_value(number_text(n, radix), radix) == n,
    decreases n,
{
    reveal_with_fuel(digits_value, 2);
    let text = number_text(n, radix);
    if n < radix {
        assert(digit_of(digit_char(n)) == Some(n));
        assert(text.drop_last() =~= Seq::<char>::empty());
        assert(0 * radix == 0) by (nonlinear_arith);
    } else {
        assert(n / radix < n) by (nonlinear_arith)
            requires
                n >= radix >= 2,
        ;
        lemma_number_text_reads_back(n / radix, radix);
        let before = number_text(n / radix, radix);
        let low = n % radix;
        assert(low < radix) by (nonlinear_arith)
            requires
                low == n % radix,
                radix >= 2,
        ;
        assert(text.drop_last() =~= before);
        assert(digit_of(digit_char(low)) == Some(low));
        assert((n / radix) * radix + n % radix == n) by (nonlinear_arith)
            requires
                radix >= 2,
        ;
        assert forall|i: int| 0 <= i < text.len() implies is_digit(#[trigger] text[i], radix) by {
            if i < before.len() {
                assert(is_digit(before[i], radix));
            }
        }
    }
}

/// A 64-bit number in decimal reads back as that number.
pub proof fn lemma_decimal_round_trip(n: u64)
    ensures
        unsigned_of(decimal_text(n as nat), 10) == Some(n),
{
    lemma_number_text_reads_back(n as nat, 10);
    assert(is_digit(decimal_text(n as nat)[0], 10));
}

/// The digits by the codes of their characters.
pub proof fn law_digits(c: char, d: nat)
    ensures
        digit_of(c) == Some(d) <==> {
            ||| d < 10 && c as u32 == 0x30 + d
            ||| 10 <= d < 16 && c as u32 == 0x61 + (d - 10)
            ||| 10 <= d < 16 && c as u32 == 0x41 + (d - 10)
        },
{
}

/// Each digit in front of others counts for the radix to the power of their
/// number.
pub proof fn law_digits_value(front: Seq<char>, back: Seq<char>, radix: nat, c: char, d: nat)
    requires
        digit_of(c) == Some(d),
    ensures
        digits_value(Seq::empty(), radix) == 0,
        digits_value(seq![c], radix) == d,
        digits_value(front + back, radix) == digits_value(front, radix) * pow(
            radix as int,
            back.len(),
        ) + digits_value(back, radix),
    decreases back.len(),
{
    reveal_with_fuel(digits_value, 2);
    assert(seq![c].drop_last() =~= Seq::<char>::empty());
    assert(0 * radix == 0) by (nonlinear_arith);
    lemma_pow0(radix as int);
    let f = digits_value(front, radix) as int;
    if back.len() == 0 {
        assert(front + back =~= front);
        assert(f * 1 == f) by (nonlinear_arith);
    } else {
        let shorter = back.drop_last();
        law_digits_value(front, shorter, radix, c, d);
        assert((front + back).drop_last() =~= front + shorter);
        lemma_pow_adds(radix as int, shorter.len(), 1);
        lemma_pow1(radix as int);
        let (p, r) = (pow(radix as int, shorter.len()), radix as int);
        let low = digits_value(shorter, radix) as int;
        assert((f * p + low) * r == f * (p * r) + low * r) by (nonlinear_arith);
    }
}

/// Every number up to 64 bits that is written is read back, with a plus sign in
/// front too. A greater one is not read.
pub proof fn law_written_numbers_are_read(n: nat, radix: nat)
    requires
        2 <= radix <= 16,
    ensures
        n <= u64::MAX ==> unsigned_of(number_text(n, radix), radix) == Some(n as u64),
        n <= u64::MAX ==> unsigned_of(seq!['+'] + number_text(n, radix), radix) == Some(n as u64),
        n > u64::MAX ==> unsigned_of(number_text(n, radix), radix) is None,
{
    lemma_number_text_reads_back(n, radix);
    let text = number_text(n, radix);
    assert(is_digit(text[0], radix));
    assert((seq!['+'] + text).skip(1) =~= text);
}

/// A text with a character that is no digit, other than one plus sign in front,
/// is no number, and neither is a text without digits.
pub proof fn law_what_is_no_number(s: Seq<char>, radix: nat, i: int)
    ensures
        s.len() == 0 ==> unsigned_of(s, radix) is None,
        s == seq!['+'] ==> unsigned_of(s, radix) is None,
        0 < i < s.len() && !is_digit(s[i], radix) ==> unsigned_of(s, radix) is None,
        s.len() > 0 && s[0] != '+' && !is_digit(s[0], radix) ==> unsigned_of(s, radix) is None,
{
    let digits = unsigned_digits(s);
    if 0 < i < s.len() && !is_digit(s[i], radix) {
        if s[0] == '+' {
            assert(digits[i - 1] == s[i]);
        } else {
            assert(digits[i] == s[i]);
        }
    }
    if s.len() > 0 && s[0] != '+' {
        assert(digits[0] == s[0]);
    }
}

/// A literal in hexadecimal with `0x` or `0X` in front, and zeros filled in,
/// reads as the number, and so does one in decimal. White space around either
/// does not matter.
pub proof fn law_literals(n: u64, width: nat, front: Seq<char>, back: Seq<char>)
    requires
        is_blank(front),
        is_blank(back),
    ensures
        literal_of(front + (seq!['0', 'x'] + hex_text(n as nat, width)) + back) == Some(n),
        literal_of(front + (seq!['0', 'X'] + hex_text(n as nat, width)) + back) == Some(n),
        literal_of(front + decimal_text(n as nat) + back) == Some(n),
{
    law_hex_text(n as nat, width);
    let hex = hex_text(n as nat, width);
    assert forall|c: char| is_digit(c, 16) implies !is_white_space(c) by {}
    assert(is_digit(hex.last(), 16));
    assert(hex[0] != '+') by {
        assert(is_digit(hex[0], 16));
    }
    let small = seq!['0', 'x'] + hex;
    law_trim_keeps_inner_text(front, small, back);
    assert(small.skip(2) =~= hex);
    let large = seq!['0', 'X'] + hex;
    law_trim_keeps_inner_text(front, large, back);
    assert(large.skip(2) =~= hex);
    let text = decimal_text(n as nat);
    lemma_number_text_reads_back(n as nat, 10);
    assert(is_digit(text[0], 10));
    assert(is_digit(text[text.len() - 1], 10));
    assert(text.len() >= 2 ==> is_digit(text[1], 10));
    law_trim_keeps_inner_text(front, text, back);
    law_written_numbers_are_read(n as nat, 10);
}

/// A literal without `0x` that is no decimal number is read as hexadecimal: a
/// text of hexadecimal digits with a letter among them has its value to the
/// radix 16.
pub proof fn law_bare_hexadecimal_literal(s: Seq<char>, i: int)
    requires
        all_digits(s, 16),
        0 <= i < s.len(),
        !is_digit(s[i], 10),
        digits_value(s, 16) <= u64::MAX,
    ensures
        literal_of(s) == Some(digits_value(s, 16) as u64),
{
    assert forall|c: char| is_digit(c, 16) implies !is_white_space(c) && c != '+' && c != 'x' && c
        != 'X' by {}
    assert(is_digit(s[0], 16));
    assert(is_digit(s[s.len() - 1], 16));
    assert(s.len() >= 2 ==> is_digit(s[1], 16));
    let none = Seq::<char>::empty();
    law_trim_keeps_inner_text(none, s, none);
    assert(none + s + none =~= s);
    law_what_is_no_number(s, 10, i);
}

/// A number in hexadecimal has at least as many digits as asked for, reads as
/// the number, and is only longer than asked for where it has to be: then it
/// starts with no zero. Its letters are upper case.
pub proof fn law_hex_text(n: nat, width: nat)
    ensures
        hex_text(n, width).len() >= width,
        hex_text(n, width).len() >= 1,
        all_digits(hex_text(n, width), 16),
        digits_value(hex_text(n, width), 16) == n,
        forall|i: int|
            0 <= i < hex_text(n, width).len() ==> !('a' <= #[trigger] hex_text(n, width)[i] <= 'f'),
        hex_text(n, width).len() > width && hex_text(n, width).len() > 1 ==> hex_text(n, width)[0]
            != '0',
{
    lemma_number_text_reads_back(n, 16);
    lemma_number_text_shape(n, 16);
    let digits = number_text(n, 16);
    if digits.len() < width {
        let zeros = Seq::new((width - digits.len()) as nat, |i: int| '0');
        assert(hex_text(n, width) =~= zeros + digits);
        lemma_zeros_are_nothing(zeros, 16);
        law_digits_value(zeros, digits, 16, '0', 0);
        assert(0 * pow(16, digits.len()) == 0) by (nonlinear_arith);
        assert forall|i: int| 0 <= i < hex_text(n, width).len() implies is_digit(
            #[trigger] hex_text(n, width)[i],
            16,
        ) && !('a' <= hex_text(n, width)[i] <= 'f') by {
            if i >= zeros.len() {
                assert(hex_text(n, width)[i] == digits[i - zeros.len()]);
            }
        }
    }
}

/// A number in decimal reads as the number and starts with no zero, but for
/// zero itself.
pub proof fn law_decimal_text(n: nat)
    ensures
        decimal_text(n).len() >= 1,
        all_digits(decimal_text(n), 10),
        digits_value(decimal_text(n), 10) == n,
        n > 0 ==> decimal_text(n)[0] != '0',
        n == 0 ==> decimal_text(n) == seq!['0'],
{
    lemma_number_text_reads_back(n, 10);
    lemma_number_text_shape(n, 10);
}

proof fn lemma_zeros_are_nothing(zeros: Seq<char>, radix: nat)
    requires
        forall|i: int| 0 <= i < zeros.len() ==> #[trigger] zeros[i] == '0',
    ensures
        digits_value(zeros, radix) == 0,
    decreases zeros.len(),
{
    if zeros.len() > 0 {
        let shorter = zeros.drop_last();
        assert forall|i: int| 0 <= i < shorter.len() implies #[trigger] shorter[i] == '0' by {
            assert(zeros[i] == '0');
        }
        lemma_zeros_are_nothing(shorter, radix);
        assert(zeros[zeros.len() - 1] == '0');
        assert(0 * radix == 0) by (nonlinear_arith);
    }
}

proof fn lemma_number_text_shape(n: nat, radix: nat)
    requires
        2 <= radix <= 16,
    ensures
        number_text(n, radix).len() >= 1,
        n > 0 ==> number_text(n, radix)[0] != '0',
        n == 0 ==> number_text(n, radix) == seq!['0'],
        forall|i: int|
            0 <= i < number_text(n, radix).len() ==> !('a' <= #[trigger] number_text(n, radix)[i]
                <= 'f'),
    decreases n,
{
    if n >= radix {
        assert(n / radix < n && n / radix > 0) by (nonlinear_arith)
            requires
                n >= radix >= 2,
        ;
        assert(n % radix < radix) by (nonlinear_arith)
            requires
                radix >= 2,
        ;
        lemma_number_text_shape(n / radix, radix);
        let before = number_text(n / radix, radix);
        let text = number_text(n, radix);
        assert(text[0] == before[0]);
        assert forall|i: int| 0 <= i < text.len() implies !('a' <= #[trigger] text[i] <= 'f') by {
            if i < before.len() {
                assert(text[i] == before[i]);
            }
        }
    }
}

/// Behind `0x` everything counts: a literal with it is read as the hexadecimal
/// number that follows, and not at all if what follows is none.
pub proof fn law_prefixed_literal(s: Seq<char>)
    requires
        s.len() > 0,
        !is_white_space(s.last()),
    ensures
        literal_of(seq!['0', 'x'] + s) == unsigned_of(s, 16),
        literal_of(seq!['0', 'X'] + s) == unsigned_of(s, 16),
        literal_of(seq!['0', 'x']) is None,
        literal_of(seq!['0', 'X']) is None,
{
    let none = Seq::<char>::empty();
    let small = seq!['0', 'x'] + s;
    law_trim_keeps_inner_text(none, small, none);
    assert(none + small + none =~= small);
    assert(small.skip(2) =~= s);
    let large = seq!['0', 'X'] + s;
    law_trim_keeps_inner_text(none, large, none);
    assert(none + large + none =~= large);
    assert(large.skip(2) =~= s);
    let bare = seq!['0', 'x'];
    law_trim_keeps_inner_text(none, bare, none);
    assert(none + bare + none =~= bare);
    let bare_large = seq!['0', 'X'];
    law_trim_keeps_inner_text(none, bare_large, none);
    assert(none + bare_large + none =~= bare_large);
}

/// A literal with a character in it that is no hexadecimal digit, behind its
/// first two, is none.
pub proof fn law_unreadable_literal(s: Seq<char>, i: int)
    requires
        2 <= i < s.len(),
        !is_digit(s[i], 16),
        s[2] != '+',
        !is_white_space(s[0]),
        !is_white_space(s.last()),
    ensures
        literal_of(s) is None,
{
    let none = Seq::<char>::empty();
    law_trim_keeps_inner_text(none, s, none);
    assert(none + s + none =~= s);
    law_what_is_no_number(s, 10, i);
    law_what_is_no_number(s, 16, i);
    let rest = s.skip(2);
    assert(rest[i - 2] == s[i]);
    law_what_is_no_number(rest, 16, i - 2);
}

} // verus!

//! Small work on text: comparison, decimal numbers, and bytes as text.

use vstd::prelude::*;
use vstd::utf8::{decode_utf8, encode_utf8, valid_utf8};

use crate::kv::same_bytes;

verus! {

/// Whether two texts are the same.
pub(crate) fn same_text(a: &str, b: &str) -> (r: bool)
    ensures
        r == (a@ == b@),
{
    proof {
        vstd::utf8::encode_utf8_decode_utf8(a@);
        vstd::utf8::encode_utf8_decode_utf8(b@);
    }
    same_bytes(a.as_bytes(), b.as_bytes())
}

/// The bytes as text, with a replacement mark for what is no UTF-8.
pub uninterp spec fn utf8_lossy(bytes: Seq<u8>) -> Seq<char>;

/// Calls `String::from_utf8_lossy` of std. Bytes that are UTF-8 throughout give their text.
#[verifier::external_body]
pub(crate) fn text_of_bytes(bytes: &[u8]) -> (r: String)
    ensures
        r@ == utf8_lossy(bytes@),
        valid_utf8(bytes@) ==> r@ == decode_utf8(bytes@),
{
    String::from_utf8_lossy(bytes).into_owned()
}

/// The decimal digit of a number below ten.
pub open spec fn digit_char(d: int) -> char {
    if d == 0 {
        '0'
    } else if d == 1 {
        '1'
    } else if d == 2 {
        '2'
    } else if d == 3 {
        '3'
    } else if d == 4 {
        '4'
    } else if d == 5 {
        '5'
    } else if d == 6 {
        '6'
    } else if d == 7 {
        '7'
    } else if d == 8 {
        '8'
    } else {
        '9'
    }
}

/// A number in decimal.
pub open spec fn decimal(n: nat) -> Seq<char>
    decreases n,
{
    if n < 10 {
        seq![digit_char(n as int)]
    } else {
        decimal(n / 10).push(digit_char((n % 10) as int))
    }
}

/// A number in decimal, with a minus sign where it is negative.
pub open spec fn signed_decimal(n: int) -> Seq<char> {
    if n < 0 {
        seq!['-'] + decimal((-n) as nat)
    } else {
        decimal(n as nat)
    }
}

/// The digit of a number below ten.
fn digit_text(d: u64) -> (r: &'static str)
    requires
        d < 10,
    ensures
        r@ == seq![digit_char(d as int)],
{
    proof {
        reveal_strlit("0");
        reveal_strlit("1");
        reveal_strlit("2");
        reveal_strlit("3");
        reveal_strlit("4");
        reveal_strlit("5");
        reveal_strlit("6");
        reveal_strlit("7");
        reveal_strlit("8");
        reveal_strlit("9");
    }
    match d {
        0 => "0",
        1 => "1",
        2 => "2",
        3 => "3",
        4 => "4",
        5 => "5",
        6 => "6",
        7 => "7",
        8 => "8",
        _ => "9",
    }
}

/// A number in decimal.
pub fn number_text(n: u64) -> (r: String)
    ensures
        r@ == decimal(n as nat),
    decreases n,
{
    if n < 10 {
        digit_text(n).to_owned()
    } else {
        let mut r = number_text(n / 10);
        r.append(digit_text(n % 10));
        assert(r@ =~= decimal(n as nat));
        r
    }
}

/// A number in decimal, with a minus sign where it is negative.
pub fn signed_text(n: i32) -> (r: String)
    ensures
        r@ == signed_decimal(n as int),
{
    if n < 0 {
        proof {
            reveal_strlit("-");
        }
        let mut r = "-".to_owned();
        let magnitude: i64 = -(n as i64);
        r.append(number_text(magnitude as u64).as_str());
        assert(r@ =~= signed_decimal(n as int));
        r
    } else {
        number_text(n as u64)
    }
}

/// A byte is a decimal digit.
pub open spec fn is_digit(b: u8) -> bool {
    0x30 <= b <= 0x39
}

/// Bytes are decimal digits throughout.
pub open spec fn all_digits(s: Seq<u8>) -> bool {
    forall|i: int| 0 <= i < s.len() ==> is_digit(#[trigger] s[i])
}

/// The number that a row of decimal digits stands for.
pub open spec fn digits_value(s: Seq<u8>) -> nat
    decreases s.len(),
{
    if s.len() == 0 {
        0
    } else {
        digits_value(s.drop_last()) * 10 + (s.last() - 0x30) as nat
    }
}

/// The digits of a number, behind a plus sign where there is one.
pub open spec fn unsigned_part(s: Seq<u8>) -> Seq<u8> {
    if s.len() > 0 && s[0] == 0x2B {
        s.skip(1)
    } else {
        s
    }
}

/// The 16-bit number that bytes stand for: a plus sign may come first, then there are digits, at
/// least one, and nothing else.
pub open spec fn u16_of(s: Seq<u8>) -> Option<u16> {
    let digits = unsigned_part(s);
    if digits.len() > 0 && all_digits(digits) && digits_value(digits) <= u16::MAX {
        Some(digits_value(digits) as u16)
    } else {
        None
    }
}

/// More digits make no smaller number.
proof fn lemma_digits_grow(s: Seq<u8>, n: int)
    requires
        0 <= n <= s.len(),
        all_digits(s),
    ensures
        digits_value(s.take(n)) <= digits_value(s),
    decreases s.len(),
{
    if n == s.len() {
        assert(s.take(n) =~= s);
    } else {
        let d = s.drop_last();
        assert forall|i: int| 0 <= i < d.len() implies is_digit(#[trigger] d[i]) by {
            assert(is_digit(s[i]));
        }
        lemma_digits_grow(d, n);
        assert(d.take(n) =~= s.take(n));
        assert(is_digit(s[s.len() - 1]));
    }
}

/// Reads a 16-bit number.
pub fn parse_u16(text: &str) -> (r: Option<u16>)
    ensures
        r == u16_of(encode_utf8(text@)),
{
    let bytes = text.as_bytes();
    let ghost all = bytes@;
    let start: usize = if bytes.len() > 0 && bytes[0] == 0x2B {
        1
    } else {
        0
    };
    let ghost digits = unsigned_part(all);
    proof {
        assert(all.skip(0) =~= all);
        assert(digits =~= all.skip(start as int));
    }
    if start == bytes.len() {
        return None;
    }
    let mut value: u32 = 0;
    let mut i: usize = start;
    assert(digits.take(0) =~= Seq::empty());
    while i < bytes.len()
        invariant
            start <= i <= bytes@.len(),
            all == bytes@,
            all == encode_utf8(text@),
            digits == unsigned_part(all),
            digits == all.skip(start as int),
            value == digits_value(digits.take(i - start)),
            value <= u16::MAX,
            forall|j: int| 0 <= j < i - start ==> is_digit(#[trigger] digits[j]),
        decreases bytes@.len() - i,
    {
        let b: u8 = bytes[i];
        assert(digits[i - start] == b);
        if b < 0x30 || b > 0x39 {
            assert(!all_digits(digits));
            return None;
        }
        assert(digits.take(i - start + 1).drop_last() =~= digits.take(i - start));
        value = value * 10 + (b - 0x30) as u32;
        if value > 65535 {
            proof {
                if all_digits(digits) {
                    lemma_digits_grow(digits, i - start + 1);
                }
            }
            return None;
        }
        i += 1;
    }
    assert(digits.take(i - start) =~= digits);
    Some(value as u16)
}

/// A number in decimal reads as the number, with a plus sign before it or without.
pub proof fn law_decimal_reads_back(n: u16, digits: Seq<u8>)
    requires
        digits.len() == decimal(n as nat).len(),
        forall|i: int|
            0 <= i < digits.len() ==> #[trigger] digits[i] as int == decimal(n as nat)[i] as int,
    ensures
        u16_of(digits) == Some(n),
        u16_of(seq![0x2Bu8] + digits) == Some(n),
{
    lemma_decimal_digits(n as nat, digits);
    assert(digits[0] != 0x2B) by {
        assert(is_digit(digits[0]));
    }
    assert((seq![0x2Bu8] + digits).skip(1) =~= digits);
}

/// The digits of a number in decimal are digits, and stand for the number.
proof fn lemma_decimal_digits(n: nat, digits: Seq<u8>)
    requires
        digits.len() == decimal(n).len(),
        forall|i: int| 0 <= i < digits.len() ==> #[trigger] digits[i] as int == decimal(n)[i] as int,
    ensures
        digits.len() > 0,
        all_digits(digits),
        digits_value(digits) == n,
    decreases n,
{
    let d = digits.drop_last();
    if n < 10 {
        assert(digits[0] as int == digit_char(n as int) as int);
        assert(d =~= Seq::empty());
        assert(digits.last() == digits[0]);
        assert(digits_value(d) == 0);
    } else {
        let whole = decimal(n);
        assert(whole.drop_last() =~= decimal(n / 10));
        assert forall|i: int| 0 <= i < d.len() implies #[trigger] d[i] as int == decimal(
            n / 10,
        )[i] as int by {
            assert(digits[i] as int == whole[i] as int);
        }
        lemma_decimal_digits(n / 10, d);
        assert(digits[digits.len() - 1] as int == digit_char((n % 10) as int) as int);
        assert forall|i: int| 0 <= i < digits.len() implies is_digit(#[trigger] digits[i]) by {
            if i < d.len() {
                assert(is_digit(d[i]));
            }
        }
    }
}

/// Bytes stand for a number only where they are digits throughout, at least one, behind one plus
/// sign at most, and the number fits in 16 bits.
pub proof fn law_other_bytes_are_no_number(s: Seq<u8>, i: int)
    ensures
        s.len() == 0 ==> u16_of(s) is None,
        s.len() == 1 && s[0] == 0x2B ==> u16_of(s) is None,
        0 <= i < s.len() && !(0x30 <= s[i] <= 0x39) && !(i == 0 && s[0] == 0x2B) ==> u16_of(s) is None,
{
    if 0 <= i < s.len() && !(0x30 <= s[i] <= 0x39) && !(i == 0 && s[0] == 0x2B) {
        let digits = unsigned_part(s);
        if s[0] == 0x2B {
            assert(digits[i - 1] == s[i]);
            assert(!is_digit(digits[i - 1]));
        } else {
            assert(!is_digit(digits[i]));
        }
    }
}

/// A negative number has a minus sign before it.
pub proof fn law_negative_numbers_have_a_sign(n: nat)
    ensures
        n > 0 ==> signed_decimal(-(n as int)) == seq!['-'] + decimal(n),
        signed_decimal(n as int) == decimal(n),
{
}

/// A number in decimal is that of its tens, followed by the digit of its ones.
pub proof fn law_decimal_goes_digit_by_digit(n: nat, d: nat)
    requires
        d < 10,
    ensures
        decimal(d) == seq![digit_char(d as int)],
        n > 0 ==> decimal(10 * n + d) == decimal(n).push(digit_char(d as int)),
        digit_char(d as int) as int == 0x30 + d,
{
    assert((10 * n + d) / 10 == n && (10 * n + d) % 10 == d) by (nonlinear_arith)
        requires
            d < 10,
    ;
}

} // verus!

//! Text helpers: comparing string slices and reading or writing decimal numbers.

use vstd::prelude::*;
use vstd::string::{StringExecFns, StringSliceAdditionalSpecFns};
use vstd::utf8::{encode_utf8, encode_utf8_decode_utf8, is_ascii_chars, is_ascii_chars_encode_utf8};

verus! {

/// Two character sequences with the same UTF-8 encoding are the same sequence.
pub proof fn lemma_encoding_is_injective(a: Seq<char>, b: Seq<char>)
    requires
        encode_utf8(a) == encode_utf8(b),
    ensures
        a == b,
{
    encode_utf8_decode_utf8(a);
    encode_utf8_decode_utf8(b);
}

/// Compares two string slices character by character.
pub fn same_text(a: &str, b: &str) -> (same: bool)
    ensures
        same == (a@ == b@),
{
    let x = a.as_bytes();
    let y = b.as_bytes();
    if x.len() != y.len() {
        return false;
    }
    let mut i: usize = 0;
    while i < x.len()
        invariant
            i <= x.len(),
            x.len() == y.len(),
            x@ == a.spec_bytes(),
            y@ == b.spec_bytes(),
            forall|k: int| 0 <= k < i ==> x@[k] == y@[k],
        decreases x.len() - i,
    {
        if x[i] != y[i] {
            return false;
        }
        i += 1;
    }
    proof {
        assert(x@ =~= y@);
        lemma_encoding_is_injective(a@, b@);
    }
    true
}

/// Whether a byte is one of the ten decimal digits.
pub open spec fn is_digit(byte: u8) -> bool {
    48 <= byte <= 57
}

/// Whether every byte is a decimal digit.
pub open spec fn all_digits(digits: Seq<u8>) -> bool {
    forall|i: int| 0 <= i < digits.len() ==> is_digit(#[trigger] digits[i])
}

/// The number that a sequence of decimal digits writes, most significant first.
pub open spec fn digits_value(digits: Seq<u8>) -> nat
    decreases digits.len(),
{
    if digits.len() == 0 {
        0
    } else {
        10 * digits_value(digits.drop_last()) + (digits.last() - 48) as nat
    }
}

/// The text without a leading plus sign, if it has one.
pub open spec fn without_plus(text: Seq<u8>) -> Seq<u8> {
    if text.len() > 0 && text[0] == 43 {
        text.drop_first()
    } else {
        text
    }
}

/// The number that a text writes in decimal: an optional plus sign, then one or
/// more digits and nothing else. Leading zeros are allowed; a minus sign, blanks
/// and an empty text are not.
pub open spec fn decimal_value(text: Seq<u8>) -> Option<nat> {
    let digits = without_plus(text);
    if digits.len() > 0 && all_digits(digits) {
        Some(digits_value(digits))
    } else {
        None
    }
}

/// The machine-sized number that a text writes in decimal, if it writes one that
/// fits.
pub open spec fn parsed_usize(text: Seq<u8>) -> Option<usize> {
    match decimal_value(text) {
        Some(value) => if value <= usize::MAX {
            Some(value as usize)
        } else {
            None
        },
        None => None,
    }
}

/// The digits read so far never write more than all the digits do.
pub proof fn lemma_digits_value_grows(digits: Seq<u8>, k: int)
    requires
        0 <= k <= digits.len(),
        all_digits(digits),
    ensures
        digits_value(digits.take(k)) <= digits_value(digits),
    decreases digits.len(),
{
    if k < digits.len() {
        let shorter = digits.drop_last();
        assert(shorter.take(k) =~= digits.take(k));
        assert(all_digits(shorter)) by {
            assert forall|i: int| 0 <= i < shorter.len() implies is_digit(#[trigger] shorter[i]) by {
                assert(shorter[i] == digits[i]);
            }
        }
        lemma_digits_value_grows(shorter, k);
        assert(is_digit(digits[digits.len() - 1]));
    } else {
        assert(digits.take(k) =~= digits);
    }
}

/// Reads a machine-sized number from its decimal text. The text is refused when
/// it is empty, holds anything but digits after an optional plus sign, or writes
/// a number that does not fit.
pub fn parse_usize(text: &str) -> (parsed: Option<usize>)
    ensures
        parsed == parsed_usize(text.spec_bytes()),
{
    let bytes = text.as_bytes();
    let start: usize = if bytes.len() > 0 && bytes[0] == 43 {
        1
    } else {
        0
    };
    let ghost digits = without_plus(bytes@);
    if start == bytes.len() {
        return None;
    }
    let mut value: usize = 0;
    let mut i: usize = start;
    proof {
        assert(digits.take(0) =~= Seq::<u8>::empty());
    }
    while i < bytes.len()
        invariant
            start <= i <= bytes.len(),
            start <= 1,
            bytes@ == text.spec_bytes(),
            digits == without_plus(bytes@),
            digits.len() == bytes.len() - start,
            forall|k: int| 0 <= k < digits.len() ==> digits[k] == bytes@[k + start],
            forall|k: int| 0 <= k < i - start ==> is_digit(#[trigger] digits[k]),
            value == digits_value(digits.take(i - start)),
        decreases bytes.len() - i,
    {
        let byte = bytes[i];
        if byte < 48 || byte > 57 {
            proof {
                assert(!is_digit(digits[i - start]));
            }
            return None;
        }
        let ghost longer = digits.take(i - start + 1);
        proof {
            assert(longer.drop_last() =~= digits.take(i - start));
            assert(longer.last() == byte);
            if 10 * value + (byte - 48) > usize::MAX {
                if all_digits(digits) {
                    lemma_digits_value_grows(digits, i - start + 1);
                }
            }
        }
        let scaled = match value.checked_mul(10) {
            Some(scaled) => scaled,
            None => {
                return None;
            },
        };
        value = match scaled.checked_add((byte - 48) as usize) {
            Some(sum) => sum,
            None => {
                return None;
            },
        };
        i += 1;
    }
    proof {
        assert(digits.take(i - start) =~= digits);
    }
    Some(value)
}

/// The character that writes a digit.
pub open spec fn digit_char(digit: nat) -> char {
    (48 + digit) as char
}

/// The decimal text of a number: its digits, most significant first, without
/// sign or leading zeros; a single zero for zero.
pub open spec fn decimal_chars(value: nat) -> Seq<char>
    decreases value,
{
    if value < 10 {
        seq![digit_char(value)]
    } else {
        decimal_chars(value / 10).push(digit_char(value % 10))
    }
}

/// The characters of digits that are stored least significant first, in the
/// order in which they are written.
spec fn written(low_first: Seq<u8>) -> Seq<char> {
    Seq::new(low_first.len(), |i: int| digit_char(low_first[low_first.len() - 1 - i] as nat))
}

/// The one-character text of a digit.
fn digit_text(digit: u8) -> (text: &'static str)
    requires
        digit < 10,
    ensures
        text@ == seq![digit_char(digit as nat)],
{
    proof {
        reveal_strlit("0");
        reveal_strlit("1");
        reveal_strlit("2");
        reveal_strlit("3");
        reveal_strlit("4");
        reveal_strlit("5");
        reveal_strlit("6");
        reveal_strlit("7");
        reveal_strlit("8");
        reveal_strlit("9");
    }
    let text = match digit {
        0 => "0",
        1 => "1",
        2 => "2",
        3 => "3",
        4 => "4",
        5 => "5",
        6 => "6",
        7 => "7",
        8 => "8",
        _ => "9",
    };
    assert(text@ =~= seq![digit_char(digit as nat)]);
    text
}

/// Writes a number in decimal.
pub fn decimal_text(value: usize) -> (text: String)
    ensures
        text@ == decimal_chars(value as nat),
{
    let mut digits: Vec<u8> = Vec::new();
    let mut rest: usize = value;
    proof {
        assert(decimal_chars(rest as nat) + written(digits@) =~= decimal_chars(value as nat));
    }
    loop
        invariant_except_break
            decimal_chars(value as nat) == decimal_chars(rest as nat) + written(digits@),
        invariant
            forall|k: int| 0 <= k < digits@.len() ==> digits@[k] < 10,
        ensures
            decimal_chars(value as nat) == written(digits@),
        decreases rest,
    {
        let digit: u8 = (rest % 10) as u8;
        let ghost stored = digits@;
        digits.push(digit);
        proof {
            assert(written(digits@) =~= seq![digit_char(digit as nat)] + written(stored));
        }
        if rest < 10 {
            proof {
                assert(decimal_chars(value as nat) =~= written(digits@));
            }
            break;
        }
        proof {
            let front = decimal_chars((rest / 10) as nat);
            assert(decimal_chars(rest as nat) == front.push(digit_char(digit as nat)));
            assert(front.push(digit_char(digit as nat)) + written(stored) =~= front + written(
                digits@,
            ));
        }
        rest = rest / 10;
    }
    let mut text = String::new();
    let mut i: usize = digits.len();
    while i > 0
        invariant
            i <= digits@.len(),
            forall|k: int| 0 <= k < digits@.len() ==> digits@[k] < 10,
            text@ == written(digits@).take(digits@.len() - i),
        decreases i,
    {
        i -= 1;
        let ghost so_far = text@;
        text.append(digit_text(digits[i]));
        proof {
            assert(text@ =~= written(digits@).take(digits@.len() - i));
        }
    }
    proof {
        assert(written(digits@).take(digits@.len() as int) =~= written(digits@));
    }
    text
}

/// The decimal text of a number consists of digits, at least one, and they write
/// that number.
pub proof fn lemma_decimal_chars_are_digits(value: nat)
    ensures
        decimal_chars(value).len() > 0,
        is_ascii_chars(decimal_chars(value)),
        all_digits(decimal_chars(value).map_values(|c: char| c as u8)),
        digits_value(decimal_chars(value).map_values(|c: char| c as u8)) == value,
    decreases value,
{
    let chars = decimal_chars(value);
    let bytes = chars.map_values(|c: char| c as u8);
    if value < 10 {
        assert(bytes.drop_last() =~= Seq::<u8>::empty());
        assert(digits_value(bytes.drop_last()) == 0);
    } else {
        let front = decimal_chars(value / 10);
        lemma_decimal_chars_are_digits(value / 10);
        assert(bytes.drop_last() =~= front.map_values(|c: char| c as u8));
        assert(bytes.last() == 48 + value % 10);
        assert forall|i: int| 0 <= i < bytes.len() implies is_digit(#[trigger] bytes[i]) by {
            if i < front.len() {
                assert(bytes[i] == front.map_values(|c: char| c as u8)[i]);
            }
        }
        assert forall|i: int| 0 <= i < chars.len() implies '\0' <= #[trigger] chars[i]
            <= '\u{7f}' by {
            if i < front.len() {
                assert(chars[i] == front[i]);
            }
        }
    }
}

/// Reading the decimal text of a number that fits gives the number back.
pub proof fn lemma_parse_inverts_decimal(value: usize)
    ensures
        parsed_usize(encode_utf8(decimal_chars(value as nat))) == Some(value),
{
    let chars = decimal_chars(value as nat);
    let bytes = encode_utf8(chars);
    lemma_decimal_chars_are_digits(value as nat);
    is_ascii_chars_encode_utf8(chars);
    assert(bytes =~= chars.map_values(|c: char| c as u8));
    assert(is_digit(bytes[0]));
    assert(without_plus(bytes) == bytes);
}

} // verus!

//! The text form of a count: an unsigned decimal numeral.
//!
//! A count is written as its decimal digits, most significant first, with no
//! sign and no leading zero. It is read back from any numeral made of an
//! optional `+` and one or more digits whose value fits in 32 bits; leading
//! zeros are accepted, anything else is not a count.

use vstd::prelude::*;
use vstd::utf8::*;

verus! {

/// True when `c` is one of the ten ASCII decimal digits.
pub open spec fn is_digit(c: char) -> bool {
    '0' <= c && c <= '9'
}

/// The number that the digit `c` stands for.
pub open spec fn digit_value(c: char) -> nat
    recommends
        is_digit(c),
{
    (c as u32 - '0' as u32) as nat
}

/// The digit that stands for `d`.
pub open spec fn digit_char(d: nat) -> char
    recommends
        d < 10,
{
    ((d + 48) as u8) as char
}

/// True when every character of `text` is a decimal digit.
pub open spec fn all_digits(text: Seq<char>) -> bool {
    forall|i: int| 0 <= i < text.len() ==> is_digit(#[trigger] text[i])
}

/// The value of a run of digits read as a decimal numeral, most significant
/// digit first. The empty run has value zero.
pub open spec fn digits_value(text: Seq<char>) -> nat
    decreases text.len(),
{
    if text.len() == 0 {
        0
    } else {
        10 * digits_value(text.drop_last()) + digit_value(text.last())
    }
}

/// The digits of a numeral: the text without its optional leading `+`.
pub open spec fn numeral_digits(text: Seq<char>) -> Seq<char> {
    if text.len() > 0 && text[0] == '+' {
        text.subrange(1, text.len() as int)
    } else {
        text
    }
}

/// The count that `text` denotes, if it denotes one: an optional `+`, then at
/// least one digit and nothing but digits, with a value of at most `u32::MAX`.
pub open spec fn parse_count(text: Seq<char>) -> Option<u32> {
    let digits = numeral_digits(text);
    if digits.len() > 0 && all_digits(digits) && digits_value(digits) <= u32::MAX {
        Some(digits_value(digits) as u32)
    } else {
        None
    }
}

/// The text that `bytes` hold, when they are well-formed UTF-8.
pub open spec fn utf8_text(bytes: Seq<u8>) -> Option<Seq<char>> {
    if valid_utf8(bytes) {
        Some(decode_utf8(bytes))
    } else {
        None
    }
}

/// The count written in `bytes`: they decode as UTF-8 to a text that denotes
/// a count.
pub open spec fn parse_count_utf8(bytes: Seq<u8>) -> Option<u32> {
    match utf8_text(bytes) {
        Some(text) => parse_count(text),
        None => None,
    }
}

/// The decimal numeral of `n`: its digits, most significant first, without a
/// sign and without leading zeros (`0` itself is the one digit `0`).
pub open spec fn decimal_text(n: nat) -> Seq<char>
    decreases n,
{
    if n < 10 {
        seq![digit_char(n)]
    } else {
        decimal_text(n / 10).push(digit_char(n % 10))
    }
}

/// A digit names the number it was made from.
pub proof fn lemma_digit_char(d: nat)
    requires
        d < 10,
    ensures
        is_digit(digit_char(d)),
        digit_value(digit_char(d)) == d,
        digit_char(d) != '+',
{
}

/// The numeral of a number is a non-empty run of digits whose value is that
/// number, and only the numeral of zero begins with the digit `0`.
pub proof fn lemma_decimal_text_value(n: nat)
    ensures
        decimal_text(n).len() > 0,
        all_digits(decimal_text(n)),
        digits_value(decimal_text(n)) == n,
        decimal_text(n)[0] == '0' <==> n == 0,
    decreases n,
{
    lemma_digit_char(n % 10);
    if n < 10 {
        let text = decimal_text(n);
        assert(text.drop_last() =~= Seq::<char>::empty());
        assert(digits_value(text.drop_last()) == 0);
    } else {
        lemma_decimal_text_value(n / 10);
        let head = decimal_text(n / 10);
        let text = head.push(digit_char(n % 10));
        assert(text.drop_last() =~= head);
        assert(text.last() == digit_char(n % 10));
        assert(text[0] == head[0]);
    }
}

/// Reading back the numeral of a count gives that count.
pub proof fn lemma_parse_decimal_text(n: u32)
    ensures
        parse_count(decimal_text(n as nat)) == Some(n),
{
    lemma_decimal_text_value(n as nat);
    let text = decimal_text(n as nat);
    assert(is_digit(text[0]));
    assert(numeral_digits(text) == text);
}

/// True when every byte is an ASCII code.
pub open spec fn is_ascii_bytes(bytes: Seq<u8>) -> bool {
    forall|i: int| 0 <= i < bytes.len() ==> #[trigger] bytes[i] < 128
}

/// The text of ASCII bytes: each byte is the code of one character.
pub open spec fn ascii_text(bytes: Seq<u8>) -> Seq<char> {
    Seq::new(bytes.len(), |i: int| bytes[i] as char)
}

/// ASCII bytes are well-formed UTF-8 and decode byte by byte.
pub proof fn lemma_ascii_bytes_decode(bytes: Seq<u8>)
    requires
        is_ascii_bytes(bytes),
    ensures
        utf8_text(bytes) == Some(ascii_text(bytes)),
{
    let text = ascii_text(bytes);
    assert(is_ascii_chars(text));
    is_ascii_chars_encode_utf8(text);
    assert(encode_utf8(text) =~= bytes);
    encode_utf8_valid_utf8(text);
    encode_utf8_decode_utf8(text);
}

/// Bytes that decode to ASCII text are ASCII bytes.
pub proof fn lemma_ascii_text_encode(bytes: Seq<u8>)
    requires
        valid_utf8(bytes),
        is_ascii_chars(decode_utf8(bytes)),
    ensures
        is_ascii_bytes(bytes),
        decode_utf8(bytes) == ascii_text(bytes),
{
    let text = decode_utf8(bytes);
    decode_utf8_encode_utf8(bytes);
    is_ascii_chars_encode_utf8(text);
    assert(forall|i: int| 0 <= i < bytes.len() ==> bytes[i] == text[i] as u8);
    assert(text =~= ascii_text(bytes));
}

/// A text that denotes a count is made of ASCII characters.
pub proof fn lemma_count_text_is_ascii(text: Seq<char>)
    requires
        parse_count(text) is Some,
    ensures
        is_ascii_chars(text),
{
    let digits = numeral_digits(text);
    assert forall|i: int| 0 <= i < text.len() implies '\0' <= #[trigger] text[i] <= '\u{7f}' by {
        if text[0] == '+' {
            if i > 0 {
                assert(is_digit(digits[i - 1]));
            }
        } else {
            assert(is_digit(digits[i]));
        }
    }
}

/// Bytes hold a count exactly when they are ASCII and their text denotes one.
pub proof fn lemma_parse_count_utf8_ascii(bytes: Seq<u8>)
    ensures
        parse_count_utf8(bytes) == if is_ascii_bytes(bytes) {
            parse_count(ascii_text(bytes))
        } else {
            None
        },
{
    if is_ascii_bytes(bytes) {
        lemma_ascii_bytes_decode(bytes);
    } else if parse_count_utf8(bytes) is Some {
        lemma_count_text_is_ascii(decode_utf8(bytes));
        lemma_ascii_text_encode(bytes);
    }
}

/// A prefix of a run of digits has no greater value than the whole run.
pub proof fn lemma_digits_value_prefix(text: Seq<char>, k: int)
    requires
        0 <= k <= text.len(),
    ensures
        digits_value(text.subrange(0, k)) <= digits_value(text),
    decreases text.len(),
{
    if k == text.len() {
        assert(text.subrange(0, k) =~= text);
    } else {
        assert(text.drop_last().subrange(0, k) =~= text.subrange(0, k));
        lemma_digits_value_prefix(text.drop_last(), k);
    }
}

/// Reads the count written in `bytes`, if they hold one.
pub fn read_count(bytes: &[u8]) -> (count: Option<u32>)
    ensures
        count == parse_count_utf8(bytes@),
{
    let n = bytes.len();
    let start: usize = if n > 0 && bytes[0] == 43 { 1 } else { 0 };
    let ghost text = ascii_text(bytes@);
    let ghost digits = numeral_digits(text);
    proof {
        lemma_parse_count_utf8_ascii(bytes@);
        assert(digits.len() == n - start);
        assert(forall|j: int| 0 <= j < digits.len() ==> digits[j] == bytes@[start + j] as char);
    }
    if start == n {
        return None;
    }
    let mut value: u64 = 0;
    let mut i: usize = start;
    while i < n
        invariant
            start <= i <= n,
            n == bytes@.len(),
            digits.len() == n - start,
            forall|j: int| 0 <= j < digits.len() ==> digits[j] == bytes@[start + j] as char,
            forall|j: int| start <= j < i ==> 48 <= #[trigger] bytes@[j] <= 57,
            value == digits_value(digits.subrange(0, i - start)),
            value <= u32::MAX,
            digits == numeral_digits(ascii_text(bytes@)),
            parse_count_utf8(bytes@) == if is_ascii_bytes(bytes@) {
                parse_count(ascii_text(bytes@))
            } else {
                None
            },
        decreases n - i,
    {
        let byte = bytes[i];
        if byte < 48 || byte > 57 {
            proof {
                if is_ascii_bytes(bytes@) {
                    assert(!is_digit(digits[i - start]));
                }
            }
            return None;
        }
        proof {
            let longer = digits.subrange(0, i + 1 - start);
            assert(longer.drop_last() =~= digits.subrange(0, i - start));
            assert(longer.last() == byte as char);
            assert(digit_value(byte as char) == byte - 48);
        }
        value = value * 10 + (byte - 48) as u64;
        if value > 0xffff_ffff {
            proof {
                lemma_digits_value_prefix(digits, i + 1 - start);
            }
            return None;
        }
        i += 1;
    }
    proof {
        assert(digits.subrange(0, n - start) =~= digits);
        assert(is_ascii_bytes(bytes@)) by {
            assert forall|j: int| 0 <= j < bytes@.len() implies #[trigger] bytes@[j] < 128 by {
                if j >= start {
                    assert(48 <= bytes@[j] <= 57);
                }
            }
        }
        assert(all_digits(digits));
    }
    Some(value as u32)
}

/// The one-character text of the digit that stands for `d`.
fn digit_str(d: u32) -> (text: &'static str)
    requires
        d < 10,
    ensures
        text@ == seq![digit_char(d as nat)],
{
    let digits = "0123456789";
    proof {
        reveal_strlit("0123456789");
        assert(digits.is_ascii());
    }
    let text = digits.substring_ascii(d as usize, d as usize + 1);
    assert(text@ =~= seq![digit_char(d as nat)]);
    text
}

/// Appends the decimal numeral of `n` to `out`.
fn push_decimal(out: &mut String, n: u32)
    ensures
        final(out)@ == old(out)@ + decimal_text(n as nat),
    decreases n,
{
    if n >= 10 {
        push_decimal(out, n / 10);
    }
    out.append(digit_str(n % 10));
    assert(out@ =~= old(out)@ + decimal_text(n as nat));
}

/// Writes a count as its decimal numeral.
pub fn encode_count(n: u32) -> (text: String)
    ensures
        text@ == decimal_text(n as nat),
{
    let mut text = String::new();
    push_decimal(&mut text, n);
    assert(text@ =~= decimal_text(n as nat));
    text
}

} // verus!

//! Text helpers: comparing, formatting and parsing over character sequences.
use vstd::prelude::*;
use vstd::string::*;
use vstd::utf8::{decode_utf8, valid_utf8};

verus! {

/// `String::push`: the character is appended at the end.
pub assume_specification[ String::push ](text: &mut String, ch: char)
    ensures
        final(text)@ == old(text)@.push(ch),
;

/// What is said of bytes that are not valid UTF-8.
pub uninterp spec fn utf8_error_of(bytes: Seq<u8>) -> Seq<char>;

/// `std::str::from_utf8`: bytes are a text exactly where they are valid UTF-8, and the
/// text is what they encode. What is said of other bytes depends on them alone; the words
/// are left unsaid.
#[verifier::external_body]
pub(crate) fn utf8_text(bytes: &[u8]) -> (text: Result<String, String>)
    ensures
        text is Ok <==> valid_utf8(bytes@),
        text matches Ok(text) ==> text@ == decode_utf8(bytes@),
        text matches Err(error) ==> error@ == utf8_error_of(bytes@),
{
    match std::str::from_utf8(bytes) {
        Ok(text) => Ok(text.to_owned()),
        Err(error) => Err(error.to_string()),
    }
}

/// The text that bytes give when what is not valid UTF-8 is replaced.
pub uninterp spec fn lossy_text_of(bytes: Seq<u8>) -> Seq<char>;

/// `String::from_utf8_lossy`: the text depends on the bytes alone, and is what they encode
/// where they are valid UTF-8. How invalid bytes are replaced is left unsaid.
#[verifier::external_body]
pub(crate) fn lossy_text(bytes: &[u8]) -> (text: String)
    ensures
        text@ == lossy_text_of(bytes@),
        valid_utf8(bytes@) ==> text@ == decode_utf8(bytes@),
{
    String::from_utf8_lossy(bytes).into_owned()
}

/// The characters with the Unicode property White_Space.
pub open spec fn is_space(ch: char) -> bool {
    ||| 0x09 <= ch as u32 <= 0x0d
    ||| ch as u32 == 0x20
    ||| ch as u32 == 0x85
    ||| ch as u32 == 0xa0
    ||| ch as u32 == 0x1680
    ||| 0x2000 <= ch as u32 <= 0x200a
    ||| ch as u32 == 0x2028
    ||| ch as u32 == 0x2029
    ||| ch as u32 == 0x202f
    ||| ch as u32 == 0x205f
    ||| ch as u32 == 0x3000
}

/// Whether `ch` separates words.
pub fn is_blank(ch: char) -> (blank: bool)
    ensures
        blank == is_space(ch),
{
    let code: u32 = ch as u32;
    (0x09 <= code && code <= 0x0d) || code == 0x20 || code == 0x85 || code == 0xa0 || code
        == 0x1680 || (0x2000 <= code && code <= 0x200a) || code == 0x2028 || code == 0x2029
        || code == 0x202f || code == 0x205f || code == 0x3000
}

/// The character of a decimal or hexadecimal digit.
pub open spec fn digit_char_of(digit: int) -> char {
    if digit < 10 {
        (48 + digit) as char
    } else {
        (87 + digit) as char
    }
}

/// The digits of `value` in base ten, most significant first.
pub open spec fn decimal_of(value: nat) -> Seq<char>
    decreases value,
{
    if value < 10 {
        seq![digit_char_of(value as int)]
    } else {
        decimal_of(value / 10).push(digit_char_of((value % 10) as int))
    }
}

/// The lower-case digits of `value` in base sixteen, most significant first.
pub open spec fn hex_of(value: nat) -> Seq<char>
    decreases value,
{
    if value < 16 {
        seq![digit_char_of(value as int)]
    } else {
        hex_of(value / 16).push(digit_char_of((value % 16) as int))
    }
}

/// A signed number in base ten.
pub open spec fn signed_decimal_of(value: int) -> Seq<char> {
    if value < 0 {
        seq!['-'] + decimal_of((-value) as nat)
    } else {
        decimal_of(value as nat)
    }
}

/// Whether `ch` is one of `0` to `9`.
pub open spec fn is_decimal_digit(ch: char) -> bool {
    '0' <= ch <= '9'
}

/// The number that a row of decimal digits stands for.
pub open spec fn decimal_value(digits: Seq<char>) -> nat
    decreases digits.len(),
{
    if digits.len() == 0 {
        0
    } else {
        decimal_value(digits.drop_last()) * 10 + (digits.last() as nat - 48) as nat
    }
}

/// The digits behind an optional leading plus sign.
pub open spec fn unsigned_body(text: Seq<char>) -> Seq<char> {
    if text.len() > 0 && text[0] == '+' {
        text.skip(1)
    } else {
        text
    }
}

/// The value of an unsigned decimal number not above `limit`, if `text` is one.
pub open spec fn unsigned_value(text: Seq<char>, limit: nat) -> Option<nat> {
    let digits = unsigned_body(text);
    if digits.len() > 0 && (forall|i: int|
        0 <= i < digits.len() ==> is_decimal_digit(#[trigger] digits[i])) && decimal_value(digits)
        <= limit {
        Some(decimal_value(digits))
    } else {
        None
    }
}

proof fn lemma_decimal_digits(value: nat)
    ensures
        decimal_of(value).len() > 0,
        forall|i: int|
            0 <= i < decimal_of(value).len() ==> is_decimal_digit(#[trigger] decimal_of(value)[i]),
        decimal_value(decimal_of(value)) == value,
    decreases value,
{
    reveal_with_fuel(decimal_value, 2);
    if value < 10 {
        assert(decimal_of(value).drop_last() =~= Seq::empty());
    } else {
        lemma_decimal_digits(value / 10);
        assert(decimal_of(value).drop_last() =~= decimal_of(value / 10));
    }
}

/// A number that was written in base ten is read back.
pub proof fn law_decimals_are_read_back(value: nat, limit: nat)
    ensures
        unsigned_value(decimal_of(value), limit) == if value <= limit {
            Some(value)
        } else {
            None
        },
{
    lemma_decimal_digits(value);
    assert(is_decimal_digit(decimal_of(value)[0]));
    assert(unsigned_body(decimal_of(value)) == decimal_of(value));
}

/// Whether two texts hold the same characters.
pub fn text_eq(left: &str, right: &str) -> (same: bool)
    ensures
        same == (left@ == right@),
{
    left.to_owned() == right.to_owned()
}

/// The characters of a text.
pub fn chars_of(text: &str) -> (chars: Vec<char>)
    ensures
        chars@ == text@,
{
    let mut chars: Vec<char> = Vec::new();
    for ch in iter: text.chars()
        invariant
            chars@ == iter.seq().take(iter.index()),
            iter.seq() == text@,
    {
        chars.push(ch);
    }
    assert(chars@ =~= text@);
    chars
}

/// The text that a row of characters spells.
pub fn text_of(chars: &[char]) -> (text: String)
    ensures
        text@ == chars@,
{
    let mut text: String = String::new();
    let mut i: usize = 0;
    while i < chars.len()
        invariant
            i <= chars.len(),
            text@ == chars@.take(i as int),
        decreases chars.len() - i,
    {
        text.push(chars[i]);
        assert(chars@.take(i + 1) =~= chars@.take(i as int).push(chars@[i as int]));
        i = i + 1;
    }
    assert(chars@.take(i as int) =~= chars@);
    text
}

fn digit_char(digit: u8) -> (ch: char)
    requires
        digit < 16,
    ensures
        ch == digit_char_of(digit as int),
{
    if digit < 10 {
        (48 + digit) as char
    } else {
        (87 + digit) as char
    }
}

/// `value` in base ten.
pub fn decimal(value: u64) -> (text: String)
    ensures
        text@ == decimal_of(value as nat),
{
    wide_decimal(value as u128)
}

/// `value` in base ten, for sums that a word cannot hold.
pub fn wide_decimal(value: u128) -> (text: String)
    ensures
        text@ == decimal_of(value as nat),
    decreases value,
{
    if value < 10 {
        let mut text: String = String::new();
        text.push(digit_char(value as u8));
        assert(text@ =~= decimal_of(value as nat));
        text
    } else {
        let mut text: String = wide_decimal(value / 10);
        text.push(digit_char((value % 10) as u8));
        text
    }
}

/// `value` in base sixteen.
pub fn hexadecimal(value: u64) -> (text: String)
    ensures
        text@ == hex_of(value as nat),
    decreases value,
{
    if value < 16 {
        let mut text: String = String::new();
        text.push(digit_char(value as u8));
        assert(text@ =~= hex_of(value as nat));
        text
    } else {
        let mut text: String = hexadecimal(value / 16);
        text.push(digit_char((value % 16) as u8));
        text
    }
}

/// `value` in base ten, with a sign when it is negative.
pub fn signed_decimal(value: i64) -> (text: String)
    ensures
        text@ == signed_decimal_of(value as int),
{
    if value < 0 {
        let magnitude: u64 = if value == i64::MIN {
            9223372036854775808u64
        } else {
            (-value) as u64
        };
        let mut text: String = String::new();
        text.push('-');
        text.append(decimal(magnitude).as_str());
        assert(text@ =~= signed_decimal_of(value as int));
        text
    } else {
        decimal(value as u64)
    }
}

/// Reads an unsigned decimal number: an optional plus sign, then digits only.
pub fn parse_u64(text: &str) -> (value: Option<u64>)
    ensures
        value is Some <==> unsigned_value(text@, u64::MAX as nat) is Some,
        value is Some ==> value->0 == unsigned_value(text@, u64::MAX as nat)->0,
{
    let chars: Vec<char> = chars_of(text);
    let start: usize = if chars.len() > 0 && chars[0] == '+' {
        1
    } else {
        0
    };
    let ghost digits = unsigned_body(text@);
    assert(digits =~= chars@.skip(start as int));
    if chars.len() == start {
        return None;
    }
    let mut value: u64 = 0;
    let mut i: usize = start;
    while i < chars.len()
        invariant
            start <= i <= chars.len(),
            start <= 1,
            digits == chars@.skip(start as int),
            digits == unsigned_body(text@),
            forall|k: int| 0 <= k < i - start ==> is_decimal_digit(#[trigger] digits[k]),
            value == decimal_value(digits.take(i - start)),
        decreases chars.len() - i,
    {
        let ch: char = chars[i];
        assert(digits[i - start] == ch);
        if ch < '0' || ch > '9' {
            return None;
        }
        let digit: u64 = ch as u64 - 48;
        proof {
            assert(digits.take(i - start + 1).drop_last() =~= digits.take(i - start));
            lemma_value_grows(digits, i - start + 1, digits.len() as int);
            assert(digits.take(digits.len() as int) =~= digits);
        }
        if value > (u64::MAX - digit) / 10 {
            return None;
        }
        value = value * 10 + digit;
        i = i + 1;
    }
    assert(digits.take(i - start) =~= digits);
    Some(value)
}

/// Why a text is no number.
#[derive(Clone, Copy, Debug, PartialEq, Eq, Structural)]
pub enum NumberError {
    Empty,
    InvalidDigit,
    TooLarge,
}

impl NumberError {
    pub open spec fn text(self) -> Seq<char> {
        match self {
            NumberError::Empty => "cannot parse integer from empty string"@,
            NumberError::InvalidDigit => "invalid digit found in string"@,
            NumberError::TooLarge => "number too large to fit in target type"@,
        }
    }

    pub fn message(self) -> (message: &'static str)
        ensures
            message@ == self.text(),
    {
        match self {
            NumberError::Empty => "cannot parse integer from empty string",
            NumberError::InvalidDigit => "invalid digit found in string",
            NumberError::TooLarge => "number too large to fit in target type",
        }
    }
}

/// The number that digits from `at` on make behind `value`. The first character that breaks
/// it decides why it is none.
pub open spec fn number_from(digits: Seq<char>, at: int, value: nat, limit: nat) -> Result<
    nat,
    NumberError,
>
    decreases digits.len() - at,
{
    if at < 0 || at >= digits.len() {
        Ok(value)
    } else if !is_decimal_digit(digits[at]) {
        Err(NumberError::InvalidDigit)
    } else if value * 10 + (digits[at] as nat - 48) > limit {
        Err(NumberError::TooLarge)
    } else {
        number_from(digits, at + 1, (value * 10 + (digits[at] as nat - 48)) as nat, limit)
    }
}

/// The unsigned decimal number that a text is, or why it is none.
pub open spec fn number_of(text: Seq<char>, limit: nat) -> Result<nat, NumberError> {
    if text.len() == 0 {
        Err(NumberError::Empty)
    } else if unsigned_body(text).len() == 0 {
        Err(NumberError::InvalidDigit)
    } else {
        number_from(unsigned_body(text), 0, 0, limit)
    }
}

/// A text is a number in one reading exactly where it is in the other.
pub proof fn law_readings_agree(text: Seq<char>, limit: nat)
    ensures
        number_of(text, limit) is Ok <==> unsigned_value(text, limit) is Some,
        number_of(text, limit) is Ok ==> number_of(text, limit)->Ok_0 == unsigned_value(
            text,
            limit,
        )->0,
{
    let digits = unsigned_body(text);
    if digits.len() > 0 {
        assert(digits.take(0) =~= Seq::empty());
        lemma_number_from(digits, 0, limit);
    }
}

proof fn lemma_number_from(digits: Seq<char>, at: int, limit: nat)
    requires
        0 <= at <= digits.len(),
        forall|i: int| 0 <= i < at ==> is_decimal_digit(#[trigger] digits[i]),
        decimal_value(digits.take(at)) <= limit,
    ensures
        ({
            let number = number_from(digits, at, decimal_value(digits.take(at)), limit);
            &&& number is Ok <==> (forall|i: int|
                0 <= i < digits.len() ==> is_decimal_digit(#[trigger] digits[i])) && decimal_value(
                digits,
            ) <= limit
            &&& number is Ok ==> number->Ok_0 == decimal_value(digits)
        }),
    decreases digits.len() - at,
{
    if at < digits.len() {
        assert(digits.take(at + 1).drop_last() =~= digits.take(at));
        if is_decimal_digit(digits[at]) {
            lemma_value_grows(digits, at + 1, digits.len() as int);
            assert(digits.take(digits.len() as int) =~= digits);
            if decimal_value(digits.take(at + 1)) <= limit {
                lemma_number_from(digits, at + 1, limit);
            }
        }
    } else {
        assert(digits.take(at) =~= digits);
    }
}

/// Reads an unsigned decimal number that is not above `limit`.
pub fn parse_number(text: &str, limit: u64) -> (value: Result<u64, NumberError>)
    ensures
        match value {
            Ok(value) => number_of(text@, limit as nat) == Ok::<nat, NumberError>(value as nat),
            Err(error) => number_of(text@, limit as nat) == Err::<nat, NumberError>(error),
        },
{
    let chars: Vec<char> = chars_of(text);
    let size: usize = chars.len();
    if size == 0 {
        return Err(NumberError::Empty);
    }
    let start: usize = if chars[0] == '+' {
        1
    } else {
        0
    };
    let ghost digits = unsigned_body(text@);
    assert(digits =~= chars@.skip(start as int));
    if start == size {
        return Err(NumberError::InvalidDigit);
    }
    let mut value: u64 = 0;
    let mut i: usize = start;
    while i < size
        invariant
            start <= i <= size == chars@.len(),
            digits == chars@.skip(start as int),
            value <= limit,
            number_of(text@, limit as nat) == number_from(
                digits,
                i - start,
                value as nat,
                limit as nat,
            ),
        decreases size - i,
    {
        let ch: char = chars[i];
        assert(digits[i - start] == ch);
        if ch < '0' || ch > '9' {
            return Err(NumberError::InvalidDigit);
        }
        let digit: u64 = ch as u64 - 48;
        if limit < digit || value > (limit - digit) / 10 {
            return Err(NumberError::TooLarge);
        }
        value = value * 10 + digit;
        i = i + 1;
    }
    Ok(value)
}

/// What `{:?}` prints for a text: the text in quotes, with escapes.
pub uninterp spec fn quoted_of(text: Seq<char>) -> Seq<char>;

/// `format!` with `{:?}`: what is printed depends on the text alone. Which characters are
/// escaped, and how, is left unsaid.
#[verifier::external_body]
pub(crate) fn quoted(text: &str) -> (quoted: String)
    ensures
        quoted@ == quoted_of(text@),
{
    format!("{:?}", text)
}

/// Whether a text ends in another.
pub open spec fn ends_in(text: Seq<char>, suffix: Seq<char>) -> bool {
    suffix.len() <= text.len() && text.skip(text.len() - suffix.len()) == suffix
}

pub fn ends_with_text(text: &str, suffix: &str) -> (found: bool)
    ensures
        found == ends_in(text@, suffix@),
{
    let chars: Vec<char> = chars_of(text);
    let tail: Vec<char> = chars_of(suffix);
    if tail.len() > chars.len() {
        return false;
    }
    let size: usize = chars.len();
    let start: usize = size - tail.len();
    let ghost rest = text@.skip(start as int);
    let mut i: usize = 0;
    while i < tail.len()
        invariant
            i <= tail@.len(),
            start + tail@.len() == size == chars@.len(),
            chars@ == text@,
            tail@ == suffix@,
            rest == text@.skip(start as int),
            forall|k: int| 0 <= k < i ==> rest[k] == suffix@[k],
        decreases tail@.len() - i,
    {
        if chars[start + i] != tail[i] {
            assert(rest[i as int] != suffix@[i as int]);
            return false;
        }
        i = i + 1;
    }
    assert(rest =~= suffix@);
    true
}

/// Whether a text begins with another.
pub open spec fn begins_with(text: Seq<char>, prefix: Seq<char>) -> bool {
    prefix.len() <= text.len() && text.take(prefix.len() as int) == prefix
}

pub fn starts_with_text(text: &str, prefix: &str) -> (found: bool)
    ensures
        found == begins_with(text@, prefix@),
{
    let chars: Vec<char> = chars_of(text);
    let head: Vec<char> = chars_of(prefix);
    if head.len() > chars.len() {
        return false;
    }
    let ghost first = text@.take(head@.len() as int);
    let mut i: usize = 0;
    while i < head.len()
        invariant
            i <= head@.len() <= chars@.len(),
            chars@ == text@,
            head@ == prefix@,
            first == text@.take(head@.len() as int),
            forall|k: int| 0 <= k < i ==> first[k] == prefix@[k],
        decreases head@.len() - i,
    {
        if chars[i] != head[i] {
            assert(first[i as int] != prefix@[i as int]);
            return false;
        }
        i = i + 1;
    }
    assert(first =~= prefix@);
    true
}

/// Whether a text holds a character.
pub fn has_char(text: &str, ch: char) -> (found: bool)
    ensures
        found == text@.contains(ch),
{
    let chars: Vec<char> = chars_of(text);
    let mut i: usize = 0;
    while i < chars.len()
        invariant
            i <= chars@.len(),
            chars@ == text@,
            forall|k: int| 0 <= k < i ==> text@[k] != ch,
        decreases chars@.len() - i,
    {
        if chars[i] == ch {
            assert(text@[i as int] == ch);
            return true;
        }
        i = i + 1;
    }
    false
}

/// Two texts, one behind the other.
pub fn concat(left: &str, right: &str) -> (text: String)
    ensures
        text@ == left@ + right@,
{
    let mut text: String = left.to_owned();
    text.append(right);
    text
}

/// A longer row of digits never stands for a smaller number.
proof fn lemma_value_grows(digits: Seq<char>, shorter: int, longer: int)
    requires
        0 <= shorter <= longer <= digits.len(),
    ensures
        decimal_value(digits.take(shorter)) <= decimal_value(digits.take(longer)),
    decreases longer - shorter,
{
    if shorter < longer {
        lemma_value_grows(digits, shorter, longer - 1);
        assert(digits.take(longer).drop_last() =~= digits.take(longer - 1));
    }
}

/// A signed number has a sign exactly where it is negative, and its digits are read back.
pub proof fn law_signed_numbers_carry_their_sign(value: int)
    ensures
        signed_decimal_of(value).len() > 0,
        signed_decimal_of(value)[0] == '-' <==> value < 0,
        value >= 0 ==> decimal_value(signed_decimal_of(value)) == value,
        value < 0 ==> decimal_value(signed_decimal_of(value).skip(1)) == -value,
{
    if value < 0 {
        lemma_decimal_digits((-value) as nat);
        assert(signed_decimal_of(value).skip(1) =~= decimal_of((-value) as nat));
    } else {
        lemma_decimal_digits(value as nat);
        assert(is_decimal_digit(decimal_of(value as nat)[0]));
    }
}

/// A number is written without a needless zero before it.
pub proof fn law_numbers_begin_with_their_first_digit(value: nat)
    ensures
        value > 0 ==> decimal_of(value)[0] != '0',
        value > 0 ==> hex_of(value)[0] != '0',
        value < 10 ==> decimal_of(value).len() == 1,
        decimal_of(10 * value + 10).len() == decimal_of(value + 1).len() + 1,
    decreases value,
{
    if value >= 10 {
        law_numbers_begin_with_their_first_digit(value / 10);
        lemma_decimal_digits(value / 10);
        assert(decimal_of(value)[0] == decimal_of(value / 10)[0]);
    }
    if value >= 16 {
        lemma_hex_begins(value);
    } else if value > 0 {
        assert(hex_of(value)[0] == digit_char_of(value as int));
    }
    assert((10 * value + 10) / 10 == value + 1);
}

proof fn lemma_hex_begins(value: nat)
    requires
        value > 0,
    ensures
        hex_of(value).len() > 0,
        hex_of(value)[0] != '0',
    decreases value,
{
    if value >= 16 {
        lemma_hex_begins(value / 16);
        assert(hex_of(value)[0] == hex_of(value / 16)[0]);
    }
}

/// Why a text is no number: it is empty; or all its characters are digits, and the number is
/// too large; or one of them is none. What is read never depends on a plus sign before it.
pub proof fn law_refused_numbers_have_their_reason(text: Seq<char>, limit: nat)
    ensures
        number_of(text, limit) == Err::<nat, NumberError>(NumberError::Empty) <==> text.len() == 0,
        number_of(text, limit) == Err::<nat, NumberError>(NumberError::TooLarge) && (forall|i: int|
            0 <= i < text.len() ==> is_decimal_digit(#[trigger] text[i])) ==> decimal_value(text)
            > limit,
        text.len() > 0 && (forall|i: int| 0 <= i < text.len() ==> is_decimal_digit(#[trigger] text[i]))
            && decimal_value(text) > limit ==> number_of(text, limit) == Err::<nat, NumberError>(
            NumberError::TooLarge,
        ),
        text.len() > 0 && text[0] != '+' && !is_decimal_digit(text[0]) ==> number_of(text, limit)
            == Err::<nat, NumberError>(NumberError::InvalidDigit),
        number_of(seq!['+'], limit) == Err::<nat, NumberError>(NumberError::InvalidDigit),
        text.len() > 0 && text[0] != '+' ==> number_of(seq!['+'] + text, limit) == number_of(
            text,
            limit,
        ),
{
    law_readings_agree(text, limit);
    assert((seq!['+'] + text).skip(1) =~= text);
    assert(seq!['+'].skip(1) =~= Seq::<char>::empty());
    if text.len() > 0 && (forall|i: int|
        0 <= i < text.len() ==> is_decimal_digit(#[trigger] text[i])) {
        assert(is_decimal_digit(text[0]));
        lemma_digits_are_no_reason(text, 0, 0, limit);
    }
    lemma_empty_is_no_reason(unsigned_body(text), 0, 0, limit);
}

proof fn lemma_empty_is_no_reason(digits: Seq<char>, at: int, value: nat, limit: nat)
    ensures
        number_from(digits, at, value, limit) != Err::<nat, NumberError>(NumberError::Empty),
    decreases digits.len() - at,
{
    if 0 <= at < digits.len() && is_decimal_digit(digits[at]) {
        lemma_empty_is_no_reason(
            digits,
            at + 1,
            (value * 10 + (digits[at] as nat - 48)) as nat,
            limit,
        );
    }
}

/// Digits alone are refused for their size only.
proof fn lemma_digits_are_no_reason(digits: Seq<char>, at: int, value: nat, limit: nat)
    requires
        0 <= at,
        forall|i: int| 0 <= i < digits.len() ==> is_decimal_digit(#[trigger] digits[i]),
    ensures
        number_from(digits, at, value, limit) is Ok || number_from(digits, at, value, limit)
            == Err::<nat, NumberError>(NumberError::TooLarge),
    decreases digits.len() - at,
{
    if at < digits.len() {
        lemma_digits_are_no_reason(
            digits,
            at + 1,
            (value * 10 + (digits[at] as nat - 48)) as nat,
            limit,
        );
    }
}

/// A text begins with another, and ends in it, exactly where it is the other with something
/// behind it, or before it.
pub proof fn law_texts_begin_and_end(text: Seq<char>, part: Seq<char>, other: Seq<char>)
    ensures
        begins_with(part + other, part),
        ends_in(other + part, part),
        begins_with(text, part) ==> exists|rest: Seq<char>| text == #[trigger] (part + rest),
        ends_in(text, part) ==> exists|rest: Seq<char>| text == #[trigger] (rest + part),
{
    assert((part + other).take(part.len() as int) =~= part);
    assert((other + part).skip(other.len() as int) =~= part);
    if begins_with(text, part) {
        assert(text =~= part + text.skip(part.len() as int));
    }
    if ends_in(text, part) {
        assert(text =~= text.take(text.len() - part.len()) + part);
    }
}

/// A number is written in digits, one at least.
pub proof fn law_numbers_are_digits(value: nat)
    ensures
        decimal_of(value).len() > 0,
        forall|i: int|
            0 <= i < decimal_of(value).len() ==> is_decimal_digit(#[trigger] decimal_of(value)[i]),
{
    lemma_decimal_digits(value);
}

} // verus!

//! Bytes out of a hexadecimal dump as people paste it.
use crate::packet_tool::ToolError;
use crate::text::{chars_of, is_blank, is_space};
use vstd::prelude::*;

verus! {

/// Whether `ch` is a hexadecimal digit.
pub open spec fn is_hex_digit(ch: char) -> bool {
    '0' <= ch <= '9' || 'a' <= ch <= 'f' || 'A' <= ch <= 'F'
}

/// What a hexadecimal digit stands for.
pub open spec fn hex_digit_value(ch: char) -> int {
    if '0' <= ch <= '9' {
        ch as int - 48
    } else if 'a' <= ch <= 'f' {
        ch as int - 87
    } else {
        ch as int - 55
    }
}

/// Whether every character is a hexadecimal digit.
pub open spec fn all_hex(text: Seq<char>) -> bool {
    forall|i: int| 0 <= i < text.len() ==> is_hex_digit(#[trigger] text[i])
}

fn is_hex(ch: char) -> (found: bool)
    ensures
        found == is_hex_digit(ch),
{
    ('0' <= ch && ch <= '9') || ('a' <= ch && ch <= 'f') || ('A' <= ch && ch <= 'F')
}

/// Whether `ch` is punctuation that may stand around a token.
pub open spec fn is_punctuation(ch: char) -> bool {
    ch == ',' || ch == ';' || ch == '[' || ch == ']' || ch == '{' || ch == '}' || ch == '(' || ch
        == ')'
}

fn is_mark(ch: char) -> (found: bool)
    ensures
        found == is_punctuation(ch),
{
    ch == ',' || ch == ';' || ch == '[' || ch == ']' || ch == '{' || ch == '}' || ch == '(' || ch
        == ')'
}

/// A text without what `drop` accepts at its beginning.
pub open spec fn trim_front(text: Seq<char>, drop: spec_fn(char) -> bool) -> Seq<char>
    decreases text.len(),
{
    if text.len() > 0 && drop(text[0]) {
        trim_front(text.skip(1), drop)
    } else {
        text
    }
}

/// A text without what `drop` accepts at its end.
pub open spec fn trim_back(text: Seq<char>, drop: spec_fn(char) -> bool) -> Seq<char>
    decreases text.len(),
{
    if text.len() > 0 && drop(text.last()) {
        trim_back(text.drop_last(), drop)
    } else {
        text
    }
}

/// A text without what `drop` accepts at both ends.
pub open spec fn trimmed(text: Seq<char>, drop: spec_fn(char) -> bool) -> Seq<char> {
    trim_back(trim_front(text, drop), drop)
}

/// Where the first character stands that `stop` accepts; the text's length without one.
pub open spec fn first_at(text: Seq<char>, stop: spec_fn(char) -> bool) -> int
    decreases text.len(),
{
    if text.len() == 0 || stop(text[0]) {
        0
    } else {
        1 + first_at(text.skip(1), stop)
    }
}

/// What accepts one character alone.
pub open spec fn only(mark: char) -> spec_fn(char) -> bool {
    |ch: char| ch == mark
}

/// What stands behind the last `mark`; the whole text without one.
pub open spec fn behind_last(text: Seq<char>, mark: char) -> Seq<char>
    decreases text.len(),
{
    let found = first_at(text, only(mark));
    if 0 <= found < text.len() {
        behind_last(text.skip(found + 1), mark)
    } else {
        text
    }
}

/// A token without the mark of a hexadecimal number.
pub open spec fn without_mark(text: Seq<char>) -> Seq<char> {
    if text.len() >= 2 && text[0] == '0' && (text[1] == 'x' || text[1] == 'X') {
        text.skip(2)
    } else {
        text
    }
}

/// The bytes that pairs of digits stand for.
pub open spec fn pair_bytes(digits: Seq<char>) -> Seq<u8>
    decreases digits.len(),
{
    if digits.len() < 2 {
        Seq::empty()
    } else {
        seq![(hex_digit_value(digits[0]) * 16 + hex_digit_value(digits[1])) as u8] + pair_bytes(
            digits.skip(2),
        )
    }
}

/// The bytes of one token: whole pairs of digits, behind a name and a mark. Anything else,
/// and a label that ends in a colon, gives none.
pub open spec fn token_bytes(raw: Seq<char>) -> Seq<u8> {
    let token = trimmed(raw, |ch: char| is_punctuation(ch));
    if token.len() == 0 || token.last() == ':' {
        Seq::empty()
    } else {
        let digits = without_mark(behind_last(token, '='));
        if digits.len() >= 2 && digits.len() % 2 == 0 && all_hex(digits) {
            pair_bytes(digits)
        } else {
            Seq::empty()
        }
    }
}

/// The bytes of the tokens of a line.
pub open spec fn words_bytes(text: Seq<char>) -> Seq<u8>
    decreases text.len(),
{
    if text.len() == 0 {
        Seq::empty()
    } else if is_space(text[0]) {
        words_bytes(text.skip(1))
    } else {
        let end = first_at(text, |ch: char| is_space(ch));
        if 0 < end <= text.len() {
            token_bytes(text.take(end)) + words_bytes(text.skip(end))
        } else {
            Seq::empty()
        }
    }
}

/// A line without the offset that it begins with, if it begins with one.
pub open spec fn without_offset(line: Seq<char>) -> Seq<char> {
    let colon = first_at(line, |ch: char| ch == ':');
    if 0 < colon < line.len() && all_hex(line.take(colon)) {
        line.skip(colon + 1)
    } else {
        line
    }
}

/// The bytes of a line.
pub open spec fn line_bytes(line: Seq<char>) -> Seq<u8> {
    words_bytes(without_offset(trimmed(line, |ch: char| is_space(ch))))
}

/// The bytes of a dump, line by line.
pub open spec fn dump_bytes(text: Seq<char>) -> Seq<u8>
    decreases text.len(),
{
    let end = first_at(text, |ch: char| ch == '\n');
    if 0 <= end < text.len() {
        line_bytes(text.take(end)) + dump_bytes(text.skip(end + 1))
    } else {
        line_bytes(text)
    }
}

/// The position of the first stop is inside the text, nothing before it is a stop, and it
/// is one itself.
proof fn lemma_first_at(text: Seq<char>, stop: spec_fn(char) -> bool)
    ensures
        0 <= first_at(text, stop) <= text.len(),
        first_at(text, stop) < text.len() ==> stop(text[first_at(text, stop)]),
        forall|i: int| 0 <= i < first_at(text, stop) ==> !stop(#[trigger] text[i]),
    decreases text.len(),
{
    if text.len() > 0 && !stop(text[0]) {
        let rest = text.skip(1);
        lemma_first_at(rest, stop);
        assert forall|i: int| 0 <= i < first_at(text, stop) implies !stop(#[trigger] text[i]) by {
            if i > 0 {
                assert(rest[i - 1] == text[i]);
            }
        }
    }
}

/// A place with a stop and no stop before it is the first.
pub(crate) proof fn lemma_first_is(text: Seq<char>, stop: spec_fn(char) -> bool, at: int)
    requires
        0 <= at <= text.len(),
        at < text.len() ==> stop(text[at]),
        forall|i: int| 0 <= i < at ==> !stop(#[trigger] text[i]),
    ensures
        first_at(text, stop) == at,
{
    lemma_first_at(text, stop);
    let found = first_at(text, stop);
    if found < at {
        assert(!stop(text[found]));
    }
    if at < found {
        assert(!stop(text[at]));
    }
}

/// Trimming at the front cuts at the first character that stays.
proof fn lemma_trim_front(text: Seq<char>, drop: spec_fn(char) -> bool, start: int)
    requires
        0 <= start <= text.len(),
        forall|i: int| 0 <= i < start ==> drop(#[trigger] text[i]),
        start < text.len() ==> !drop(text[start]),
    ensures
        trim_front(text, drop) == text.skip(start),
    decreases start,
{
    if start > 0 {
        assert(drop(text[0]));
        let rest = text.skip(1);
        assert forall|i: int| 0 <= i < start - 1 implies drop(#[trigger] rest[i]) by {
            assert(rest[i] == text[i + 1]);
        }
        lemma_trim_front(rest, drop, start - 1);
        assert(rest.skip(start - 1) =~= text.skip(start));
    } else {
        assert(text.skip(0) =~= text);
    }
}

/// Trimming at the back cuts behind the last character that stays.
proof fn lemma_trim_back(text: Seq<char>, drop: spec_fn(char) -> bool, end: int)
    requires
        0 <= end <= text.len(),
        forall|i: int| end <= i < text.len() ==> drop(#[trigger] text[i]),
        end > 0 ==> !drop(text[end - 1]),
    ensures
        trim_back(text, drop) == text.take(end),
    decreases text.len(),
{
    if end < text.len() {
        assert(drop(text[text.len() - 1]));
        let rest = text.drop_last();
        assert forall|i: int| end <= i < rest.len() implies drop(#[trigger] rest[i]) by {
            assert(rest[i] == text[i]);
        }
        lemma_trim_back(rest, drop, end);
        assert(rest.take(end) =~= text.take(end));
    } else {
        assert(text.take(end) =~= text);
    }
}

/// A place behind a mark, behind which no mark stands, is behind the last one.
pub(crate) proof fn lemma_behind_last(text: Seq<char>, mark: char, start: int)
    requires
        0 <= start <= text.len(),
        start > 0 ==> text[start - 1] == mark,
        forall|i: int| start <= i < text.len() ==> #[trigger] text[i] != mark,
    ensures
        behind_last(text, mark) == text.skip(start),
    decreases text.len(),
{
    let stop = only(mark);
    lemma_first_at(text, stop);
    let found = first_at(text, stop);
    if found < text.len() {
        assert(text[found] == mark);
        assert(found < start);
        let rest = text.skip(found + 1);
        assert forall|i: int| start - found - 1 <= i < rest.len() implies #[trigger] rest[i]
            != mark by {
            assert(rest[i] == text[i + found + 1]);
        }
        if start - found - 1 > 0 {
            assert(rest[start - found - 2] == text[start - 1]);
        }
        lemma_behind_last(rest, mark, start - found - 1);
        assert(rest.skip(start - found - 1) =~= text.skip(start));
    } else {
        if start > 0 {
            assert(!stop(text[start - 1]));
        }
        assert(text.skip(start) =~= text);
    }
}

/// The part of a row from `start` to `end`.
pub(crate) fn part_of(chars: &Vec<char>, start: usize, end: usize) -> (part: Vec<char>)
    requires
        start <= end <= chars@.len(),
    ensures
        part@ == chars@.subrange(start as int, end as int),
{
    let mut part: Vec<char> = Vec::new();
    let mut i: usize = start;
    while i < end
        invariant
            start <= i <= end <= chars@.len(),
            part@ == chars@.subrange(start as int, i as int),
        decreases end - i,
    {
        part.push(chars[i]);
        assert(part@ =~= chars@.subrange(start as int, i + 1));
        i = i + 1;
    }
    part
}

fn hex_value(ch: char) -> (value: u8)
    requires
        is_hex_digit(ch),
    ensures
        value == hex_digit_value(ch),
        value < 16,
{
    let code: u32 = ch as u32;
    if '0' <= ch && ch <= '9' {
        (code - 48) as u8
    } else if 'a' <= ch && ch <= 'f' {
        (code - 87) as u8
    } else {
        (code - 55) as u8
    }
}

/// The byte that two hexadecimal digits stand for.
pub fn byte_from_hex(high: char, low: char) -> (byte: u8)
    requires
        is_hex_digit(high),
        is_hex_digit(low),
    ensures
        byte == hex_digit_value(high) * 16 + hex_digit_value(low),
{
    hex_value(high) * 16 + hex_value(low)
}

fn trim_spaces(line: &Vec<char>) -> (rest: Vec<char>)
    ensures
        rest@ == trimmed(line@, |ch: char| is_space(ch)),
{
    let ghost drop = |ch: char| is_space(ch);
    let size: usize = line.len();
    let mut start: usize = 0;
    while start < size && is_blank(line[start])
        invariant
            start <= size == line@.len(),
            forall|i: int| 0 <= i < start ==> is_space(#[trigger] line@[i]),
        decreases size - start,
    {
        start = start + 1;
    }
    let mut end: usize = size;
    while end > start && is_blank(line[end - 1])
        invariant
            start <= end <= size == line@.len(),
            forall|i: int| end <= i < size ==> is_space(#[trigger] line@[i]),
        decreases end,
    {
        end = end - 1;
    }
    proof {
        lemma_trim_front(line@, drop, start as int);
        let rest = line@.skip(start as int);
        assert forall|i: int| end - start <= i < rest.len() implies drop(#[trigger] rest[i]) by {
            assert(rest[i] == line@[i + start]);
        }
        lemma_trim_back(rest, drop, end - start);
        assert(rest.take(end - start) =~= line@.subrange(start as int, end as int));
    }
    part_of(line, start, end)
}

fn trim_marks(token: &Vec<char>) -> (rest: Vec<char>)
    ensures
        rest@ == trimmed(token@, |ch: char| is_punctuation(ch)),
{
    let ghost drop = |ch: char| is_punctuation(ch);
    let size: usize = token.len();
    let mut start: usize = 0;
    while start < size && is_mark(token[start])
        invariant
            start <= size == token@.len(),
            forall|i: int| 0 <= i < start ==> is_punctuation(#[trigger] token@[i]),
        decreases size - start,
    {
        start = start + 1;
    }
    let mut end: usize = size;
    while end > start && is_mark(token[end - 1])
        invariant
            start <= end <= size == token@.len(),
            forall|i: int| end <= i < size ==> is_punctuation(#[trigger] token@[i]),
        decreases end,
    {
        end = end - 1;
    }
    proof {
        lemma_trim_front(token@, drop, start as int);
        let rest = token@.skip(start as int);
        assert forall|i: int| end - start <= i < rest.len() implies drop(#[trigger] rest[i]) by {
            assert(rest[i] == token@[i + start]);
        }
        lemma_trim_back(rest, drop, end - start);
        assert(rest.take(end - start) =~= token@.subrange(start as int, end as int));
    }
    part_of(token, start, end)
}

fn only_hex(chars: &Vec<char>, start: usize, end: usize) -> (found: bool)
    requires
        start <= end <= chars@.len(),
    ensures
        found == all_hex(chars@.subrange(start as int, end as int)),
{
    let ghost part = chars@.subrange(start as int, end as int);
    let mut i: usize = start;
    while i < end
        invariant
            start <= i <= end <= chars@.len(),
            part == chars@.subrange(start as int, end as int),
            forall|k: int| 0 <= k < i - start ==> is_hex_digit(#[trigger] part[k]),
        decreases end - i,
    {
        assert(part[i - start] == chars@[i as int]);
        if !is_hex(chars[i]) {
            return false;
        }
        i = i + 1;
    }
    true
}

fn push_pairs(bytes: &mut Vec<u8>, chars: &Vec<char>, start: usize)
    requires
        start <= chars@.len(),
        (chars@.len() - start) % 2 == 0,
        all_hex(chars@.skip(start as int)),
    ensures
        final(bytes)@ == old(bytes)@ + pair_bytes(chars@.skip(start as int)),
{
    let size: usize = chars.len();
    let ghost before = bytes@;
    let ghost all = chars@.skip(start as int);
    let mut i: usize = start;
    while i < size
        invariant
            start <= i <= size == chars@.len(),
            (size - i) % 2 == 0,
            all == chars@.skip(start as int),
            all_hex(all),
            bytes@ + pair_bytes(chars@.skip(i as int)) == before + pair_bytes(all),
        decreases size - i,
    {
        let ghost rest = chars@.skip(i as int);
        assert(rest[0] == all[i - start]);
        assert(rest[1] == all[i - start + 1]);
        assert(rest.skip(2) =~= chars@.skip(i + 2));
        let byte: u8 = byte_from_hex(chars[i], chars[i + 1]);
        let ghost held = bytes@;
        bytes.push(byte);
        assert(held + (seq![byte] + pair_bytes(rest.skip(2))) =~= held.push(byte) + pair_bytes(
            rest.skip(2),
        ));
        i = i + 2;
    }
    assert(bytes@ + pair_bytes(chars@.skip(i as int)) =~= bytes@);
}

fn push_token(bytes: &mut Vec<u8>, raw: &Vec<char>)
    ensures
        final(bytes)@ == old(bytes)@ + token_bytes(raw@),
{
    let token: Vec<char> = trim_marks(raw);
    let size: usize = token.len();
    if size == 0 || token[size - 1] == ':' {
        assert(bytes@ + Seq::<u8>::empty() =~= bytes@);
        return;
    }
    let mut start: usize = size;
    while start > 0 && token[start - 1] != '='
        invariant
            start <= size == token@.len(),
            forall|i: int| start <= i < size ==> #[trigger] token@[i] != '=',
        decreases start,
    {
        start = start - 1;
    }
    proof {
        lemma_behind_last(token@, '=', start as int);
    }
    let ghost value = token@.skip(start as int);
    if size - start >= 2 && token[start] == '0' && (token[start + 1] == 'x' || token[start + 1]
        == 'X') {
        assert(value[0] == '0');
        assert(value[1] == token@[start + 1]);
        assert(value.skip(2) =~= token@.skip(start + 2));
        start = start + 2;
    } else {
        assert(value.len() >= 2 ==> value[0] == token@[start as int] && value[1] == token@[start
            + 1]);
    }
    assert(without_mark(value) == token@.skip(start as int));
    assert(token@.subrange(start as int, size as int) =~= token@.skip(start as int));
    if size - start >= 2 && (size - start) % 2 == 0 && only_hex(&token, start, size) {
        push_pairs(bytes, &token, start);
    } else {
        assert(bytes@ + Seq::<u8>::empty() =~= bytes@);
    }
}

/// Where a line goes on behind its offset.
pub fn strip_offset(line: &Vec<char>) -> (start: usize)
    ensures
        start <= line@.len(),
        line@.skip(start as int) == without_offset(line@),
{
    let ghost stop = |ch: char| ch == ':';
    let size: usize = line.len();
    let mut colon: usize = 0;
    while colon < size && line[colon] != ':'
        invariant
            colon <= size == line@.len(),
            forall|i: int| 0 <= i < colon ==> #[trigger] line@[i] != ':',
        decreases size - colon,
    {
        colon = colon + 1;
    }
    proof {
        lemma_first_is(line@, stop, colon as int);
        assert(line@.take(colon as int) =~= line@.subrange(0, colon as int));
        assert(line@.skip(0) =~= line@);
    }
    if 0 < colon && colon < size && only_hex(line, 0, colon) {
        colon + 1
    } else {
        0
    }
}

fn push_words(bytes: &mut Vec<u8>, line: &Vec<char>, start: usize)
    requires
        start <= line@.len(),
    ensures
        final(bytes)@ == old(bytes)@ + words_bytes(line@.skip(start as int)),
{
    let ghost stop = |ch: char| is_space(ch);
    let size: usize = line.len();
    let ghost before = bytes@;
    let ghost all = words_bytes(line@.skip(start as int));
    let mut at: usize = start;
    while at < size
        invariant
            start <= at <= size == line@.len(),
            stop == (|ch: char| is_space(ch)),
            bytes@ + words_bytes(line@.skip(at as int)) == before + all,
        decreases size - at,
    {
        let ghost rest = line@.skip(at as int);
        assert(rest[0] == line@[at as int]);
        if is_blank(line[at]) {
            assert(rest.skip(1) =~= line@.skip(at + 1));
            at = at + 1;
        } else {
            let begin: usize = at;
            while at < size && !is_blank(line[at])
                invariant
                    begin <= at <= size == line@.len(),
                    begin < size,
                    !is_space(line@[begin as int]),
                    forall|i: int| begin <= i < at ==> !is_space(#[trigger] line@[i]),
                decreases size - at,
            {
                at = at + 1;
            }
            let word: Vec<char> = part_of(line, begin, at);
            proof {
                assert(begin < at);
                assert forall|i: int| 0 <= i < at - begin implies !stop(#[trigger] rest[i]) by {
                    assert(rest[i] == line@[i + begin]);
                }
                if at < size {
                    assert(rest[at - begin] == line@[at as int]);
                }
                lemma_first_is(rest, stop, at - begin);
                assert(rest.take(at - begin) =~= word@);
                assert(rest.skip(at - begin) =~= line@.skip(at as int));
            }
            let ghost held = bytes@;
            push_token(bytes, &word);
            assert(held + (token_bytes(word@) + words_bytes(line@.skip(at as int))) =~= (held
                + token_bytes(word@)) + words_bytes(line@.skip(at as int)));
        }
    }
    assert(bytes@ + words_bytes(line@.skip(at as int)) =~= bytes@);
}

fn push_line(bytes: &mut Vec<u8>, line: &Vec<char>)
    ensures
        final(bytes)@ == old(bytes)@ + line_bytes(line@),
{
    let line: Vec<char> = trim_spaces(line);
    let start: usize = strip_offset(&line);
    push_words(bytes, &line, start);
}

/// Reads a dump: offsets, labels and punctuation are passed over. It is refused if it holds
/// no byte.
pub fn parse_hex_dump(input: &str) -> (bytes: Result<Vec<u8>, ToolError<String>>)
    ensures
        match bytes {
            Ok(bytes) => bytes@.len() > 0 && bytes@ == dump_bytes(input@),
            Err(error) => error is NoBytes && dump_bytes(input@).len() == 0,
        },
{
    let ghost stop = |ch: char| ch == '\n';
    let chars: Vec<char> = chars_of(input);
    let size: usize = chars.len();
    let mut bytes: Vec<u8> = Vec::new();
    let mut start: usize = 0;
    let mut at: usize = 0;
    assert(input@.skip(0) =~= input@);
    assert(bytes@ + dump_bytes(input@) =~= dump_bytes(input@));
    while at < size
        invariant
            start <= at <= size == chars@.len(),
            chars@ == input@,
            stop == (|ch: char| ch == '\n'),
            forall|i: int| start <= i < at ==> #[trigger] chars@[i] != '\n',
            bytes@ + dump_bytes(input@.skip(start as int)) == dump_bytes(input@),
        decreases size - at,
    {
        if chars[at] == '\n' {
            let line: Vec<char> = part_of(&chars, start, at);
            let ghost rest = input@.skip(start as int);
            proof {
                assert forall|i: int| 0 <= i < at - start implies !stop(#[trigger] rest[i]) by {
                    assert(rest[i] == chars@[i + start]);
                }
                assert(rest[at - start] == '\n');
                lemma_first_is(rest, stop, at - start);
                assert(rest.take(at - start) =~= line@);
                assert(rest.skip(at - start + 1) =~= input@.skip(at + 1));
            }
            let ghost held = bytes@;
            push_line(&mut bytes, &line);
            assert(held + (line_bytes(line@) + dump_bytes(input@.skip(at + 1))) =~= (held
                + line_bytes(line@)) + dump_bytes(input@.skip(at + 1)));
            start = at + 1;
        }
        at = at + 1;
    }
    let line: Vec<char> = part_of(&chars, start, size);
    proof {
        let rest = input@.skip(start as int);
        assert(rest =~= line@);
        assert forall|i: int| 0 <= i < rest.len() implies !stop(#[trigger] rest[i]) by {
            assert(rest[i] == chars@[i + start]);
        }
        lemma_first_is(rest, stop, rest.len() as int);
    }
    push_line(&mut bytes, &line);
    if bytes.len() == 0 {
        Err(ToolError::NoBytes)
    } else {
        Ok(bytes)
    }
}

/// Whether two characters are the digits of a byte, in either case.
pub open spec fn spells_byte(pair: (char, char), byte: u8) -> bool {
    is_hex_digit(pair.0) && is_hex_digit(pair.1) && hex_digit_value(pair.0) * 16
        + hex_digit_value(pair.1) == byte
}

/// Whether pairs of digits spell bytes, one pair for each.
pub open spec fn spell_bytes(pairs: Seq<(char, char)>, bytes: Seq<u8>) -> bool {
    pairs.len() == bytes.len() && forall|i: int|
        0 <= i < pairs.len() ==> spells_byte(#[trigger] pairs[i], bytes[i])
}

/// Pairs of digits, with something between each two.
pub open spec fn joined(pairs: Seq<(char, char)>, between: Seq<char>) -> Seq<char>
    decreases pairs.len(),
{
    if pairs.len() == 0 {
        Seq::empty()
    } else if pairs.len() == 1 {
        seq![pairs[0].0, pairs[0].1]
    } else {
        seq![pairs[0].0, pairs[0].1] + between + joined(pairs.skip(1), between)
    }
}

/// What may stand between the bytes of a written dump: nothing, a space, the end of a line,
/// or a comma and a space.
pub open spec fn is_separator(between: Seq<char>) -> bool {
    between == Seq::<char>::empty() || between == seq![' '] || between == seq!['\n'] || between
        == seq![',', ' ']
}

/// Digits with at most a comma behind them are read as the bytes of their pairs.
proof fn lemma_digits_are_read(digits: Seq<char>, tail: Seq<char>)
    requires
        digits.len() >= 2,
        digits.len() % 2 == 0,
        all_hex(digits),
        tail == Seq::<char>::empty() || tail == seq![','],
    ensures
        token_bytes(digits + tail) == pair_bytes(digits),
{
    let raw = digits + tail;
    let drop = |ch: char| is_punctuation(ch);
    assert(raw[0] == digits[0]);
    assert(is_hex_digit(digits[0]));
    lemma_trim_front(raw, drop, 0);
    assert(raw.skip(0) =~= raw);
    let end = digits.len() as int;
    assert(raw[end - 1] == digits[end - 1]);
    assert(is_hex_digit(digits[end - 1]));
    lemma_trim_back(raw, drop, end);
    assert(raw.take(end) =~= digits);
    assert forall|i: int| 0 <= i < digits.len() implies #[trigger] digits[i] != '=' by {
        assert(is_hex_digit(digits[i]));
    }
    lemma_behind_last(digits, '=', 0);
    assert(digits.skip(0) =~= digits);
    assert(is_hex_digit(digits[1]));
    assert(without_mark(digits) == digits);
}

/// What is written of bytes holds digits, and between them only the separator.
proof fn lemma_joined(pairs: Seq<(char, char)>, bytes: Seq<u8>, between: Seq<char>)
    requires
        spell_bytes(pairs, bytes),
        pairs.len() > 0,
    ensures
        joined(pairs, between).len() >= 2,
        is_hex_digit(joined(pairs, between)[0]),
        is_hex_digit(joined(pairs, between).last()),
        forall|i: int|
            0 <= i < joined(pairs, between).len() ==> is_hex_digit(
                #[trigger] joined(pairs, between)[i],
            ) || between.contains(joined(pairs, between)[i]),
    decreases pairs.len(),
{
    let text = joined(pairs, between);
    assert(spells_byte(pairs[0], bytes[0]));
    if pairs.len() > 1 {
        let rest = joined(pairs.skip(1), between);
        assert forall|i: int| 0 <= i < pairs.skip(1).len() implies spells_byte(
            #[trigger] pairs.skip(1)[i],
            bytes.skip(1)[i],
        ) by {
            assert(spells_byte(pairs[i + 1], bytes[i + 1]));
        }
        lemma_joined(pairs.skip(1), bytes.skip(1), between);
        let split = 2 + between.len();
        assert(text.last() == rest.last());
        assert forall|i: int| 0 <= i < text.len() implies is_hex_digit(#[trigger] text[i])
            || between.contains(text[i]) by {
            if i >= split {
                assert(text[i] == rest[i - split]);
            } else if i >= 2 {
                assert(text[i] == between[i - 2]);
            }
        }
    }
}

/// Digits without anything between them are read as their bytes.
proof fn lemma_pairs_are_read(pairs: Seq<(char, char)>, bytes: Seq<u8>)
    requires
        spell_bytes(pairs, bytes),
    ensures
        joined(pairs, Seq::empty()).len() == 2 * pairs.len(),
        all_hex(joined(pairs, Seq::empty())),
        pair_bytes(joined(pairs, Seq::empty())) == bytes,
    decreases pairs.len(),
{
    let text = joined(pairs, Seq::empty());
    if pairs.len() == 0 {
        assert(bytes =~= Seq::empty());
    } else {
        let rest = joined(pairs.skip(1), Seq::empty());
        assert(spells_byte(pairs[0], bytes[0]));
        assert forall|i: int| 0 <= i < pairs.skip(1).len() implies spells_byte(
            #[trigger] pairs.skip(1)[i],
            bytes.skip(1)[i],
        ) by {
            assert(spells_byte(pairs[i + 1], bytes[i + 1]));
        }
        lemma_pairs_are_read(pairs.skip(1), bytes.skip(1));
        assert(text =~= seq![pairs[0].0, pairs[0].1] + rest);
        assert(text.skip(2) =~= rest);
        assert forall|i: int| 0 <= i < text.len() implies is_hex_digit(#[trigger] text[i]) by {
            if i >= 2 {
                assert(text[i] == rest[i - 2]);
            }
        }
        assert(bytes =~= seq![bytes[0]] + bytes.skip(1));
    }
}

/// The digits of a byte with at most a comma behind them, and then nothing or a space, are
/// read as the byte, and what follows on its own.
proof fn lemma_word_is_read(pair: (char, char), byte: u8, tail: Seq<char>, rest: Seq<char>)
    requires
        spells_byte(pair, byte),
        tail == Seq::<char>::empty() || tail == seq![','],
    ensures
        words_bytes(seq![pair.0, pair.1] + tail) == seq![byte],
        words_bytes(seq![pair.0, pair.1] + tail + seq![' '] + rest) == seq![byte] + words_bytes(
            rest,
        ),
{
    let stop = |ch: char| is_space(ch);
    let digits = seq![pair.0, pair.1];
    let word = digits + tail;
    let end = word.len() as int;
    assert(pair_bytes(digits) =~= seq![byte]) by {
        assert(digits.skip(2) =~= Seq::empty());
        assert(pair_bytes(Seq::<char>::empty()) =~= Seq::<u8>::empty());
    }
    lemma_digits_are_read(digits, tail);
    assert(words_bytes(word) == seq![byte]) by {
        lemma_first_is(word, stop, end);
        assert(word.take(end) =~= word);
        assert(word.skip(end) =~= Seq::empty());
        assert(words_bytes(Seq::<char>::empty()) =~= Seq::<u8>::empty());
        assert(words_bytes(word) =~= seq![byte]);
    }
    let text = word + seq![' '] + rest;
    lemma_first_is(text, stop, end);
    assert(text.take(end) =~= word);
    let left = text.skip(end);
    assert(left[0] == ' ');
    assert(left.skip(1) =~= rest);
    assert(words_bytes(left) == words_bytes(rest));
}

/// A line of words that are digits, each with at most a comma behind it, is read as their
/// bytes.
proof fn lemma_words_are_read(pairs: Seq<(char, char)>, bytes: Seq<u8>, between: Seq<char>)
    requires
        spell_bytes(pairs, bytes),
        pairs.len() > 0,
        between == seq![' '] || between == seq![',', ' '],
    ensures
        words_bytes(joined(pairs, between)) == bytes,
    decreases pairs.len(),
{
    let text = joined(pairs, between);
    assert(spells_byte(pairs[0], bytes[0]));
    if pairs.len() == 1 {
        lemma_word_is_read(pairs[0], bytes[0], Seq::empty(), Seq::empty());
        assert(text =~= seq![pairs[0].0, pairs[0].1] + Seq::<char>::empty());
        assert(bytes =~= seq![bytes[0]]);
    } else {
        let rest = joined(pairs.skip(1), between);
        let tail = between.drop_last();
        assert(tail =~= Seq::<char>::empty() || tail =~= seq![',']);
        assert(between =~= tail + seq![' ']);
        assert forall|i: int| 0 <= i < pairs.skip(1).len() implies spells_byte(
            #[trigger] pairs.skip(1)[i],
            bytes.skip(1)[i],
        ) by {
            assert(spells_byte(pairs[i + 1], bytes[i + 1]));
        }
        lemma_words_are_read(pairs.skip(1), bytes.skip(1), between);
        lemma_word_is_read(pairs[0], bytes[0], tail, rest);
        assert(text =~= seq![pairs[0].0, pairs[0].1] + tail + seq![' '] + rest);
        assert(bytes =~= seq![bytes[0]] + bytes.skip(1));
    }
}

/// A line that begins and ends with a digit, and holds neither an offset nor the end of a
/// line, is read as its words.
proof fn lemma_line_is_its_words(text: Seq<char>)
    requires
        text.len() > 0,
        is_hex_digit(text[0]),
        is_hex_digit(text.last()),
        forall|i: int|
            0 <= i < text.len() ==> #[trigger] text[i] != ':' && text[i] != '\n',
    ensures
        dump_bytes(text) == words_bytes(text),
        line_bytes(text) == words_bytes(text),
{
    let drop = |ch: char| is_space(ch);
    lemma_first_is(text, |ch: char| ch == '\n', text.len() as int);
    lemma_trim_front(text, drop, 0);
    assert(text.skip(0) =~= text);
    lemma_trim_back(text, drop, text.len() as int);
    assert(text.take(text.len() as int) =~= text);
    lemma_first_is(text, |ch: char| ch == ':', text.len() as int);
}

/// A written dump reads back as its bytes: two digits for each, in either case, with
/// nothing, a space, the end of a line, or a comma and a space between them.
pub proof fn law_written_dump_is_read_back(
    bytes: Seq<u8>,
    pairs: Seq<(char, char)>,
    between: Seq<char>,
)
    requires
        bytes.len() > 0,
        spell_bytes(pairs, bytes),
        is_separator(between),
    ensures
        dump_bytes(joined(pairs, between)) == bytes,
    decreases bytes.len(),
{
    let text = joined(pairs, between);
    lemma_joined(pairs, bytes, between);
    if between == Seq::<char>::empty() {
        lemma_pairs_are_read(pairs, bytes);
        assert forall|i: int| 0 <= i < text.len() implies #[trigger] text[i] != ':' && text[i]
            != '\n' && !is_space(text[i]) by {
            assert(is_hex_digit(text[i]));
        }
        lemma_line_is_its_words(text);
        lemma_first_is(text, |ch: char| is_space(ch), text.len() as int);
        lemma_digits_are_read(text, Seq::empty());
        assert(text.take(text.len() as int) =~= text + Seq::<char>::empty());
        assert(text.skip(text.len() as int) =~= Seq::empty());
        assert(words_bytes(Seq::<char>::empty()) =~= Seq::<u8>::empty());
        assert(words_bytes(text) =~= bytes);
    } else if between == seq!['\n'] {
        let pair = seq![pairs[0].0, pairs[0].1];
        assert(spells_byte(pairs[0], bytes[0]));
        lemma_line_is_its_words(pair);
        lemma_words_are_read(pairs.take(1), bytes.take(1), seq![' ']);
        assert(joined(pairs.take(1), seq![' ']) =~= pair);
        assert(bytes.take(1) =~= seq![bytes[0]]);
        if pairs.len() == 1 {
            assert(bytes =~= seq![bytes[0]]);
        } else {
            assert forall|i: int| 0 <= i < pairs.skip(1).len() implies spells_byte(
                #[trigger] pairs.skip(1)[i],
                bytes.skip(1)[i],
            ) by {
                assert(spells_byte(pairs[i + 1], bytes[i + 1]));
            }
            law_written_dump_is_read_back(bytes.skip(1), pairs.skip(1), between);
            let rest = joined(pairs.skip(1), between);
            lemma_first_is(text, |ch: char| ch == '\n', 2);
            assert(text.take(2) =~= pair);
            assert(text.skip(3) =~= rest);
            assert(bytes =~= seq![bytes[0]] + bytes.skip(1));
        }
    } else {
        assert forall|i: int| 0 <= i < text.len() implies #[trigger] text[i] != ':' && text[i]
            != '\n' by {
            assert(is_hex_digit(text[i]) || between.contains(text[i]));
        }
        lemma_line_is_its_words(text);
        lemma_words_are_read(pairs, bytes, between);
    }
}

/// The lines of a dump are read each by itself: two dumps with a line break between them give
/// the bytes of the one and then those of the other, whatever stands in either.
pub proof fn law_lines_are_read_apart(first: Seq<char>, second: Seq<char>)
    ensures
        dump_bytes(first + seq!['\n'] + second) == dump_bytes(first) + dump_bytes(second),
    decreases first.len(),
{
    let stop = |ch: char| ch == '\n';
    let text = first + seq!['\n'] + second;
    let end = first_at(first, stop);
    lemma_first_at(first, stop);
    assert forall|i: int| 0 <= i < end implies !stop(#[trigger] text[i]) by {
        assert(text[i] == first[i]);
    }
    if end < first.len() {
        let rest = first.skip(end + 1);
        assert(text[end] == first[end]);
        lemma_first_is(text, stop, end);
        assert(text.take(end) =~= first.take(end));
        assert(text.skip(end + 1) =~= rest + seq!['\n'] + second);
        law_lines_are_read_apart(rest, second);
        assert(line_bytes(first.take(end)) + (dump_bytes(rest) + dump_bytes(second)) =~= (
        line_bytes(first.take(end)) + dump_bytes(rest)) + dump_bytes(second));
    } else {
        assert(text[end] == '\n');
        lemma_first_is(text, stop, end);
        assert(text.take(end) =~= first);
        assert(text.skip(end + 1) =~= second);
    }
}

} // verus!

//! The kernel's list of mappings, line by line.
use crate::text::{chars_of, hex_of, is_blank, is_space, utf8_text};
use vstd::prelude::*;
use vstd::slice::slice_subrange;
use vstd::utf8::{decode_utf8, encode_utf8, valid_utf8};

verus! {

/// Longer lines are skipped.
pub const MAX_MAPS_LINE_LEN: usize = 4096;

/// A readable run of addresses.
#[derive(Clone, Copy, Debug, PartialEq, Eq, Structural)]
pub struct ReadableMapping {
    pub start: usize,
    pub end: usize,
}

/// The bytes that a character takes as UTF-8.
pub open spec fn width_of(ch: char) -> nat {
    if (ch as u32) < 0x80 {
        1
    } else if (ch as u32) < 0x800 {
        2
    } else if (ch as u32) < 0x10000 {
        3
    } else {
        4
    }
}

/// The bytes that a line takes as UTF-8.
pub open spec fn byte_length(line: Seq<char>) -> nat
    decreases line.len(),
{
    if line.len() == 0 {
        0
    } else {
        byte_length(line.drop_last()) + width_of(line.last())
    }
}

/// Whether a line takes more bytes than a line that is read.
fn is_too_long(line: &[char]) -> (long: bool)
    ensures
        long == (byte_length(line@) > MAX_MAPS_LINE_LEN),
{
    let mut size: usize = 0;
    let mut i: usize = 0;
    assert(line@.take(0) =~= Seq::empty());
    while i < line.len()
        invariant
            i <= line@.len(),
            size <= MAX_MAPS_LINE_LEN,
            size == byte_length(line@.take(i as int)),
        decreases line@.len() - i,
    {
        assert(line@.take(i + 1).drop_last() =~= line@.take(i as int));
        let code: u32 = line[i] as u32;
        size = size + if code < 0x80 {
            1
        } else if code < 0x800 {
            2
        } else if code < 0x10000 {
            3
        } else {
            4
        };
        i = i + 1;
        if size > MAX_MAPS_LINE_LEN {
            proof {
                lemma_length_grows(line@, i as int);
            }
            return true;
        }
    }
    assert(line@.take(i as int) =~= line@);
    false
}

proof fn lemma_length_grows(line: Seq<char>, shorter: int)
    requires
        0 <= shorter <= line.len(),
    ensures
        byte_length(line.take(shorter)) <= byte_length(line),
    decreases line.len(),
{
    if shorter == line.len() {
        assert(line.take(shorter) =~= line);
    } else {
        lemma_length_grows(line.drop_last(), shorter);
        assert(line.drop_last().take(shorter) =~= line.take(shorter));
    }
}

/// The first place from `from` on that is no blank.
pub open spec fn blanks_end(line: Seq<char>, from: int) -> int
    decreases line.len() - from,
{
    if from < 0 || from >= line.len() || !is_space(line[from]) {
        from
    } else {
        blanks_end(line, from + 1)
    }
}

/// The first place from `from` on that is a blank or the end.
pub open spec fn word_end(line: Seq<char>, from: int) -> int
    decreases line.len() - from,
{
    if from < 0 || from >= line.len() || is_space(line[from]) {
        from
    } else {
        word_end(line, from + 1)
    }
}

/// The first place of a character from `from` on.
pub open spec fn char_place(row: Seq<char>, ch: char, from: int) -> Option<int>
    decreases row.len() - from,
{
    if from < 0 || from >= row.len() {
        None
    } else if row[from] == ch {
        Some(from)
    } else {
        char_place(row, ch, from + 1)
    }
}

/// The value of a hexadecimal digit.
pub open spec fn hex_digit(ch: char) -> Option<int> {
    if '0' <= ch <= '9' {
        Some(ch as int - 48)
    } else if 'a' <= ch <= 'f' {
        Some(ch as int - 87)
    } else if 'A' <= ch <= 'F' {
        Some(ch as int - 55)
    } else {
        None
    }
}

/// The number that hexadecimal digits stand for.
pub open spec fn hex_number(digits: Seq<char>) -> Option<int>
    decreases digits.len(),
{
    if digits.len() == 0 {
        Some(0)
    } else {
        match (hex_number(digits.drop_last()), hex_digit(digits.last())) {
            (Some(high), Some(low)) => Some(high * 16 + low),
            _ => None,
        }
    }
}

/// The digits behind an optional plus sign.
pub open spec fn hex_body(text: Seq<char>) -> Seq<char> {
    if text.len() > 0 && text[0] == '+' {
        text.skip(1)
    } else {
        text
    }
}

/// The address that a text stands for, if it is one.
pub open spec fn hex_address(text: Seq<char>) -> Option<int> {
    let digits = hex_body(text);
    match hex_number(digits) {
        Some(value) => if digits.len() > 0 && value <= usize::MAX {
            Some(value)
        } else {
            None
        },
        None => None,
    }
}

fn digit_of(ch: char) -> (digit: Option<usize>)
    ensures
        digit is Some <==> hex_digit(ch) is Some,
        digit is Some ==> digit->0 == hex_digit(ch)->0 && digit->0 < 16,
{
    let code: u32 = ch as u32;
    if 48 <= code && code <= 57 {
        Some((code - 48) as usize)
    } else if 97 <= code && code <= 102 {
        Some((code - 87) as usize)
    } else if 65 <= code && code <= 70 {
        Some((code - 55) as usize)
    } else {
        None
    }
}

proof fn lemma_hex_grows(digits: Seq<char>, shorter: int)
    requires
        0 <= shorter <= digits.len(),
        hex_number(digits) is Some,
    ensures
        hex_number(digits.take(shorter)) is Some,
        0 <= hex_number(digits.take(shorter))->0 <= hex_number(digits)->0,
    decreases digits.len(),
{
    if shorter == digits.len() {
        assert(digits.take(shorter) =~= digits);
        if digits.len() > 0 {
            lemma_hex_grows(digits.drop_last(), 0);
            assert(digits.drop_last().take(0) =~= Seq::empty());
        }
    } else {
        lemma_hex_grows(digits.drop_last(), shorter);
        assert(digits.drop_last().take(shorter) =~= digits.take(shorter));
    }
}

/// Reads a hexadecimal address.
pub fn parse_hex_address(text: &[char]) -> (address: Option<usize>)
    ensures
        address is Some <==> hex_address(text@) is Some,
        address is Some ==> address->0 == hex_address(text@)->0,
{
    let start: usize = if text.len() > 0 && text[0] == '+' {
        1
    } else {
        0
    };
    let digits: &[char] = slice_subrange(text, start, text.len());
    assert(digits@ =~= hex_body(text@));
    if digits.len() == 0 {
        return None;
    }
    let mut value: usize = 0;
    let mut i: usize = 0;
    assert(digits@.take(0) =~= Seq::empty());
    while i < digits.len()
        invariant
            i <= digits@.len(),
            digits@ == hex_body(text@),
            hex_number(digits@.take(i as int)) == Some(value as int),
        decreases digits@.len() - i,
    {
        assert(digits@.take(i + 1).drop_last() =~= digits@.take(i as int));
        proof {
            if hex_number(digits@) is Some {
                lemma_hex_grows(digits@, i + 1);
            }
        }
        match digit_of(digits[i]) {
            Some(digit) => {
                if value > (usize::MAX - digit) / 16 {
                    return None;
                }
                value = value * 16 + digit;
            },
            None => {
                return None;
            },
        }
        i = i + 1;
    }
    assert(digits@.take(i as int) =~= digits@);
    Some(value)
}

/// The readable mapping that a line stands for, if it is one.
pub open spec fn mapping_of(line: Seq<char>) -> Option<ReadableMapping> {
    let start = blanks_end(line, 0);
    let end = word_end(line, start);
    let permissions = blanks_end(line, end);
    let range = line.subrange(start, end);
    if byte_length(line) > MAX_MAPS_LINE_LEN || permissions >= line.len() || line[permissions] != 'r' {
        None
    } else {
        match char_place(range, '-', 0) {
            Some(dash) => match (hex_address(range.take(dash)), hex_address(range.skip(dash + 1))) {
                (Some(first), Some(last)) => Some(
                    ReadableMapping { start: first as usize, end: last as usize },
                ),
                _ => None,
            },
            None => None,
        }
    }
}

fn skip_blanks(line: &[char], from: usize) -> (place: usize)
    requires
        from <= line@.len(),
    ensures
        place == blanks_end(line@, from as int),
        from <= place <= line@.len(),
{
    let mut at: usize = from;
    while at < line.len() && is_blank(line[at])
        invariant
            from <= at <= line@.len(),
            blanks_end(line@, from as int) == blanks_end(line@, at as int),
        decreases line@.len() - at,
    {
        at = at + 1;
    }
    at
}

fn skip_word(line: &[char], from: usize) -> (place: usize)
    requires
        from <= line@.len(),
    ensures
        place == word_end(line@, from as int),
        from <= place <= line@.len(),
{
    let mut at: usize = from;
    while at < line.len() && !is_blank(line[at])
        invariant
            from <= at <= line@.len(),
            word_end(line@, from as int) == word_end(line@, at as int),
        decreases line@.len() - at,
    {
        at = at + 1;
    }
    at
}

fn find_char(row: &[char], ch: char) -> (place: Option<usize>)
    ensures
        place is Some <==> char_place(row@, ch, 0) is Some,
        place is Some ==> place->0 == char_place(row@, ch, 0)->0 && place->0 < row@.len(),
{
    let mut at: usize = 0;
    while at < row.len()
        invariant
            at <= row@.len(),
            char_place(row@, ch, 0) == char_place(row@, ch, at as int),
        decreases row@.len() - at,
    {
        if row[at] == ch {
            return Some(at);
        }
        at = at + 1;
    }
    None
}

/// Reads one line of the list.
pub fn parse_mapping(line: &[char]) -> (mapping: Option<ReadableMapping>)
    ensures
        mapping == mapping_of(line@),
{
    if is_too_long(line) {
        return None;
    }
    let start: usize = skip_blanks(line, 0);
    let end: usize = skip_word(line, start);
    let permissions: usize = skip_blanks(line, end);
    if permissions >= line.len() || line[permissions] != 'r' {
        return None;
    }
    let range: &[char] = slice_subrange(line, start, end);
    let dash: usize = match find_char(range, '-') {
        Some(dash) => dash,
        None => {
            return None;
        },
    };
    let first: &[char] = slice_subrange(range, 0, dash);
    let last: &[char] = slice_subrange(range, dash + 1, range.len());
    assert(first@ =~= range@.take(dash as int));
    assert(last@ =~= range@.skip(dash + 1));
    match parse_hex_address(first) {
        Some(start) => match parse_hex_address(last) {
            Some(end) => Some(ReadableMapping { start, end }),
            None => None,
        },
        None => None,
    }
}

/// A line without the carriage return at its end.
pub open spec fn trimmed(line: Seq<char>) -> Seq<char> {
    if line.len() > 0 && line.last() == '\r' {
        line.drop_last()
    } else {
        line
    }
}

/// The readable mappings of the lines from `start` on, as far as the line that ends at
/// or behind `at`.
pub open spec fn mappings_from(contents: Seq<char>, start: int, at: int) -> Seq<ReadableMapping>
    decreases contents.len() - at,
{
    if start < 0 || at < start || at > contents.len() {
        Seq::empty()
    } else if at == contents.len() || contents[at] == '\n' {
        let line = if at == contents.len() {
            contents.subrange(start, at)
        } else {
            trimmed(contents.subrange(start, at))
        };
        let here: Seq<ReadableMapping> = match mapping_of(line) {
            Some(mapping) => seq![mapping],
            None => Seq::empty(),
        };
        if at == contents.len() {
            here
        } else {
            here + mappings_from(contents, at + 1, at + 1)
        }
    } else {
        mappings_from(contents, start, at + 1)
    }
}

/// The readable mappings of a list, in its order. A list that is no text gives nothing.
pub fn readable_mappings(list: &[u8]) -> (mappings: Option<Vec<ReadableMapping>>)
    ensures
        mappings is Some <==> valid_utf8(list@),
        mappings is Some ==> mappings->0@ == mappings_from(decode_utf8(list@), 0, 0),
{
    match utf8_text(list) {
        Ok(text) => Some(mappings_of_text(chars_of(text.as_str()).as_slice())),
        Err(_) => None,
    }
}

fn mappings_of_text(contents: &[char]) -> (mappings: Vec<ReadableMapping>)
    ensures
        mappings@ == mappings_from(contents@, 0, 0),
{
    let mut mappings: Vec<ReadableMapping> = Vec::new();
    let mut start: usize = 0;
    let mut at: usize = 0;
    assert(mappings@ + mappings_from(contents@, 0, 0) =~= mappings_from(contents@, 0, 0));
    while at < contents.len()
        invariant
            start <= at <= contents@.len(),
            mappings@ + mappings_from(contents@, start as int, at as int) == mappings_from(
                contents@,
                0,
                0,
            ),
        decreases contents@.len() - at,
    {
        if contents[at] == '\n' {
            let end: usize = if at > start && contents[at - 1] == '\r' {
                at - 1
            } else {
                at
            };
            let ghost before = mappings@;
            let ghost rest = mappings_from(contents@, at + 1, at + 1);
            let line: &[char] = slice_subrange(contents, start, end);
            assert(line@ =~= trimmed(contents@.subrange(start as int, at as int)));
            if let Some(mapping) = parse_mapping(line) {
                mappings.push(mapping);
                assert(mappings@ + rest =~= before + (seq![mapping] + rest));
            } else {
                assert(before + (Seq::<ReadableMapping>::empty() + rest) =~= before + rest);
            }
            start = at + 1;
        }
        at = at + 1;
    }
    let ghost before = mappings@;
    let line: &[char] = slice_subrange(contents, start, at);
    if let Some(mapping) = parse_mapping(line) {
        mappings.push(mapping);
        assert(mappings@ =~= before + seq![mapping]);
    } else {
        assert(before + Seq::<ReadableMapping>::empty() =~= before);
    }
    mappings
}

/// Whether a run of addresses lies in one readable mapping.
pub open spec fn is_mapped(address: int, length: int, mappings: Seq<ReadableMapping>) -> bool {
    address + length <= usize::MAX && exists|i: int|
        0 <= i < mappings.len() && (#[trigger] mappings[i]).start <= address && address + length
            <= mappings[i].end
}

pub fn is_readable(address: usize, length: usize, mappings: &Vec<ReadableMapping>) -> (readable:
    bool)
    ensures
        readable == is_mapped(address as int, length as int, mappings@),
{
    let end: usize = match address.checked_add(length) {
        Some(end) => end,
        None => {
            return false;
        },
    };
    let mut i: usize = 0;
    while i < mappings.len()
        invariant
            i <= mappings@.len(),
            end == address + length,
            forall|k: int|
                0 <= k < i ==> !((#[trigger] mappings@[k]).start <= address && end
                    <= mappings@[k].end),
        decreases mappings@.len() - i,
    {
        let mapping: ReadableMapping = mappings[i];
        if address >= mapping.start && end <= mapping.end {
            assert(mappings@[i as int] == mapping);
            return true;
        }
        i = i + 1;
    }
    false
}

/// The length of a line is that of its UTF-8 form.
pub proof fn law_lengths_are_those_of_the_bytes(line: Seq<char>)
    ensures
        byte_length(line) == encode_utf8(line).len(),
    decreases line.len(),
{
    if line.len() > 0 {
        law_lengths_are_those_of_the_bytes(line.drop_first());
        lemma_length_from_the_front(line);
        vstd::utf8::char_is_scalar(line[0]);
    }
}

proof fn lemma_length_from_the_front(line: Seq<char>)
    requires
        line.len() > 0,
    ensures
        byte_length(line) == width_of(line[0]) + byte_length(line.drop_first()),
    decreases line.len(),
{
    if line.len() > 1 {
        lemma_length_from_the_front(line.drop_last());
        assert(line.drop_last().drop_first() =~= line.drop_first().drop_last());
        assert(line.drop_first().last() == line.last());
        assert(line.drop_last()[0] == line[0]);
    } else {
        assert(line.drop_last() =~= Seq::empty());
        assert(line.drop_first() =~= Seq::empty());
        assert(byte_length(line.drop_last()) == 0);
    }
}

/// The digits of a number are read back, and hold neither a blank nor a dash nor a sign.
proof fn lemma_hex_is_read_back(value: nat)
    ensures
        hex_of(value).len() > 0,
        hex_number(hex_of(value)) == Some(value as int),
        forall|k: int|
            0 <= k < hex_of(value).len() ==> !is_space(#[trigger] hex_of(value)[k])
                && hex_of(value)[k] != '-' && hex_of(value)[k] != '+',
    decreases value,
{
    let digits = hex_of(value);
    if value < 16 {
        assert(digits.drop_last() =~= Seq::empty());
        assert(hex_number(digits.drop_last()) == Some(0int));
        assert(digits.last() == digits[0]);
    } else {
        lemma_hex_is_read_back(value / 16);
        assert(digits.drop_last() =~= hex_of(value / 16));
        assert(hex_digit(digits.last()) == Some((value % 16) as int));
        assert(hex_number(digits) == Some((value / 16) * 16 + (value % 16) as int));
    }
}

/// Every address is read back from its digits, with or without a plus sign before them.
pub proof fn law_addresses_are_read_back(value: usize)
    ensures
        hex_address(hex_of(value as nat)) == Some(value as int),
        hex_address(seq!['+'] + hex_of(value as nat)) == Some(value as int),
{
    lemma_hex_is_read_back(value as nat);
    assert((seq!['+'] + hex_of(value as nat)).skip(1) =~= hex_of(value as nat));
}

proof fn lemma_word_ends(line: Seq<char>, from: int, end: int)
    requires
        0 <= from <= end <= line.len(),
        forall|k: int| from <= k < end ==> !is_space(line[k]),
        end < line.len() ==> is_space(line[end]),
    ensures
        word_end(line, from) == end,
    decreases end - from,
{
    if from < end {
        lemma_word_ends(line, from + 1, end);
    }
}

proof fn lemma_char_is_placed(row: Seq<char>, ch: char, from: int, place: int)
    requires
        0 <= from <= place < row.len(),
        row[place] == ch,
        forall|k: int| from <= k < place ==> row[k] != ch,
    ensures
        char_place(row, ch, from) == Some(place),
    decreases place - from,
{
    if from < place {
        lemma_char_is_placed(row, ch, from + 1, place);
    }
}

/// A line as the kernel writes it, two addresses with a dash between them, a space and the
/// permissions, gives its mapping exactly where the mapping is readable and the line is not
/// too long.
pub proof fn law_written_mappings_are_read(start: usize, end: usize, rest: Seq<char>)
    requires
        rest.len() > 0,
        !is_space(rest[0]),
    ensures
        ({
            let line = hex_of(start as nat) + seq!['-'] + hex_of(end as nat) + seq![' '] + rest;
            mapping_of(line) == if rest[0] == 'r' && encode_utf8(line).len() <= 4096 {
                Some(ReadableMapping { start, end })
            } else {
                None
            }
        }),
{
    let first = hex_of(start as nat);
    let last = hex_of(end as nat);
    let range = first + seq!['-'] + last;
    let line = first + seq!['-'] + last + seq![' '] + rest;
    lemma_hex_is_read_back(start as nat);
    lemma_hex_is_read_back(end as nat);
    law_addresses_are_read_back(start);
    law_addresses_are_read_back(end);
    law_lengths_are_those_of_the_bytes(line);
    let place = first.len() as int;
    let stop = range.len() as int;
    assert(line[place] == '-');
    assert(line[stop] == ' ');
    assert(line[stop + 1] == rest[0]);
    assert forall|k: int| 0 <= k < stop implies !is_space(line[k]) by {
        if k < place {
            assert(line[k] == first[k]);
        } else if k > place {
            assert(line[k] == last[k - place - 1]);
        }
    }
    assert(line[0] == first[0]);
    assert(blanks_end(line, 0) == 0);
    lemma_word_ends(line, 0, stop);
    assert(blanks_end(line, stop + 1) == stop + 1);
    assert(blanks_end(line, stop) == stop + 1);
    assert(line.subrange(0, stop) =~= range);
    assert forall|k: int| 0 <= k < place implies range[k] != '-' by {
        assert(range[k] == first[k]);
    }
    lemma_char_is_placed(range, '-', 0, place);
    assert(range.take(place) =~= first);
    assert(range.skip(place + 1) =~= last);
}

proof fn lemma_list_begins(contents: Seq<char>, at: int, end: int, rest: Seq<char>)
    requires
        0 <= at <= end < contents.len(),
        contents[end] == '\n',
        forall|k: int| 0 <= k < end ==> contents[k] != '\n',
        rest == contents.skip(end + 1),
    ensures
        mappings_from(contents, 0, at) == (match mapping_of(trimmed(contents.take(end))) {
            Some(mapping) => seq![mapping],
            None => Seq::empty(),
        }) + mappings_from(rest, 0, 0),
    decreases end - at,
{
    if at < end {
        lemma_list_begins(contents, at + 1, end, rest);
    } else {
        assert(contents.subrange(0, at) =~= contents.take(end));
        lemma_lists_are_shifted(contents, rest, end + 1, 0, 0);
    }
}

/// What stands before a line does not bear on it.
proof fn lemma_lists_are_shifted(
    contents: Seq<char>,
    rest: Seq<char>,
    by: int,
    start: int,
    at: int,
)
    requires
        0 <= by <= contents.len(),
        rest == contents.skip(by),
        0 <= start <= at <= rest.len(),
    ensures
        mappings_from(contents, by + start, by + at) == mappings_from(rest, start, at),
    decreases rest.len() - at,
{
    assert(contents.subrange(by + start, by + at) =~= rest.subrange(start, at));
    if at < rest.len() {
        assert(contents[by + at] == rest[at]);
        if rest[at] == '\n' {
            lemma_lists_are_shifted(contents, rest, by, at + 1, at + 1);
        } else {
            lemma_lists_are_shifted(contents, rest, by, start, at + 1);
        }
    }
}

proof fn lemma_last_line(line: Seq<char>, at: int)
    requires
        0 <= at <= line.len(),
        forall|k: int| 0 <= k < line.len() ==> line[k] != '\n',
    ensures
        mappings_from(line, 0, at) == (match mapping_of(line) {
            Some(mapping) => seq![mapping],
            None => Seq::<ReadableMapping>::empty(),
        }),
    decreases line.len() - at,
{
    if at < line.len() {
        lemma_last_line(line, at + 1);
    } else {
        assert(line.subrange(0, at) =~= line);
    }
}

/// A list gives the mapping of its first line, if that is one, and then those of the lines
/// behind it: no line is lost, whatever the others hold. A carriage return before the line
/// feed is no part of the line.
pub proof fn law_every_line_is_read(line: Seq<char>, rest: Seq<char>)
    requires
        forall|k: int| 0 <= k < line.len() ==> line[k] != '\n' && line[k] != '\r',
    ensures
        ({
            let here = match mapping_of(line) {
                Some(mapping) => seq![mapping],
                None => Seq::<ReadableMapping>::empty(),
            };
            &&& mappings_from(line, 0, 0) == here
            &&& mappings_from(line + seq!['\n'] + rest, 0, 0) == here + mappings_from(rest, 0, 0)
            &&& mappings_from(line + seq!['\r', '\n'] + rest, 0, 0) == here + mappings_from(
                rest,
                0,
                0,
            )
        }),
{
    lemma_last_line(line, 0);
    let plain = line + seq!['\n'] + rest;
    assert(plain.skip(line.len() as int + 1) =~= rest);
    assert(plain.take(line.len() as int) =~= line);
    assert(line.len() > 0 ==> line.last() == line[line.len() - 1]);
    assert(trimmed(line) == line);
    lemma_list_begins(plain, 0, line.len() as int, rest);
    let returned = line + seq!['\r', '\n'] + rest;
    assert(returned.skip(line.len() as int + 2) =~= rest);
    assert(returned.take(line.len() as int + 1) =~= line.push('\r'));
    assert(trimmed(line.push('\r')) =~= line);
    lemma_list_begins(returned, 0, line.len() as int + 1, rest);
}

/// What lies in one mapping is readable, every part of it is, and what is readable lies in one
/// mapping from its first address to its last.
pub proof fn law_mapped_addresses_are_readable(
    address: usize,
    length: usize,
    mappings: Vec<ReadableMapping>,
    mapping: ReadableMapping,
    readable: bool,
)
    requires
        call_ensures(is_readable, (address, length, &mappings), readable),
    ensures
        mappings@.contains(mapping) && mapping.start <= address && address + length <= mapping.end
            ==> readable,
        readable ==> exists|other: ReadableMapping| #[trigger]
            mappings@.contains(other) && other.start <= address && address + length <= other.end,
        readable ==> forall|part: usize, size: usize|
            address <= part && part + size <= address + length ==> #[trigger] is_mapped(
                part as int,
                size as int,
                mappings@,
            ),
{
    if mappings@.contains(mapping) {
        let i = choose|i: int| 0 <= i < mappings@.len() && mappings@[i] == mapping;
        assert(mappings@[i].start == mapping.start);
    }
    if readable {
        let i = choose|i: int|
            0 <= i < mappings@.len() && (#[trigger] mappings@[i]).start <= address && address
                + length <= mappings@[i].end;
        assert(mappings@.contains(mappings@[i]));
    }
}

} // verus!

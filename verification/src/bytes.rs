//! Byte rows: little-endian numbers and fixed sequences inside them.
use vstd::prelude::*;
use vstd::slice::slice_subrange;

verus! {

/// The number that a row of bytes stands for, least significant byte first.
pub open spec fn le_value(bytes: Seq<u8>) -> nat
    decreases bytes.len(),
{
    if bytes.len() == 0 {
        0
    } else {
        (bytes[0] + 256 * le_value(bytes.skip(1))) as nat
    }
}

/// The bytes of `value`, least significant first, in `width` places.
pub open spec fn le_bytes(value: nat, width: nat) -> Seq<u8>
    decreases width,
{
    if width == 0 {
        Seq::empty()
    } else {
        seq![(value % 256) as u8] + le_bytes(value / 256, (width - 1) as nat)
    }
}

/// A 32-bit pattern read as a signed number.
pub open spec fn signed_32(value: int) -> int {
    if value < 0x8000_0000 {
        value
    } else {
        value - 0x1_0000_0000
    }
}

/// How large a row of at most eight bytes can get.
pub open spec fn byte_bound(width: nat) -> nat
    decreases width,
{
    if width == 0 {
        1
    } else {
        256 * byte_bound((width - 1) as nat)
    }
}

proof fn lemma_le_value_bound(bytes: Seq<u8>)
    ensures
        le_value(bytes) < byte_bound(bytes.len()),
    decreases bytes.len(),
{
    if bytes.len() > 0 {
        lemma_le_value_bound(bytes.skip(1));
    }
}

proof fn lemma_bound_of_eight()
    ensures
        byte_bound(0) == 1,
        byte_bound(1) == 0x100,
        byte_bound(2) == 0x1_0000,
        byte_bound(3) == 0x100_0000,
        byte_bound(4) == 0x1_0000_0000,
        byte_bound(5) == 0x100_0000_0000,
        byte_bound(6) == 0x1_0000_0000_0000,
        byte_bound(7) == 0x100_0000_0000_0000,
        byte_bound(8) == 0x1_0000_0000_0000_0000,
{
    reveal_with_fuel(byte_bound, 9);
}

/// Reads at most eight bytes, least significant first.
pub fn le_number(bytes: &[u8]) -> (value: u64)
    requires
        bytes@.len() <= 8,
    ensures
        value == le_value(bytes@),
{
    let mut value: u64 = 0;
    let mut i: usize = bytes.len();
    proof {
        lemma_bound_of_eight();
        assert(bytes@.skip(i as int) =~= Seq::empty());
    }
    while i > 0
        invariant
            i <= bytes.len() <= 8,
            value == le_value(bytes@.skip(i as int)),
            value < byte_bound((bytes.len() - i) as nat),
        decreases i,
    {
        i = i - 1;
        proof {
            lemma_bound_of_eight();
            assert(bytes@.skip(i as int).skip(1) =~= bytes@.skip(i + 1));
            lemma_le_value_bound(bytes@.skip(i as int));
        }
        value = value * 256 + bytes[i] as u64;
    }
    assert(bytes@.skip(0) =~= bytes@);
    value
}

/// Reads four bytes, least significant first.
pub fn le_u32(bytes: &[u8]) -> (value: u32)
    requires
        bytes@.len() == 4,
    ensures
        value == le_value(bytes@),
{
    proof {
        lemma_bound_of_eight();
        lemma_le_value_bound(bytes@);
    }
    le_number(bytes) as u32
}

/// Reads four bytes, least significant first, as a signed number.
pub fn le_i32(bytes: &[u8]) -> (value: i32)
    requires
        bytes@.len() == 4,
    ensures
        value == signed_32(le_value(bytes@) as int),
{
    let pattern: u32 = le_u32(bytes);
    assert(pattern < 0x8000_0000 ==> (pattern as i32) == pattern) by (bit_vector);
    assert(pattern >= 0x8000_0000 ==> (pattern as i32) == pattern - 0x1_0000_0000) by (bit_vector);
    pattern as i32
}

/// The bytes of `value`, least significant first, in `width` places.
pub fn to_le_bytes(value: u64, width: usize) -> (bytes: Vec<u8>)
    ensures
        bytes@ == le_bytes(value as nat, width as nat),
{
    let mut bytes: Vec<u8> = Vec::new();
    let mut rest: u64 = value;
    let mut i: usize = 0;
    while i < width
        invariant
            i <= width,
            bytes@ + le_bytes(rest as nat, (width - i) as nat) == le_bytes(
                value as nat,
                width as nat,
            ),
        decreases width - i,
    {
        proof {
            let before = bytes@;
            let tail = le_bytes((rest / 256) as nat, (width - i - 1) as nat);
            assert(before + (seq![(rest % 256) as u8] + tail) =~= before.push((rest % 256) as u8)
                + tail);
        }
        bytes.push((rest % 256) as u8);
        rest = rest / 256;
        i = i + 1;
    }
    assert(bytes@ + le_bytes(rest as nat, 0) =~= bytes@);
    bytes
}

/// A number that fits in its width comes back from its bytes.
pub proof fn law_le_bytes_round_trip(value: nat, width: nat)
    requires
        value < byte_bound(width),
    ensures
        le_bytes(value, width).len() == width,
        le_value(le_bytes(value, width)) == value,
    decreases width,
{
    if width > 0 {
        let rest = byte_bound((width - 1) as nat);
        assert(value / 256 < rest) by (nonlinear_arith)
            requires
                value < 256 * rest,
        ;
        law_le_bytes_round_trip(value / 256, (width - 1) as nat);
        let bytes = le_bytes(value, width);
        assert(bytes.skip(1) =~= le_bytes(value / 256, (width - 1) as nat));
    }
}

/// Whether `needle` stands in `bytes` at `at`.
pub open spec fn occurs_at(bytes: Seq<u8>, needle: Seq<u8>, at: int) -> bool {
    0 <= at && at + needle.len() <= bytes.len() && bytes.subrange(at, at + needle.len()) == needle
}

/// Whether `needle` stands anywhere in `bytes`.
pub open spec fn occurs(bytes: Seq<u8>, needle: Seq<u8>) -> bool {
    exists|at: int| occurs_at(bytes, needle, at)
}

/// Whether two rows of bytes are the same.
pub fn same_bytes(left: &[u8], right: &[u8]) -> (same: bool)
    ensures
        same == (left@ == right@),
{
    if left.len() != right.len() {
        return false;
    }
    let mut i: usize = 0;
    while i < left.len()
        invariant
            i <= left.len() == right.len(),
            forall|k: int| 0 <= k < i ==> left@[k] == right@[k],
        decreases left.len() - i,
    {
        if left[i] != right[i] {
            assert(left@[i as int] != right@[i as int]);
            return false;
        }
        i = i + 1;
    }
    assert(left@ =~= right@);
    true
}

/// Whether `needle` stands in `bytes` at `at`.
pub fn seq_at(bytes: &[u8], needle: &[u8], at: usize) -> (found: bool)
    ensures
        found == occurs_at(bytes@, needle@, at as int),
{
    if needle.len() > bytes.len() || at > bytes.len() - needle.len() {
        return false;
    }
    same_bytes(slice_subrange(bytes, at, at + needle.len()), needle)
}

/// The first place of `needle` in `bytes`, from `from` on.
pub fn find_seq_from(bytes: &[u8], needle: &[u8], from: usize) -> (place: Option<usize>)
    ensures
        place is Some ==> {
            &&& place->0 >= from
            &&& occurs_at(bytes@, needle@, place->0 as int)
            &&& forall|at: int| from <= at < place->0 ==> !occurs_at(bytes@, needle@, at)
        },
        place is None ==> forall|at: int| from <= at ==> !occurs_at(bytes@, needle@, at),
{
    let mut at: usize = from;
    while at <= bytes.len()
        invariant
            from <= at,
            forall|k: int| from <= k < at ==> !occurs_at(bytes@, needle@, k),
        decreases bytes.len() + 1 - at,
    {
        if seq_at(bytes, needle, at) {
            return Some(at);
        }
        if at == bytes.len() {
            return None;
        }
        at = at + 1;
    }
    None
}

/// Whether `needle` stands anywhere in `bytes`.
pub fn has_seq(bytes: &[u8], needle: &[u8]) -> (found: bool)
    requires
        needle@.len() > 0,
    ensures
        found == occurs(bytes@, needle@),
{
    match find_seq_from(bytes, needle, 0) {
        Some(_) => true,
        None => false,
    }
}

/// Each byte counts 256 times as much as the one before it, and the fourth one carries the
/// sign where there is one.
pub proof fn law_bytes_count_from_the_least(bytes: &[u8], value: u32, signed: i32)
    requires
        bytes@.len() == 4,
        call_ensures(le_u32, (bytes,), value),
        call_ensures(le_i32, (bytes,), signed),
    ensures
        value == bytes@[0] + 0x100 * bytes@[1] + 0x1_0000 * bytes@[2] + 0x100_0000 * bytes@[3],
        signed < 0 <==> bytes@[3] >= 0x80,
        signed == value || signed == value - 0x1_0000_0000,
{
    let row = bytes@;
    reveal_with_fuel(le_value, 5);
    assert(row.skip(1)[0] == row[1]);
    assert(row.skip(1).skip(1)[0] == row[2]);
    assert(row.skip(1).skip(1).skip(1)[0] == row[3]);
    assert(row.skip(1).skip(1).skip(1).skip(1).len() == 0);
}

/// Less significant bytes stand before more significant ones: a row is the number of its front
/// part and, with the room of that part as its unit, the number of the rest.
pub proof fn law_rows_count_in_parts(front: Seq<u8>, rest: Seq<u8>)
    ensures
        le_value(front + rest) == le_value(front) + byte_bound(front.len()) * le_value(rest),
    decreases front.len(),
{
    if front.len() == 0 {
        assert(front + rest =~= rest);
        assert(byte_bound(0) == 1);
    } else {
        law_rows_count_in_parts(front.skip(1), rest);
        assert((front + rest).skip(1) =~= front.skip(1) + rest);
        assert((front + rest)[0] == front[0]);
        let room = byte_bound((front.len() - 1) as nat);
        let high = le_value(rest);
        assert(256 * (room * high) == (256 * room) * high) by (nonlinear_arith);
    }
}

/// A sequence stands in bytes exactly where the bytes are something, the sequence and something
/// more.
pub proof fn law_sequences_stand_between_others(bytes: Seq<u8>, needle: Seq<u8>)
    ensures
        occurs(bytes, needle) <==> exists|before: Seq<u8>, behind: Seq<u8>|
            bytes == #[trigger] (before + needle + behind),
{
    if occurs(bytes, needle) {
        let at = choose|at: int| occurs_at(bytes, needle, at);
        assert(bytes.subrange(at, at + needle.len()) == needle);
        assert(bytes =~= bytes.take(at) + needle + bytes.skip(at + needle.len()));
    }
    if exists|before: Seq<u8>, behind: Seq<u8>| bytes == #[trigger] (before + needle + behind) {
        let (before, behind) = choose|before: Seq<u8>, behind: Seq<u8>|
            bytes == #[trigger] (before + needle + behind);
        let at = before.len() as int;
        assert(bytes.subrange(at, at + needle.len()) =~= needle);
        assert(occurs_at(bytes, needle, at));
    }
}

} // verus!

//! Machine code: what a run of instructions holds and where it leads.
use crate::bytes::{occurs_at, seq_at};
use vstd::prelude::*;
use vstd::slice::slice_subrange;

verus! {

/// The instruction set of a process.
#[derive(Clone, Copy, Debug, PartialEq, Eq, Structural)]
pub enum Arch {
    X86,
    X64,
}

impl Arch {
    /// The width of an address in bits.
    pub open spec fn bits(self) -> u32 {
        match self {
            Arch::X86 => 32,
            Arch::X64 => 64,
        }
    }

    pub fn bitness(self) -> (bits: u32)
        ensures
            bits == self.bits(),
    {
        match self {
            Arch::X86 => 32,
            Arch::X64 => 64,
        }
    }
}

/// A mapped run of code.
#[derive(Clone, Copy)]
pub struct CodeRegion<'a> {
    pub base: usize,
    pub bytes: &'a [u8],
}

impl<'a> CodeRegion<'a> {
    /// Whether an address lies in the region.
    pub open spec fn holds(self, address: int) -> bool {
        self.base <= address < self.base + self.bytes@.len()
    }
}

/// `iced_x86::FlowControl::UnconditionalBranch`.
pub const FLOW_JUMP: u32 = 1;

/// `iced_x86::FlowControl::IndirectBranch`.
pub const FLOW_INDIRECT_JUMP: u32 = 2;

/// `iced_x86::FlowControl::ConditionalBranch`.
pub const FLOW_CONDITIONAL: u32 = 3;

/// `iced_x86::FlowControl::Return`.
pub const FLOW_RETURN: u32 = 4;

/// `iced_x86::FlowControl::Call`.
pub const FLOW_CALL: u32 = 5;

/// `iced_x86::Mnemonic::Lea`.
pub const MNEMONIC_LEA: u32 = 374;

/// `iced_x86::Mnemonic::Mov`.
pub const MNEMONIC_MOV: u32 = 414;

/// `iced_x86::Mnemonic::Test`.
pub const MNEMONIC_TEST: u32 = 751;

/// `iced_x86::OpKind::Register`.
pub const OPERAND_REGISTER: u32 = 0;

/// `iced_x86::OpKind::Memory`.
pub const OPERAND_MEMORY: u32 = 24;

/// `iced_x86::Register::ECX`.
pub const REGISTER_ECX: u32 = 38;

/// `iced_x86::Register::EDX`.
pub const REGISTER_EDX: u32 = 39;

/// `iced_x86::Register::ESP`.
pub const REGISTER_ESP: u32 = 41;

/// `iced_x86::Register::RDX`.
pub const REGISTER_RDX: u32 = 55;

/// `iced_x86::Register::RSP`.
pub const REGISTER_RSP: u32 = 57;

/// `iced_x86::Register::RSI`.
pub const REGISTER_RSI: u32 = 59;

/// `iced_x86::Register::RDI`.
pub const REGISTER_RDI: u32 = 60;

/// What is read of one decoded instruction. Flow, mnemonic, operand kinds and registers
/// are the numbers of the decoder's own enums.
#[derive(Clone, Copy, Debug, PartialEq, Eq, Structural)]
pub struct Decoded {
    pub invalid: bool,
    pub length: usize,
    pub flow: u32,
    pub mnemonic: u32,
    pub op0_kind: u32,
    pub op1_kind: u32,
    pub op0_register: u32,
    pub op1_register: u32,
    pub memory_base: u32,
    pub memory_displacement: u64,
    pub near_branch_target: u64,
}

/// The instruction that the decoder reads at the start of `bytes`, at address `ip`.
pub uninterp spec fn decoding_of(bitness: u32, bytes: Seq<u8>, ip: u64) -> Decoded;

/// `iced_x86::Decoder::with_ip` and one `decode`, without options: the instruction at
/// the start of `bytes` depends on the width, the bytes and the address alone. A valid
/// instruction is one to fifteen bytes long and ends inside the bytes.
#[verifier::external_body]
fn decode(bitness: u32, bytes: &[u8], ip: u64) -> (decoded: Decoded)
    requires
        bitness == 32 || bitness == 64,
    ensures
        decoded == decoding_of(bitness, bytes@, ip),
        !decoded.invalid ==> 1 <= decoded.length <= 15 && decoded.length <= bytes@.len(),
{
    let options: u32 = iced_x86::DecoderOptions::NONE;
    let instruction = iced_x86::Decoder::with_ip(bitness, bytes, ip, options).decode();
    Decoded {
        invalid: instruction.is_invalid(),
        length: instruction.len(),
        flow: instruction.flow_control() as u32,
        mnemonic: instruction.mnemonic() as u32,
        op0_kind: instruction.op0_kind() as u32,
        op1_kind: instruction.op1_kind() as u32,
        op0_register: instruction.op0_register() as u32,
        op1_register: instruction.op1_register() as u32,
        memory_base: instruction.memory_base() as u32,
        memory_displacement: instruction.memory_displacement64(),
        near_branch_target: instruction.near_branch_target(),
    }
}

/// The instruction at `offset` of code that starts at `ip`.
pub open spec fn instruction_at(arch: Arch, bytes: Seq<u8>, ip: u64, offset: int) -> Decoded {
    decoding_of(arch.bits(), bytes.skip(offset), ip.wrapping_add(offset as u64))
}

/// Decodes the instruction at an offset.
pub fn decode_at(arch: Arch, bytes: &[u8], ip: u64, offset: usize) -> (decoded: Decoded)
    requires
        offset <= bytes@.len(),
    ensures
        decoded == instruction_at(arch, bytes@, ip, offset as int),
        !decoded.invalid ==> 1 <= decoded.length <= 15 && offset + decoded.length <= bytes@.len(),
{
    let tail: &[u8] = slice_subrange(bytes, offset, bytes.len());
    assert(tail@ =~= bytes@.skip(offset as int));
    decode(arch.bitness(), tail, ip.wrapping_add(offset as u64))
}

/// The bytes from `offset` on, at most `len` of them.
pub open spec fn tail_of(bytes: Seq<u8>, offset: int, len: int) -> Seq<u8> {
    if offset + len <= bytes.len() {
        bytes.subrange(offset, offset + len)
    } else {
        bytes.skip(offset)
    }
}

/// The bytes from `offset` on, at most `len` of them; none behind the end.
pub fn bounded_tail(code: &[u8], offset: usize, len: usize) -> (tail: Option<&[u8]>)
    ensures
        tail is Some <==> offset <= code@.len(),
        tail is Some ==> tail->0@ == tail_of(code@, offset as int, len as int),
{
    let size: usize = code.len();
    if offset > size {
        return None;
    }
    let end: usize = if len <= size - offset {
        offset + len
    } else {
        size
    };
    let tail: &[u8] = slice_subrange(code, offset, end);
    assert(tail@ =~= tail_of(code@, offset as int, len as int));
    Some(tail)
}

/// The bytes of a region from an address on, at most `len` of them.
pub fn region_tail<'a>(code: &CodeRegion<'a>, address: usize, len: usize) -> (tail: Option<&'a [u8]>)
    ensures
        tail is Some <==> code.base <= address <= code.base + code.bytes@.len(),
        tail is Some ==> tail->0@ == tail_of(code.bytes@, address - code.base, len as int),
{
    if address < code.base {
        return None;
    }
    bounded_tail(code.bytes, address - code.base, len)
}

/// Whether a pattern stands at `at`; a place that the mask leaves open takes any byte.
pub open spec fn masked_at(bytes: Seq<u8>, pattern: Seq<u8>, mask: Seq<bool>, at: int) -> bool {
    &&& 0 <= at
    &&& at + pattern.len() <= bytes.len()
    &&& forall|k: int|
        0 <= k < pattern.len() && mask[k] ==> #[trigger] bytes[at + k] == pattern[k]
}

/// Whether a masked pattern stands anywhere.
pub open spec fn masked_occurs(bytes: Seq<u8>, pattern: Seq<u8>, mask: Seq<bool>) -> bool {
    exists|at: int| masked_at(bytes, pattern, mask, at)
}

pub fn pattern_at(bytes: &[u8], pattern: &[u8], mask: &[bool], at: usize) -> (found: bool)
    requires
        pattern@.len() == mask@.len(),
    ensures
        found == masked_at(bytes@, pattern@, mask@, at as int),
{
    let size: usize = bytes.len();
    if pattern.len() > size || at > size - pattern.len() {
        return false;
    }
    let mut k: usize = 0;
    while k < pattern.len()
        invariant
            k <= pattern@.len() == mask@.len(),
            at + pattern@.len() <= bytes@.len(),
            bytes@.len() == size,
            forall|j: int| 0 <= j < k && mask@[j] ==> #[trigger] bytes@[at + j] == pattern@[j],
        decreases pattern@.len() - k,
    {
        if mask[k] && bytes[at + k] != pattern[k] {
            assert(bytes@[at + k] != pattern@[k as int]);
            return false;
        }
        k = k + 1;
    }
    true
}

/// The first place of a masked pattern, from `from` on.
pub fn find_pattern_from(bytes: &[u8], pattern: &[u8], mask: &[bool], from: usize) -> (place: Option<
    usize,
>)
    requires
        pattern@.len() == mask@.len(),
    ensures
        place is Some ==> {
            &&& place->0 >= from
            &&& masked_at(bytes@, pattern@, mask@, place->0 as int)
            &&& forall|at: int| from <= at < place->0 ==> !masked_at(bytes@, pattern@, mask@, at)
        },
        place is None ==> forall|at: int| from <= at ==> !masked_at(bytes@, pattern@, mask@, at),
{
    let size: usize = bytes.len();
    let mut at: usize = from;
    while at <= size
        invariant
            from <= at,
            size == bytes@.len(),
            pattern@.len() == mask@.len(),
            forall|k: int| from <= k < at ==> !masked_at(bytes@, pattern@, mask@, k),
        decreases size + 1 - at,
    {
        if pattern_at(bytes, pattern, mask, at) {
            return Some(at);
        }
        if at == size {
            return None;
        }
        at = at + 1;
    }
    None
}

/// Whether a masked pattern stands anywhere.
pub fn has_pattern(bytes: &[u8], pattern: &[u8], mask: &[bool]) -> (found: bool)
    requires
        pattern@.len() == mask@.len(),
    ensures
        found == masked_occurs(bytes@, pattern@, mask@),
{
    match find_pattern_from(bytes, pattern, mask, 0) {
        Some(_) => true,
        None => false,
    }
}

/// A displacement added to an address, if the sum is one.
pub fn displaced(address: usize, displacement: i32) -> (sum: Option<usize>)
    ensures
        sum is Some <==> 0 <= address + displacement <= usize::MAX,
        sum is Some ==> sum->0 == address + displacement,
{
    if displacement >= 0 {
        address.checked_add(displacement as usize)
    } else {
        address.checked_sub((-(displacement as i64)) as usize)
    }
}

/// A displacement added to an address, around the end of the address space.
pub open spec fn wrapped_sum(address: int, displacement: int) -> int {
    let sum = address + displacement;
    if sum < 0 {
        sum + usize::MAX + 1
    } else if sum > usize::MAX {
        sum - usize::MAX - 1
    } else {
        sum
    }
}

pub fn wrapped(address: usize, displacement: i32) -> (sum: usize)
    ensures
        sum == wrapped_sum(address as int, displacement as int),
{
    if displacement >= 0 {
        address.wrapping_add(displacement as usize)
    } else {
        address.wrapping_sub((-(displacement as i64)) as usize)
    }
}

/// Whether the instruction at `from` can be followed by the one at `to`: the next one
/// unless the flow never falls through, and the near target of a direct branch.
pub open spec fn leads_to(arch: Arch, bytes: Seq<u8>, ip: u64, from: int, to: int) -> bool {
    let decoded = instruction_at(arch, bytes, ip, from);
    &&& 0 <= from < bytes.len()
    &&& 0 <= to < bytes.len()
    &&& !decoded.invalid
    &&& (decoded.flow != FLOW_RETURN && decoded.flow != FLOW_INDIRECT_JUMP && decoded.flow
        != FLOW_JUMP && to == from + decoded.length) || ((decoded.flow == FLOW_JUMP || decoded.flow
        == FLOW_CONDITIONAL) && to == decoded.near_branch_target - ip)
}

/// Whether `offset` can be reached from the start in so many steps.
pub open spec fn reached_in(
    arch: Arch,
    bytes: Seq<u8>,
    ip: u64,
    offset: int,
    steps: nat,
) -> bool
    decreases steps,
{
    if steps == 0 {
        offset == 0 && bytes.len() > 0
    } else {
        exists|from: int|
            reached_in(arch, bytes, ip, from, (steps - 1) as nat) && #[trigger] leads_to(
                arch,
                bytes,
                ip,
                from,
                offset,
            )
    }
}

/// Whether an instruction at `offset` can be reached from the start.
pub open spec fn reachable(arch: Arch, bytes: Seq<u8>, ip: u64, offset: int) -> bool {
    exists|steps: nat| reached_in(arch, bytes, ip, offset, steps)
}

proof fn lemma_reach_extends(arch: Arch, bytes: Seq<u8>, ip: u64, from: int, to: int)
    requires
        reachable(arch, bytes, ip, from),
        leads_to(arch, bytes, ip, from, to),
    ensures
        reachable(arch, bytes, ip, to),
{
    let steps = choose|steps: nat| reached_in(arch, bytes, ip, from, steps);
    assert(reached_in(arch, bytes, ip, from, ((steps + 1) - 1) as nat));
    assert(reached_in(arch, bytes, ip, to, steps + 1));
}

/// A set that holds the start and is closed under the flow holds what can be reached.
proof fn lemma_closed_set_holds_all(
    arch: Arch,
    bytes: Seq<u8>,
    ip: u64,
    marks: Seq<bool>,
    offset: int,
    steps: nat,
)
    requires
        marks.len() == bytes.len(),
        bytes.len() > 0 ==> marks[0],
        forall|from: int, to: int|
            0 <= from < marks.len() && marks[from] && #[trigger] leads_to(
                arch,
                bytes,
                ip,
                from,
                to,
            ) ==> marks[to],
        reached_in(arch, bytes, ip, offset, steps),
    ensures
        0 <= offset < bytes.len(),
        marks[offset],
    decreases steps,
{
    if steps > 0 {
        let from = choose|from: int|
            reached_in(arch, bytes, ip, from, (steps - 1) as nat) && #[trigger] leads_to(
                arch,
                bytes,
                ip,
                from,
                offset,
            );
        lemma_closed_set_holds_all(arch, bytes, ip, marks, from, (steps - 1) as nat);
    }
}

/// How many places are not marked.
spec fn unmarked(marks: Seq<bool>) -> nat
    decreases marks.len(),
{
    if marks.len() == 0 {
        0
    } else {
        unmarked(marks.drop_last()) + if marks.last() {
            0nat
        } else {
            1nat
        }
    }
}

proof fn lemma_marking(marks: Seq<bool>, at: int)
    requires
        0 <= at < marks.len(),
        !marks[at],
    ensures
        unmarked(marks.update(at, true)) + 1 == unmarked(marks),
    decreases marks.len(),
{
    let after = marks.update(at, true);
    if at == marks.len() - 1 {
        assert(after.drop_last() =~= marks.drop_last());
    } else {
        lemma_marking(marks.drop_last(), at);
        assert(after.drop_last() =~= marks.drop_last().update(at, true));
    }
}

/// Whether `offset` waits to be looked at.
spec fn awaits(pending: Seq<usize>, offset: int) -> bool {
    exists|k: int| 0 <= k < pending.len() && #[trigger] pending[k] == offset
}

/// Marks the offsets of the instructions that can be reached from the start.
#[verifier::rlimit(60)]
pub fn reachable_instruction_offsets(arch: Arch, bytes: &[u8], ip: usize) -> (marks: Vec<bool>)
    requires
        ip + bytes@.len() <= usize::MAX,
    ensures
        marks@.len() == bytes@.len(),
        forall|offset: int|
            0 <= offset < bytes@.len() ==> (#[trigger] marks@[offset] <==> reachable(
                arch,
                bytes@,
                ip as u64,
                offset,
            )),
{
    let start: u64 = ip as u64;
    let size: usize = bytes.len();
    let mut marks: Vec<bool> = Vec::new();
    let mut i: usize = 0;
    while i < size
        invariant
            i <= size,
            marks@.len() == i,
            forall|k: int| 0 <= k < i ==> !(#[trigger] marks@[k]),
        decreases size - i,
    {
        marks.push(false);
        i = i + 1;
    }
    if size == 0 {
        return marks;
    }
    let mut pending: Vec<usize> = Vec::new();
    pending.push(0);
    proof {
        assert(reached_in(arch, bytes@, start, 0, 0));
        assert(pending@[0] == 0);
    }
    while pending.len() > 0
        invariant
            size == bytes@.len(),
            size > 0,
            marks@.len() == size,
            start == ip,
            forall|k: int|
                0 <= k < pending@.len() && (#[trigger] pending@[k]) < size ==> reachable(
                    arch,
                    bytes@,
                    start,
                    pending@[k] as int,
                ),
            forall|offset: int|
                0 <= offset < size && #[trigger] marks@[offset] ==> reachable(
                    arch,
                    bytes@,
                    start,
                    offset,
                ),
            marks@[0] || awaits(pending@, 0),
            forall|from: int, to: int|
                0 <= from < size && marks@[from] && #[trigger] leads_to(
                    arch,
                    bytes@,
                    start,
                    from,
                    to,
                ) ==> marks@[to] || awaits(pending@, to),
        decreases unmarked(marks@), pending@.len(),
    {
        let ghost before = pending@;
        let ghost marked = marks@;
        let offset: usize = match pending.pop() {
            Some(offset) => offset,
            None => {
                return marks;
            },
        };
        assert(before =~= pending@.push(offset));
        if offset >= size || marks[offset] {
            proof {
                assert forall|to: int| awaits(before, to) && 0 <= to < size && !marks@[to] implies awaits(
                    pending@,
                    to,
                ) by {
                    let k = choose|k: int| 0 <= k < before.len() && #[trigger] before[k] == to;
                    assert(k < pending@.len());
                    assert(pending@[k] == to);
                }
                assert forall|from: int, to: int|
                    0 <= from < size && marks@[from] && #[trigger] leads_to(
                        arch,
                        bytes@,
                        start,
                        from,
                        to,
                    ) implies marks@[to] || awaits(pending@, to) by {
                    assert(marks@[to] || awaits(before, to));
                }
                assert forall|k: int|
                    0 <= k < pending@.len() && (#[trigger] pending@[k]) < size implies reachable(
                    arch,
                    bytes@,
                    start,
                    pending@[k] as int,
                ) by {
                    assert(before[k] == pending@[k]);
                }
            }
            continue;
        }
        marks.set(offset, true);
        proof {
            lemma_marking(marked, offset as int);
            assert(before[before.len() - 1] == offset);
        }
        let decoded: Decoded = decode_at(arch, bytes, start, offset);
        if !decoded.invalid {
            let falls_through: bool = decoded.flow != FLOW_RETURN && decoded.flow
                != FLOW_INDIRECT_JUMP && decoded.flow != FLOW_JUMP;
            let branches: bool = decoded.flow == FLOW_JUMP || decoded.flow == FLOW_CONDITIONAL;
            if falls_through {
                let next: usize = offset + decoded.length;
                proof {
                    if next < size {
                        assert(leads_to(arch, bytes@, start, offset as int, next as int));
                        lemma_reach_extends(arch, bytes@, start, offset as int, next as int);
                    }
                }
                pending.push(next);
            }
            if branches && decoded.near_branch_target >= start {
                let distance: u64 = decoded.near_branch_target - start;
                if distance < size as u64 {
                    proof {
                        assert(leads_to(arch, bytes@, start, offset as int, distance as int));
                        lemma_reach_extends(arch, bytes@, start, offset as int, distance as int);
                    }
                    pending.push(distance as usize);
                }
            }
        }
        proof {
            let base = before.drop_last();
            assert(forall|k: int| 0 <= k < base.len() ==> base[k] == before[k]);
            assert(forall|k: int| 0 <= k < base.len() ==> pending@[k] == base[k]);
            assert forall|to: int| awaits(before, to) && to != offset implies awaits(
                pending@,
                to,
            ) by {
                let k = choose|k: int| 0 <= k < before.len() && #[trigger] before[k] == to;
                assert(k < base.len());
                assert(pending@[k] == to);
            }
            assert forall|from: int, to: int|
                0 <= from < size && marks@[from] && #[trigger] leads_to(
                    arch,
                    bytes@,
                    start,
                    from,
                    to,
                ) implies marks@[to] || awaits(pending@, to) by {
                if from == offset {
                    if decoded.flow != FLOW_RETURN && decoded.flow != FLOW_INDIRECT_JUMP
                        && decoded.flow != FLOW_JUMP && to == offset + decoded.length {
                        assert(pending@[base.len() as int] == to);
                    } else {
                        assert(pending@[pending@.len() - 1] == to);
                    }
                } else {
                    assert(marked[from]);
                    assert(marked[to] || awaits(before, to));
                }
            }
            if !marks@[0] {
                assert(awaits(before, 0));
            }
        }
    }
    proof {
        assert(!awaits(pending@, 0));
        assert forall|offset: int|
            0 <= offset < bytes@.len() && reachable(
                arch,
                bytes@,
                start,
                offset,
            ) implies #[trigger] marks@[offset] by {
            let steps = choose|steps: nat| reached_in(arch, bytes@, start, offset, steps);
            lemma_closed_set_holds_all(arch, bytes@, start, marks@, offset, steps);
        }
    }
    marks
}

/// Whether a sequence stands at a place that can be reached.
pub open spec fn anchored(
    arch: Arch,
    bytes: Seq<u8>,
    ip: u64,
    needle: Seq<u8>,
    at: int,
) -> bool {
    occurs_at(bytes, needle, at) && reachable(arch, bytes, ip, at)
}

/// Whether the sequences stand one behind the other, from `cursor` on, each at a place
/// that can be reached.
pub open spec fn ordered_from(
    arch: Arch,
    bytes: Seq<u8>,
    ip: u64,
    needles: Seq<Seq<u8>>,
    cursor: int,
) -> bool
    decreases needles.len(),
{
    needles.len() == 0 || exists|at: int|
        at >= cursor && #[trigger] anchored(arch, bytes, ip, needles[0], at) && ordered_from(
            arch,
            bytes,
            ip,
            needles.skip(1),
            at + needles[0].len(),
        )
}

/// Starting earlier never loses an ordered run.
proof fn lemma_ordered_from_earlier(
    arch: Arch,
    bytes: Seq<u8>,
    ip: u64,
    needles: Seq<Seq<u8>>,
    cursor: int,
    later: int,
)
    requires
        cursor <= later,
        ordered_from(arch, bytes, ip, needles, later),
    ensures
        ordered_from(arch, bytes, ip, needles, cursor),
{
    if needles.len() > 0 {
        let at = choose|at: int|
            at >= later && #[trigger] anchored(arch, bytes, ip, needles[0], at) && ordered_from(
                arch,
                bytes,
                ip,
                needles.skip(1),
                at + needles[0].len(),
            );
        assert(at >= cursor && anchored(arch, bytes, ip, needles[0], at));
    }
}

/// The rows of bytes of a list.
pub open spec fn rows_of(needles: Seq<Vec<u8>>) -> Seq<Seq<u8>> {
    needles.map_values(|needle: Vec<u8>| needle@)
}

/// Whether the sequences stand in their order, each at a place that can be reached.
pub fn ordered_reachable_sequences(
    arch: Arch,
    bytes: &[u8],
    ip: usize,
    needles: &Vec<Vec<u8>>,
) -> (found: bool)
    requires
        ip + bytes@.len() <= usize::MAX,
    ensures
        found == ordered_from(arch, bytes@, ip as u64, rows_of(needles@), 0),
{
    let marks: Vec<bool> = reachable_instruction_offsets(arch, bytes, ip);
    let ghost rows = rows_of(needles@);
    let size: usize = bytes.len();
    let mut cursor: usize = 0;
    let mut i: usize = 0;
    assert(rows.skip(0) =~= rows);
    while i < needles.len()
        invariant
            i <= needles@.len(),
            rows == rows_of(needles@),
            size == bytes@.len(),
            cursor <= size,
            marks@.len() == size,
            forall|offset: int|
                0 <= offset < size ==> (#[trigger] marks@[offset] <==> reachable(
                    arch,
                    bytes@,
                    ip as u64,
                    offset,
                )),
            ordered_from(arch, bytes@, ip as u64, rows, 0) == ordered_from(
                arch,
                bytes@,
                ip as u64,
                rows.skip(i as int),
                cursor as int,
            ),
        decreases needles@.len() - i,
    {
        let needle: &Vec<u8> = &needles[i];
        let ghost rest = rows.skip(i as int);
        assert(rest[0] == needle@);
        assert(rest.skip(1) =~= rows.skip(i + 1));
        let mut at: usize = cursor;
        let mut found: bool = false;
        while at < size && !found
            invariant
                cursor <= at <= size,
                size == bytes@.len(),
                marks@.len() == size,
                forall|offset: int|
                    0 <= offset < size ==> (#[trigger] marks@[offset] <==> reachable(
                        arch,
                        bytes@,
                        ip as u64,
                        offset,
                    )),
                forall|k: int|
                    cursor <= k < at ==> !#[trigger] anchored(
                        arch,
                        bytes@,
                        ip as u64,
                        needle@,
                        k,
                    ),
                found ==> at < size && anchored(arch, bytes@, ip as u64, needle@, at as int),
            decreases
                size - at + if found {
                    0int
                } else {
                    1int
                },
        {
            if marks[at] && seq_at(bytes, needle.as_slice(), at) {
                found = true;
            } else {
                at = at + 1;
            }
        }
        if !found {
            proof {
                assert forall|k: int| k >= cursor implies !#[trigger] anchored(
                    arch,
                    bytes@,
                    ip as u64,
                    needle@,
                    k,
                ) by {
                    if k >= size && reachable(arch, bytes@, ip as u64, k) {
                        let steps = choose|steps: nat| #[trigger]
                            reached_in(arch, bytes@, ip as u64, k, steps);
                        lemma_reached_inside(arch, bytes@, ip as u64, k, steps);
                    }
                }
            }
            return false;
        }
        proof {
            let after = at + needle@.len();
            if ordered_from(arch, bytes@, ip as u64, rest, cursor as int) {
                let first = choose|k: int|
                    k >= cursor && #[trigger] anchored(arch, bytes@, ip as u64, rest[0], k)
                        && ordered_from(
                        arch,
                        bytes@,
                        ip as u64,
                        rest.skip(1),
                        k + rest[0].len(),
                    );
                assert(first >= at);
                lemma_ordered_from_earlier(
                    arch,
                    bytes@,
                    ip as u64,
                    rest.skip(1),
                    after as int,
                    first + rest[0].len(),
                );
            }
            if ordered_from(arch, bytes@, ip as u64, rest.skip(1), after as int) {
                assert(anchored(arch, bytes@, ip as u64, rest[0], at as int));
            }
        }
        cursor = at + needle.len();
        i = i + 1;
    }
    true
}

proof fn lemma_reached_inside(arch: Arch, bytes: Seq<u8>, ip: u64, offset: int, steps: nat)
    requires
        reached_in(arch, bytes, ip, offset, steps),
    ensures
        0 <= offset < bytes.len(),
{
}

/// The direct targets inside the region of the calls and jumps that a straight run of
/// instructions holds, from `offset` on, up to a return, a jump or what does not decode.
pub open spec fn branch_targets_from(
    arch: Arch,
    code: CodeRegion,
    bytes: Seq<u8>,
    ip: u64,
    offset: int,
) -> Seq<usize>
    decreases bytes.len() - offset,
{
    let decoded = instruction_at(arch, bytes, ip, offset);
    if offset < 0 || offset >= bytes.len() || decoded.invalid || decoded.length == 0
        || offset + decoded.length > bytes.len() {
        Seq::empty()
    } else {
        let here: Seq<usize> = if (decoded.flow == FLOW_CALL || decoded.flow == FLOW_JUMP)
            && code.holds(decoded.near_branch_target as int) {
            seq![decoded.near_branch_target as usize]
        } else {
            Seq::empty()
        };
        if decoded.flow == FLOW_RETURN || decoded.flow == FLOW_JUMP {
            here
        } else {
            here + branch_targets_from(arch, code, bytes, ip, offset + decoded.length)
        }
    }
}

/// The direct branch targets of the code at an address, at most `max_len` bytes of it.
pub open spec fn branch_targets(
    arch: Arch,
    code: CodeRegion,
    entry: usize,
    max_len: int,
) -> Seq<usize> {
    if code.base <= entry <= code.base + code.bytes@.len() {
        branch_targets_from(
            arch,
            code,
            tail_of(code.bytes@, entry - code.base, max_len),
            entry as u64,
            0,
        )
    } else {
        Seq::empty()
    }
}

pub fn direct_branch_targets(arch: Arch, code: &CodeRegion, entry: usize, max_len: usize) -> (targets:
    Vec<usize>)
    requires
        code.base + code.bytes@.len() <= usize::MAX,
    ensures
        targets@ == branch_targets(arch, *code, entry, max_len as int),
{
    let mut targets: Vec<usize> = Vec::new();
    let bytes: &[u8] = match region_tail(code, entry, max_len) {
        Some(bytes) => bytes,
        None => {
            return targets;
        },
    };
    let start: u64 = entry as u64;
    let end: u64 = (code.base + code.bytes.len()) as u64;
    let mut offset: usize = 0;
    while offset < bytes.len()
        invariant
            offset <= bytes@.len(),
            end == code.base + code.bytes@.len() <= usize::MAX,
            start == entry,
            code.base <= entry <= code.base + code.bytes@.len(),
            bytes@ == tail_of(code.bytes@, entry - code.base, max_len as int),
            targets@ + branch_targets_from(arch, *code, bytes@, start, offset as int)
                == branch_targets_from(arch, *code, bytes@, start, 0),
        decreases bytes@.len() - offset,
    {
        let ghost before = targets@;
        let decoded: Decoded = decode_at(arch, bytes, start, offset);
        if decoded.invalid {
            assert(targets@ + Seq::<usize>::empty() =~= targets@);
            return targets;
        }
        let target: u64 = decoded.near_branch_target;
        if (decoded.flow == FLOW_CALL || decoded.flow == FLOW_JUMP) && target >= code.base as u64
            && target < end {
            targets.push(target as usize);
        }
        if decoded.flow == FLOW_RETURN || decoded.flow == FLOW_JUMP {
            assert(targets@ =~= before + branch_targets_from(
                arch,
                *code,
                bytes@,
                start,
                offset as int,
            ));
            return targets;
        }
        assert(targets@ + branch_targets_from(
            arch,
            *code,
            bytes@,
            start,
            offset + decoded.length,
        ) =~= before + branch_targets_from(arch, *code, bytes@, start, offset as int));
        offset = offset + decoded.length;
    }
    assert(targets@ + Seq::<usize>::empty() =~= targets@);
    targets
}

/// A displaced address is the sum, whole turns of the address space apart, and lies in it.
pub proof fn law_displaced_addresses_turn_around(address: usize, displacement: i32, sum: usize)
    requires
        call_ensures(wrapped, (address, displacement), sum),
    ensures
        exists|turns: int|
            sum == address + displacement + #[trigger] (turns * (usize::MAX + 1)) && -1 <= turns
                <= 1,
        0 <= address + displacement <= usize::MAX ==> sum == address + displacement,
{
    let space = usize::MAX + 1;
    assert(0 * space == 0 && 1 * space == space && (-1) * space == -space);
}

/// Tails are prefixes of what stands behind the offset: never longer than asked for, and
/// shorter only where the bytes end.
pub proof fn law_tails_stand_behind_the_offset(bytes: Seq<u8>, offset: int, len: int)
    requires
        0 <= offset <= bytes.len(),
        0 <= len,
    ensures
        tail_of(bytes, offset, len).is_prefix_of(bytes.skip(offset)),
        tail_of(bytes, offset, len).len() == if len <= bytes.len() - offset {
            len
        } else {
            bytes.len() - offset
        },
{
}

/// The flow goes where instructions lead: the start is marked; behind a marked instruction
/// that can fall through the next one is; the near target of a marked direct branch is; and no
/// set of places for which all of this holds leaves out a place that is marked.
pub proof fn law_marks_follow_the_flow(
    arch: Arch,
    bytes: &[u8],
    ip: usize,
    marks: Vec<bool>,
    from: int,
    closed: Seq<bool>,
    place: int,
)
    requires
        ip + bytes@.len() <= usize::MAX,
        call_ensures(reachable_instruction_offsets, (arch, bytes, ip), marks),
    ensures
        bytes@.len() > 0 ==> marks@[0],
        0 <= from < bytes@.len() && marks@[from] && !instruction_at(
            arch,
            bytes@,
            ip as u64,
            from,
        ).invalid ==> {
            let decoded = instruction_at(arch, bytes@, ip as u64, from);
            &&& decoded.flow != FLOW_RETURN && decoded.flow != FLOW_INDIRECT_JUMP && decoded.flow
                != FLOW_JUMP && from + decoded.length < bytes@.len() ==> marks@[from
                + decoded.length]
            &&& (decoded.flow == FLOW_JUMP || decoded.flow == FLOW_CONDITIONAL) && ip
                <= decoded.near_branch_target < ip + bytes@.len() ==> marks@[decoded.near_branch_target
                - ip]
        },
        closed.len() == bytes@.len() && bytes@.len() > 0 && closed[0] && is_closed(
            arch,
            bytes@,
            ip as u64,
            closed,
        ) && 0 <= place < bytes@.len() && marks@[place] ==> closed[place],
{
    let start = ip as u64;
    if bytes@.len() > 0 {
        assert(reached_in(arch, bytes@, start, 0, 0));
        assert(marks@[0]);
    }
    if 0 <= from < bytes@.len() && marks@[from] {
        let decoded = instruction_at(arch, bytes@, start, from);
        let next = from + decoded.length;
        let target = decoded.near_branch_target - ip;
        if leads_to(arch, bytes@, start, from, next) {
            lemma_reach_extends(arch, bytes@, start, from, next);
            assert(marks@[next]);
        }
        if leads_to(arch, bytes@, start, from, target) {
            lemma_reach_extends(arch, bytes@, start, from, target);
            assert(marks@[target]);
        }
    }
    if closed.len() == bytes@.len() && bytes@.len() > 0 && closed[0] && is_closed(
        arch,
        bytes@,
        start,
        closed,
    ) && 0 <= place < bytes@.len() && marks@[place] {
        assert forall|at: int, to: int|
            0 <= at < closed.len() && closed[at] && #[trigger] leads_to(
                arch,
                bytes@,
                start,
                at,
                to,
            ) implies closed[to] by {
            assert(keeps_the_flow(arch, bytes@, start, closed, at));
        }
        assert(reachable(arch, bytes@, start, place));
        let steps = choose|steps: nat| reached_in(arch, bytes@, start, place, steps);
        lemma_closed_set_holds_all(arch, bytes@, start, closed, place, steps);
    }
}

/// Whether a set of places holds what the instruction at one of them leads to.
pub open spec fn keeps_the_flow(arch: Arch, bytes: Seq<u8>, ip: u64, places: Seq<bool>, at: int) -> bool {
    let decoded = instruction_at(arch, bytes, ip, at);
    places[at] && !decoded.invalid ==> {
        &&& decoded.flow != FLOW_RETURN && decoded.flow != FLOW_INDIRECT_JUMP && decoded.flow
            != FLOW_JUMP && at + decoded.length < bytes.len() ==> places[at + decoded.length]
        &&& (decoded.flow == FLOW_JUMP || decoded.flow == FLOW_CONDITIONAL) && ip
            <= decoded.near_branch_target < ip + bytes.len() ==> places[decoded.near_branch_target
            - ip]
    }
}

/// Whether the flow never leaves a set of places.
pub open spec fn is_closed(arch: Arch, bytes: Seq<u8>, ip: u64, places: Seq<bool>) -> bool {
    forall|at: int| 0 <= at < places.len() ==> #[trigger] keeps_the_flow(arch, bytes, ip, places, at)
}

/// Whether sequences stand at the places, each behind the end of the one before and where the
/// flow comes.
pub open spec fn stand_at(
    arch: Arch,
    bytes: Seq<u8>,
    ip: u64,
    needles: Seq<Seq<u8>>,
    places: Seq<int>,
    cursor: int,
) -> bool {
    &&& places.len() == needles.len()
    &&& places.len() > 0 ==> places[0] >= cursor
    &&& forall|k: int|
        0 <= k < needles.len() ==> 0 <= #[trigger] places[k] && places[k] + needles[k].len()
            <= bytes.len() && bytes.subrange(places[k], places[k] + needles[k].len()) == needles[k]
            && reachable(arch, bytes, ip, places[k])
    &&& forall|k: int, next: int|
        0 <= k && next == k + 1 && next < needles.len() ==> #[trigger] places[next]
            >= #[trigger] places[k] + needles[k].len()
}

/// Whether there are such places.
pub open spec fn have_places(arch: Arch, bytes: Seq<u8>, ip: u64, needles: Seq<Seq<u8>>) -> bool {
    exists|places: Seq<int>| stand_at(arch, bytes, ip, needles, places, 0)
}

proof fn lemma_places_are_found(
    arch: Arch,
    bytes: Seq<u8>,
    ip: u64,
    needles: Seq<Seq<u8>>,
    cursor: int,
) -> (places: Seq<int>)
    requires
        ordered_from(arch, bytes, ip, needles, cursor),
    ensures
        stand_at(arch, bytes, ip, needles, places, cursor),
    decreases needles.len(),
{
    if needles.len() == 0 {
        Seq::empty()
    } else {
        let at = choose|at: int|
            at >= cursor && #[trigger] anchored(arch, bytes, ip, needles[0], at) && ordered_from(
                arch,
                bytes,
                ip,
                needles.skip(1),
                at + needles[0].len(),
            );
        let rest = lemma_places_are_found(
            arch,
            bytes,
            ip,
            needles.skip(1),
            at + needles[0].len(),
        );
        let places = seq![at] + rest;
        assert forall|k: int| 0 <= k < needles.len() implies 0 <= #[trigger] places[k] && places[k]
            + needles[k].len() <= bytes.len() && bytes.subrange(
            places[k],
            places[k] + needles[k].len(),
        ) == needles[k] && reachable(arch, bytes, ip, places[k]) by {
            if k > 0 {
                assert(places[k] == rest[k - 1]);
                assert(needles[k] == needles.skip(1)[k - 1]);
            }
        }
        assert forall|k: int, next: int|
            0 <= k && next == k + 1 && next < needles.len() implies #[trigger] places[next]
            >= #[trigger] places[k] + needles[k].len() by {
            assert(places[next] == rest[next - 1]);
            if k > 0 {
                assert(places[k] == rest[k - 1]);
                assert(needles[k] == needles.skip(1)[k - 1]);
            }
        }
        places
    }
}

proof fn lemma_places_suffice(
    arch: Arch,
    bytes: Seq<u8>,
    ip: u64,
    needles: Seq<Seq<u8>>,
    places: Seq<int>,
    cursor: int,
)
    requires
        stand_at(arch, bytes, ip, needles, places, cursor),
    ensures
        ordered_from(arch, bytes, ip, needles, cursor),
    decreases needles.len(),
{
    if needles.len() > 0 {
        let at = places[0];
        let rest = places.skip(1);
        let others = needles.skip(1);
        assert(anchored(arch, bytes, ip, needles[0], at));
        assert(forall|k: int| 0 <= k < rest.len() ==> rest[k] == places[k + 1]);
        assert(forall|k: int| 0 <= k < others.len() ==> others[k] == needles[k + 1]);
        assert(stand_at(arch, bytes, ip, others, rest, at + needles[0].len())) by {
            if others.len() > 0 {
                assert(places[1] >= places[0] + needles[0].len());
            }
            assert forall|k: int| 0 <= k < others.len() implies 0 <= #[trigger] rest[k] && rest[k]
                + others[k].len() <= bytes.len() && bytes.subrange(
                rest[k],
                rest[k] + others[k].len(),
            ) == others[k] && reachable(arch, bytes, ip, rest[k]) by {
                assert(rest[k] == places[k + 1]);
            }
            assert forall|k: int, next: int|
                0 <= k && next == k + 1 && next < others.len() implies #[trigger] rest[next]
                >= #[trigger] rest[k] + others[k].len() by {
                assert(places[next + 1] >= places[k + 1] + needles[k + 1].len());
            }
        }
        lemma_places_suffice(arch, bytes, ip, others, rest, at + needles[0].len());
    }
}

/// Sequences are found exactly where there are places for all of them: each behind the one
/// before, none overlapping, and all where the flow comes.
pub proof fn law_sequences_stand_in_order(
    arch: Arch,
    bytes: &[u8],
    ip: usize,
    needles: Vec<Vec<u8>>,
    found: bool,
)
    requires
        ip + bytes@.len() <= usize::MAX,
        call_ensures(ordered_reachable_sequences, (arch, bytes, ip, &needles), found),
    ensures
        found <==> have_places(arch, bytes@, ip as u64, rows_of(needles@)),
        rows_of(needles@).len() == needles@.len(),
        forall|k: int| 0 <= k < needles@.len() ==> rows_of(needles@)[k] == needles@[k]@,
{
    let rows = rows_of(needles@);
    let start = ip as u64;
    if found {
        let places = lemma_places_are_found(arch, bytes@, start, rows, 0);
        assert(stand_at(arch, bytes@, start, rows, places, 0));
    }
    if have_places(arch, bytes@, start, rows) {
        let places = choose|places: Seq<int>| stand_at(arch, bytes@, start, rows, places, 0);
        lemma_places_suffice(arch, bytes@, start, rows, places, 0);
    }
}

/// Of a straight run every call and jump into the region is told, in order and with nothing
/// between: a call or another instruction lets the run go on behind it, a return, a jump and
/// what does not decode end it, and only calls and jumps are told.
pub proof fn law_branches_of_a_run_are_told(
    arch: Arch,
    code: CodeRegion,
    bytes: Seq<u8>,
    ip: u64,
    offset: int,
)
    requires
        0 <= offset < bytes.len(),
    ensures
        ({
            let decoded = instruction_at(arch, bytes, ip, offset);
            let targets = branch_targets_from(arch, code, bytes, ip, offset);
            let behind = branch_targets_from(arch, code, bytes, ip, offset + decoded.length);
            let target = decoded.near_branch_target;
            let told = code.base <= target < code.base + code.bytes@.len();
            let sound = !decoded.invalid && decoded.length > 0 && offset + decoded.length
                <= bytes.len();
            &&& !sound ==> targets.len() == 0
            &&& sound && decoded.flow == FLOW_CALL && told ==> targets.len() == behind.len() + 1
                && targets[0] == target as usize && targets.skip(1) == behind
            &&& sound && decoded.flow == FLOW_CALL && !told ==> targets == behind
            &&& sound && decoded.flow == FLOW_JUMP && told ==> targets == seq![target as usize]
            &&& sound && decoded.flow == FLOW_JUMP && !told ==> targets.len() == 0
            &&& sound && decoded.flow == FLOW_RETURN ==> targets.len() == 0
            &&& sound && decoded.flow != FLOW_CALL && decoded.flow != FLOW_JUMP && decoded.flow
                != FLOW_RETURN ==> targets == behind
        }),
{
    let decoded = instruction_at(arch, bytes, ip, offset);
    let targets = branch_targets_from(arch, code, bytes, ip, offset);
    let behind = branch_targets_from(arch, code, bytes, ip, offset + decoded.length);
    assert(Seq::<usize>::empty() + behind =~= behind);
    if targets.len() > 0 {
        assert((seq![decoded.near_branch_target as usize] + behind).skip(1) =~= behind);
    }
}

} // verus!

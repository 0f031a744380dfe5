//! Finding the helper that names the app of the current IPC call.
use crate::bytes::{
    has_seq, law_sequences_stand_between_others, le_i32, le_u32, le_value, occurs, occurs_at, seq_at,
    signed_32,
};
use crate::code_shape::{
    find_pattern_from, masked_at, pattern_at, wrapped, wrapped_sum, Arch, CodeRegion,
};
use vstd::prelude::*;
use vstd::slice::slice_subrange;

verus! {

pub const X86_HELPER_HEAD: [u8; 16] = [
    0x8b, 0x4c, 0x24, 0x04, 0x8b, 0x81, 0x98, 0x0a, 0x00, 0x00, 0x8b, 0x91, 0x9c, 0x00, 0x00, 0x00,
];

pub const X86_HELPER_TABLE: [u8; 6] = [0x8b, 0x89, 0xac, 0x0a, 0x00, 0x00];

pub const X64_HELPER_HEAD: [u8; 13] = [
    0x48, 0x63, 0x87, 0xe8, 0x0d, 0x00, 0x00, 0x8b, 0x97, 0xf0, 0x00, 0x00, 0x00,
];

pub const X64_HELPER_TABLE: [u8; 7] = [0x48, 0x8b, 0x8f, 0x00, 0x0e, 0x00, 0x00];

/// `mov eax, [..+14h]` and a return.
pub const HELPER_TAIL: [u8; 4] = [0x8b, 0x40, 0x14, 0xc3];

/// Pushes, a call for the position, and an addition to it.
pub const X86_ANCHOR: [u8; 15] = [
    0x55, 0x57, 0x56, 0x53, 0xe8, 0x00, 0x00, 0x00, 0x00, 0x81, 0xc3, 0x00, 0x00, 0x00, 0x00,
];

pub const X86_ANCHOR_MASK: [bool; 15] = [
    true,
    true,
    true,
    true,
    true,
    false,
    false,
    false,
    false,
    true,
    true,
    false,
    false,
    false,
    false,
];

/// `push [eax]` and a call.
pub const X86_PUSH_CALL: [u8; 3] = [0xff, 0x30, 0xe8];

/// A relative load address, a dereference and a call.
pub const X64_LOAD_CALL: [u8; 15] = [
    0x48, 0x8d, 0x05, 0x00, 0x00, 0x00, 0x00, 0x48, 0x8b, 0x38, 0xe8, 0x00, 0x00, 0x00, 0x00,
];

pub const X64_LOAD_CALL_MASK: [bool; 15] = [
    true,
    true,
    true,
    false,
    false,
    false,
    false,
    true,
    true,
    true,
    true,
    false,
    false,
    false,
    false,
];

/// How many bytes of the helper are looked at.
pub open spec fn helper_window(arch: Arch) -> int {
    match arch {
        Arch::X86 => 0x50,
        Arch::X64 => 0x60,
    }
}

/// Whether the code at an address is the helper.
pub open spec fn is_helper(arch: Arch, code: CodeRegion, helper: int) -> bool {
    let offset = helper - code.base;
    let bytes = code.bytes@.subrange(offset, offset + helper_window(arch));
    &&& offset >= 0
    &&& offset + helper_window(arch) <= code.bytes@.len()
    &&& match arch {
        Arch::X86 => occurs_at(bytes, X86_HELPER_HEAD@, 0) && occurs(bytes, X86_HELPER_TABLE@),
        Arch::X64 => occurs_at(bytes, X64_HELPER_HEAD@, 0) && occurs(bytes, X64_HELPER_TABLE@),
    }
    &&& occurs(bytes, HELPER_TAIL@)
}

pub fn validate_helper(arch: Arch, code: &CodeRegion, helper: usize) -> (valid: bool)
    ensures
        valid == is_helper(arch, *code, helper as int),
{
    let window: usize = match arch {
        Arch::X86 => 0x50,
        Arch::X64 => 0x60,
    };
    if helper < code.base {
        return false;
    }
    let offset: usize = helper - code.base;
    let size: usize = code.bytes.len();
    if offset > size || window > size - offset {
        return false;
    }
    let bytes: &[u8] = slice_subrange(code.bytes, offset, offset + window);
    let head: bool = match arch {
        Arch::X86 => seq_at(bytes, X86_HELPER_HEAD.as_slice(), 0) && has_seq(
            bytes,
            X86_HELPER_TABLE.as_slice(),
        ),
        Arch::X64 => seq_at(bytes, X64_HELPER_HEAD.as_slice(), 0) && has_seq(
            bytes,
            X64_HELPER_TABLE.as_slice(),
        ),
    };
    head && has_seq(bytes, HELPER_TAIL.as_slice())
}

/// The slot that holds the engine, and the helper.
#[derive(Clone, Copy, Debug, PartialEq, Eq, Structural)]
pub struct CurrentAppResolver {
    pub engine_slot: usize,
    pub helper: usize,
}

/// The signed number of four bytes.
pub open spec fn signed_at(bytes: Seq<u8>, at: int) -> int {
    signed_32(le_value(bytes.subrange(at, at + 4)) as int)
}

/// The resolver that a load and call at `at` give.
pub open spec fn x64_resolver_at(bytes: Seq<u8>, adapter: int, at: int) -> CurrentAppResolver {
    CurrentAppResolver {
        engine_slot: wrapped_sum(adapter + at + 7, signed_at(bytes, at + 3)) as usize,
        helper: wrapped_sum(adapter + at + 15, signed_at(bytes, at + 11)) as usize,
    }
}

/// The first resolver from `from` on whose helper is valid.
pub open spec fn x64_resolver_from(
    code: CodeRegion,
    bytes: Seq<u8>,
    adapter: int,
    from: int,
) -> Option<CurrentAppResolver>
    decreases bytes.len() - from,
{
    if from < 0 || from >= bytes.len() {
        None
    } else if masked_at(bytes, X64_LOAD_CALL@, X64_LOAD_CALL_MASK@, from) && is_helper(
        Arch::X64,
        code,
        x64_resolver_at(bytes, adapter, from).helper as int,
    ) {
        Some(x64_resolver_at(bytes, adapter, from))
    } else {
        x64_resolver_from(code, bytes, adapter, from + 1)
    }
}

/// A sum around the end of a 32-bit address space.
pub open spec fn sum_32(left: int, right: int) -> int {
    (left + right) % 0x1_0000_0000
}

/// The place behind a load address at `at` where a push and a call stand closely.
pub open spec fn push_call_behind(bytes: Seq<u8>, at: int) -> Option<int> {
    first_push_call(bytes, at + 6, at + 6)
}

/// The first push and call from `from` on that ends before `start + 22`.
pub open spec fn first_push_call(bytes: Seq<u8>, start: int, from: int) -> Option<int>
    decreases start + 20 - from,
{
    if from + 3 > start + 22 || from + 3 > bytes.len() {
        None
    } else if occurs_at(bytes, X86_PUSH_CALL@, from) {
        Some(from)
    } else {
        first_push_call(bytes, start, from + 1)
    }
}

/// The helper that a call behind the push at `push` leads to.
pub open spec fn x86_helper_at(bytes: Seq<u8>, adapter: int, push: int) -> int {
    sum_32(adapter + push + 3 + 4, signed_at(bytes, push + 3))
}

/// What the search from `from` on gives; it ends where a call's target is cut off.
pub open spec fn x86_resolver_from(
    code: CodeRegion,
    bytes: Seq<u8>,
    adapter: int,
    anchor: int,
    from: int,
) -> Option<CurrentAppResolver>
    decreases bytes.len() - from,
{
    if from < 0 || from + 5 >= bytes.len() {
        None
    } else if bytes[from] != 0x8d || bytes[from + 1] != 0x83 {
        x86_resolver_from(code, bytes, adapter, anchor, from + 1)
    } else {
        match push_call_behind(bytes, from) {
            None => x86_resolver_from(code, bytes, adapter, anchor, from + 1),
            Some(push) => if push + 7 > bytes.len() {
                None
            } else if is_helper(Arch::X86, code, x86_helper_at(bytes, adapter, push)) {
                Some(
                    CurrentAppResolver {
                        engine_slot: sum_32(anchor, signed_at(bytes, from + 2)) as usize,
                        helper: x86_helper_at(bytes, adapter, push) as usize,
                    },
                )
            } else {
                x86_resolver_from(code, bytes, adapter, anchor, from + 1)
            },
        }
    }
}

/// The first place of the position anchor from `from` on.
pub open spec fn anchor_from(bytes: Seq<u8>, from: int) -> Option<int>
    decreases bytes.len() - from,
{
    if from < 0 || from >= bytes.len() {
        None
    } else if masked_at(bytes, X86_ANCHOR@, X86_ANCHOR_MASK@, from) {
        Some(from)
    } else {
        anchor_from(bytes, from + 1)
    }
}

/// How many bytes of the adapter are looked at.
pub open spec fn adapter_window(arch: Arch) -> int {
    match arch {
        Arch::X86 => 0x120,
        Arch::X64 => 0x140,
    }
}

/// The resolver that an adapter's code gives.
pub open spec fn resolver_of(arch: Arch, code: CodeRegion, adapter: int) -> Option<
    CurrentAppResolver,
> {
    let offset = adapter - code.base;
    let bytes = code.bytes@.subrange(offset, offset + adapter_window(arch));
    if offset < 0 || offset + adapter_window(arch) > code.bytes@.len() {
        None
    } else {
        match arch {
            Arch::X64 => x64_resolver_from(code, bytes, adapter, 0),
            Arch::X86 => match anchor_from(bytes, 0) {
                Some(call) => x86_resolver_from(
                    code,
                    bytes,
                    adapter,
                    sum_32(
                        adapter + call + 9,
                        le_value(bytes.subrange(call + 11, call + 15)) as int,
                    ),
                    0,
                ),
                None => None,
            },
        }
    }
}

fn signed_number(bytes: &[u8], at: usize) -> (value: i32)
    requires
        at + 4 <= bytes@.len(),
    ensures
        value == signed_at(bytes@, at as int),
{
    let size: usize = bytes.len();
    assert(at + 4 <= size);
    le_i32(slice_subrange(bytes, at, at + 4))
}

fn search_x64(code: &CodeRegion, bytes: &[u8], adapter: usize) -> (resolver: Option<
    CurrentAppResolver,
>)
    requires
        adapter + bytes@.len() <= usize::MAX,
    ensures
        resolver == x64_resolver_from(*code, bytes@, adapter as int, 0),
{
    let mut at: usize = 0;
    while at < bytes.len()
        invariant
            at <= bytes@.len(),
            adapter + bytes@.len() <= usize::MAX,
            x64_resolver_from(*code, bytes@, adapter as int, 0) == x64_resolver_from(
                *code,
                bytes@,
                adapter as int,
                at as int,
            ),
        decreases bytes@.len() - at,
    {
        if pattern_at(bytes, X64_LOAD_CALL.as_slice(), X64_LOAD_CALL_MASK.as_slice(), at) {
            let engine_slot: usize = wrapped(adapter + at + 7, signed_number(bytes, at + 3));
            let helper: usize = wrapped(adapter + at + 15, signed_number(bytes, at + 11));
            if validate_helper(Arch::X64, code, helper) {
                return Some(CurrentAppResolver { engine_slot, helper });
            }
        }
        at = at + 1;
    }
    None
}

fn find_push_call(bytes: &[u8], lea: usize) -> (place: Option<usize>)
    requires
        lea + 6 <= bytes@.len(),
        bytes@.len() <= 0x120,
    ensures
        place is Some <==> push_call_behind(bytes@, lea as int) is Some,
        place is Some ==> place->0 == push_call_behind(bytes@, lea as int)->0 && lea + 6 <= place->0
            && place->0 + 3 <= bytes@.len(),
{
    let start: usize = lea + 6;
    let mut at: usize = start;
    while at + 3 <= start + 22 && at + 3 <= bytes.len()
        invariant
            start == lea + 6,
            start <= at <= start + 20,
            start <= bytes@.len() <= 0x120,
            push_call_behind(bytes@, lea as int) == first_push_call(
                bytes@,
                start as int,
                at as int,
            ),
        decreases start + 20 - at,
    {
        if seq_at(bytes, X86_PUSH_CALL.as_slice(), at) {
            return Some(at);
        }
        at = at + 1;
    }
    None
}

/// A displacement added to an address of a 32-bit process.
fn displaced_32(address: u32, displacement: i32) -> (sum: u32)
    ensures
        sum == sum_32(address as int, displacement as int),
{
    if displacement >= 0 {
        address.wrapping_add(displacement as u32)
    } else {
        address.wrapping_sub((-(displacement as i64)) as u32)
    }
}

fn search_x86(code: &CodeRegion, bytes: &[u8], adapter: u32, anchor: u32) -> (resolver: Option<
    CurrentAppResolver,
>)
    requires
        bytes@.len() <= 0x120,
        adapter + bytes@.len() <= u32::MAX,
    ensures
        resolver == x86_resolver_from(*code, bytes@, adapter as int, anchor as int, 0),
{
    let size: usize = bytes.len();
    let mut lea: usize = 0;
    while lea + 5 < size
        invariant
            lea <= size == bytes@.len(),
            size <= 0x120,
            adapter + bytes@.len() <= u32::MAX,
            x86_resolver_from(*code, bytes@, adapter as int, anchor as int, 0)
                == x86_resolver_from(*code, bytes@, adapter as int, anchor as int, lea as int),
        decreases size - lea,
    {
        if bytes[lea] == 0x8d && bytes[lea + 1] == 0x83 {
            if let Some(push) = find_push_call(bytes, lea) {
                if push + 7 > size {
                    return None;
                }
                let relative: i32 = signed_number(bytes, push + 3);
                let helper: usize = displaced_32(
                    adapter + push as u32 + 3 + 4,
                    relative,
                ) as usize;
                if validate_helper(Arch::X86, code, helper) {
                    let displacement: i32 = signed_number(bytes, lea + 2);
                    return Some(
                        CurrentAppResolver {
                            engine_slot: displaced_32(anchor, displacement) as usize,
                            helper,
                        },
                    );
                }
            }
        }
        lea = lea + 1;
    }
    None
}

proof fn lemma_anchor(bytes: Seq<u8>, from: int, place: Option<usize>)
    requires
        0 <= from <= bytes.len(),
        place is Some ==> {
            &&& place->0 >= from
            &&& masked_at(bytes, X86_ANCHOR@, X86_ANCHOR_MASK@, place->0 as int)
            &&& forall|at: int|
                from <= at < place->0 ==> !masked_at(bytes, X86_ANCHOR@, X86_ANCHOR_MASK@, at)
        },
        place is None ==> forall|at: int|
            from <= at ==> !masked_at(bytes, X86_ANCHOR@, X86_ANCHOR_MASK@, at),
    ensures
        anchor_from(bytes, from) == match place {
            Some(at) => Some(at as int),
            None => None,
        },
    decreases bytes.len() - from,
{
    if from < bytes.len() && !masked_at(bytes, X86_ANCHOR@, X86_ANCHOR_MASK@, from) {
        lemma_anchor(bytes, from + 1, place);
    }
}

/// Reads the resolver out of an adapter's code. The addresses of a 32-bit process fit in
/// 32 bits.
pub fn parse_resolver(arch: Arch, code: &CodeRegion, adapter: usize) -> (resolver: Option<
    CurrentAppResolver,
>)
    requires
        code.base + code.bytes@.len() <= usize::MAX,
        arch is X86 ==> code.base + code.bytes@.len() <= u32::MAX,
    ensures
        resolver == resolver_of(arch, *code, adapter as int),
{
    let window: usize = match arch {
        Arch::X86 => 0x120,
        Arch::X64 => 0x140,
    };
    if adapter < code.base {
        return None;
    }
    let offset: usize = adapter - code.base;
    let size: usize = code.bytes.len();
    if offset > size || window > size - offset {
        return None;
    }
    let bytes: &[u8] = slice_subrange(code.bytes, offset, offset + window);
    match arch {
        Arch::X64 => search_x64(code, bytes, adapter),
        Arch::X86 => {
            let place: Option<usize> = find_pattern_from(
                bytes,
                X86_ANCHOR.as_slice(),
                X86_ANCHOR_MASK.as_slice(),
                0,
            );
            proof {
                lemma_anchor(bytes@, 0, place);
            }
            match place {
                Some(call) => {
                    let offset_word: u32 = le_u32(slice_subrange(bytes, call + 11, call + 15));
                    let position: u32 = adapter as u32 + call as u32 + 9;
                    search_x86(code, bytes, adapter as u32, position.wrapping_add(offset_word))
                },
                None => None,
            }
        },
    }
}

/// The app that the helper's answer names: its low 24 bits, unless they are zero.
pub fn current_app_id(answer: u32) -> (app_id: Option<u32>)
    ensures
        app_id is Some <==> answer % 0x100_0000 != 0,
        app_id is Some ==> app_id->0 == answer % 0x100_0000,
{
    let low: u32 = answer & 0x00ff_ffff;
    assert(low == answer % 0x100_0000) by (bit_vector)
        requires
            low == answer & 0x00ff_ffff,
    ;
    if low != 0 {
        Some(low)
    } else {
        None
    }
}

proof fn lemma_x64_resolver(code: CodeRegion, bytes: Seq<u8>, adapter: int, from: int)
    requires
        0 <= from,
    ensures
        match x64_resolver_from(code, bytes, adapter, from) {
            Some(resolver) => exists|at: int|
                from <= at < bytes.len() && #[trigger] masked_at(
                    bytes,
                    X64_LOAD_CALL@,
                    X64_LOAD_CALL_MASK@,
                    at,
                ) && resolver == x64_resolver_at(bytes, adapter, at) && is_helper(
                    Arch::X64,
                    code,
                    resolver.helper as int,
                ) && forall|before: int|
                    from <= before < at && #[trigger] masked_at(
                        bytes,
                        X64_LOAD_CALL@,
                        X64_LOAD_CALL_MASK@,
                        before,
                    ) ==> !is_helper(
                        Arch::X64,
                        code,
                        x64_resolver_at(bytes, adapter, before).helper as int,
                    ),
            None => forall|at: int|
                from <= at < bytes.len() && #[trigger] masked_at(
                    bytes,
                    X64_LOAD_CALL@,
                    X64_LOAD_CALL_MASK@,
                    at,
                ) ==> !is_helper(
                    Arch::X64,
                    code,
                    x64_resolver_at(bytes, adapter, at).helper as int,
                ),
        },
    decreases bytes.len() - from,
{
    if from < bytes.len() {
        lemma_x64_resolver(code, bytes, adapter, from + 1);
    }
}

/// In a 64-bit process the first load and call whose target is the helper decides: the slot
/// lies at the load's displacement from the instruction behind the load, the helper at the
/// call's displacement from the instruction behind the call. Without such a place there is no
/// resolver.
pub proof fn law_x64_resolvers_are_read_off_the_first_call(
    code: CodeRegion,
    adapter: usize,
    resolver: Option<CurrentAppResolver>,
)
    requires
        code.base + code.bytes@.len() <= usize::MAX,
        call_ensures(parse_resolver, (Arch::X64, &code, adapter), resolver),
        code.base <= adapter,
        adapter - code.base + 0x140 <= code.bytes@.len(),
    ensures
        ({
            let bytes = code.bytes@.subrange(
                adapter - code.base,
                adapter - code.base + 0x140,
            );
            match resolver {
                Some(found) => exists|at: int|
                    0 <= at && #[trigger] masked_at(
                        bytes,
                        X64_LOAD_CALL@,
                        X64_LOAD_CALL_MASK@,
                        at,
                    ) && found.engine_slot == wrapped_sum(
                        adapter + at + 7,
                        signed_32(le_value(bytes.subrange(at + 3, at + 7)) as int),
                    ) as usize && found.helper == wrapped_sum(
                        adapter + at + 15,
                        signed_32(le_value(bytes.subrange(at + 11, at + 15)) as int),
                    ) as usize && is_helper(Arch::X64, code, found.helper as int) && forall|
                        before: int,
                    |
                        0 <= before < at && #[trigger] masked_at(
                            bytes,
                            X64_LOAD_CALL@,
                            X64_LOAD_CALL_MASK@,
                            before,
                        ) ==> !is_helper(
                            Arch::X64,
                            code,
                            x64_resolver_at(bytes, adapter as int, before).helper as int,
                        ),
                None => forall|at: int|
                    0 <= at && #[trigger] masked_at(
                        bytes,
                        X64_LOAD_CALL@,
                        X64_LOAD_CALL_MASK@,
                        at,
                    ) ==> !is_helper(
                        Arch::X64,
                        code,
                        wrapped_sum(
                            adapter + at + 15,
                            signed_32(le_value(bytes.subrange(at + 11, at + 15)) as int),
                        ) as usize as int,
                    ),
            }
        }),
{
    let bytes = code.bytes@.subrange(adapter - code.base, adapter - code.base + 0x140);
    lemma_x64_resolver(code, bytes, adapter as int, 0);
    assert(X64_LOAD_CALL@.len() == 15);
    if resolver is Some {
        let at = choose|at: int|
            0 <= at < bytes.len() && #[trigger] masked_at(
                bytes,
                X64_LOAD_CALL@,
                X64_LOAD_CALL_MASK@,
                at,
            ) && resolver->0 == x64_resolver_at(bytes, adapter as int, at) && is_helper(
                Arch::X64,
                code,
                resolver->0.helper as int,
            ) && forall|before: int|
                0 <= before < at && #[trigger] masked_at(
                    bytes,
                    X64_LOAD_CALL@,
                    X64_LOAD_CALL_MASK@,
                    before,
                ) ==> !is_helper(
                    Arch::X64,
                    code,
                    x64_resolver_at(bytes, adapter as int, before).helper as int,
                );
        assert(at + 3 + 4 == at + 7);
        assert(at + 11 + 4 == at + 15);
    } else {
        assert forall|at: int|
            0 <= at && #[trigger] masked_at(
                bytes,
                X64_LOAD_CALL@,
                X64_LOAD_CALL_MASK@,
                at,
            ) implies !is_helper(
            Arch::X64,
            code,
            wrapped_sum(
                adapter + at + 15,
                signed_32(le_value(bytes.subrange(at + 11, at + 15)) as int),
            ) as usize as int,
        ) by {
            assert(at < bytes.len());
            assert(at + 11 + 4 == at + 15);
        }
    }
}

/// The push and call that belongs to a load is the first behind it, and begins no more than
/// nineteen bytes behind it.
proof fn lemma_push_call(bytes: Seq<u8>, start: int, from: int)
    requires
        0 <= start <= from,
    ensures
        match first_push_call(bytes, start, from) {
            Some(place) => from <= place && place + 3 <= start + 22 && occurs_at(
                bytes,
                X86_PUSH_CALL@,
                place,
            ) && forall|before: int|
                from <= before < place ==> !#[trigger] occurs_at(bytes, X86_PUSH_CALL@, before),
            None => forall|place: int|
                from <= place && place + 3 <= start + 22 ==> !#[trigger] occurs_at(
                    bytes,
                    X86_PUSH_CALL@,
                    place,
                ),
        },
    decreases start + 20 - from,
{
    if from + 3 <= start + 22 && from + 3 <= bytes.len() {
        lemma_push_call(bytes, start, from + 1);
    }
    assert(X86_PUSH_CALL@.len() == 3);
}

/// Whether a load at `at` is followed closely by a push and a call at `push` that leads to the
/// helper, and which resolver the two give.
pub open spec fn x86_gives(
    code: CodeRegion,
    bytes: Seq<u8>,
    adapter: int,
    anchor: int,
    at: int,
    push: int,
    resolver: CurrentAppResolver,
) -> bool {
    let helper = (adapter + push + 7 + signed_32(le_value(bytes.subrange(push + 3, push + 7)) as int))
        % 0x1_0000_0000;
    let slot = (anchor + signed_32(le_value(bytes.subrange(at + 2, at + 6)) as int))
        % 0x1_0000_0000;
    &&& 0 <= at && at + 5 < bytes.len()
    &&& bytes[at] == 0x8d && bytes[at + 1] == 0x83
    &&& at + 6 <= push <= at + 25
    &&& push + 7 <= bytes.len()
    &&& occurs_at(bytes, X86_PUSH_CALL@, push)
    &&& forall|before: int|
        at + 6 <= before < push ==> !#[trigger] occurs_at(bytes, X86_PUSH_CALL@, before)
    &&& is_helper(Arch::X86, code, helper)
    &&& resolver.helper == helper as usize
    &&& resolver.engine_slot == slot as usize
}

/// In a 32-bit process the slot and the helper of a resolver are read off one load and the
/// call behind it, and the helper is valid.
pub proof fn law_x86_resolvers_are_read_off_a_call(
    code: CodeRegion,
    bytes: Seq<u8>,
    adapter: int,
    anchor: int,
    from: int,
)
    requires
        0 <= from,
    ensures
        x86_resolver_from(code, bytes, adapter, anchor, from) matches Some(resolver) ==> exists|
            at: int,
            push: int,
        |
            from <= at && #[trigger] x86_gives(code, bytes, adapter, anchor, at, push, resolver),
    decreases bytes.len() - from,
{
    if from + 5 < bytes.len() && x86_resolver_from(code, bytes, adapter, anchor, from) is Some {
        let resolver = x86_resolver_from(code, bytes, adapter, anchor, from)->0;
        lemma_push_call(bytes, from + 6, from + 6);
        if x86_resolver_from(code, bytes, adapter, anchor, from) == x86_resolver_from(
            code,
            bytes,
            adapter,
            anchor,
            from + 1,
        ) {
            law_x86_resolvers_are_read_off_a_call(code, bytes, adapter, anchor, from + 1);
        } else {
            let push = push_call_behind(bytes, from)->0;
            assert(push + 3 + 4 == push + 7);
            assert(from + 2 + 4 == from + 6);
            assert(x86_gives(code, bytes, adapter, anchor, from, push, resolver));
        }
    }
}

/// A load whose call leads to the helper decides where no load stands before it.
pub proof fn law_the_first_x86_load_decides(
    code: CodeRegion,
    bytes: Seq<u8>,
    adapter: int,
    anchor: int,
    from: int,
    at: int,
    push: int,
    resolver: CurrentAppResolver,
)
    requires
        0 <= from <= at,
        x86_gives(code, bytes, adapter, anchor, at, push, resolver),
        forall|before: int|
            from <= before < at ==> #[trigger] bytes[before] != 0x8d || bytes[before + 1] != 0x83,
    ensures
        x86_resolver_from(code, bytes, adapter, anchor, from) == Some(resolver),
    decreases at - from,
{
    if from < at {
        assert(bytes[from] != 0x8d || bytes[from + 1] != 0x83);
        law_the_first_x86_load_decides(
            code,
            bytes,
            adapter,
            anchor,
            from + 1,
            at,
            push,
            resolver,
        );
    } else {
        lemma_push_call(bytes, at + 6, at + 6);
        let found = push_call_behind(bytes, at);
        assert(found is Some) by {
            assert(occurs_at(bytes, X86_PUSH_CALL@, push));
        }
        assert(found->0 == push) by {
            assert(occurs_at(bytes, X86_PUSH_CALL@, found->0));
        }
        assert(push + 3 + 4 == push + 7);
        assert(at + 2 + 4 == at + 6);
    }
}

/// A position anchor is found at its first place.
pub proof fn law_anchors_are_found_first(bytes: Seq<u8>, from: int, place: int)
    requires
        0 <= from,
    ensures
        from <= place && masked_at(bytes, X86_ANCHOR@, X86_ANCHOR_MASK@, place) && (forall|
            before: int,
        |
            from <= before < place ==> !#[trigger] masked_at(
                bytes,
                X86_ANCHOR@,
                X86_ANCHOR_MASK@,
                before,
            )) ==> anchor_from(bytes, from) == Some(place),
        (forall|at: int|
            from <= at ==> !#[trigger] masked_at(bytes, X86_ANCHOR@, X86_ANCHOR_MASK@, at))
            ==> anchor_from(bytes, from) is None,
    decreases bytes.len() - from,
{
    assert(X86_ANCHOR@.len() == 15);
    if from < bytes.len() {
        law_anchors_are_found_first(bytes, from + 1, place);
    }
}

/// Code is the helper exactly where it begins with the head and holds the table's load and the
/// tail inside the window.
pub proof fn law_helpers_hold_their_parts(
    arch: Arch,
    code: CodeRegion,
    helper: usize,
    valid: bool,
    bytes: Seq<u8>,
    window: int,
    head: Seq<u8>,
    table: Seq<u8>,
)
    requires
        call_ensures(validate_helper, (arch, &code, helper), valid),
        arch is X86 ==> window == 0x50 && head == X86_HELPER_HEAD@ && table == X86_HELPER_TABLE@,
        arch is X64 ==> window == 0x60 && head == X64_HELPER_HEAD@ && table == X64_HELPER_TABLE@,
        bytes == code.bytes@.subrange(helper - code.base, helper - code.base + window),
    ensures
        valid <==> code.base <= helper && helper + window <= code.base + code.bytes@.len()
            && head.is_prefix_of(bytes) && stands_in(bytes, table) && stands_in(
            bytes,
            HELPER_TAIL@,
        ),
{
    assert(X86_HELPER_HEAD@.len() == 16 && X64_HELPER_HEAD@.len() == 13);
    if code.base <= helper && helper + window <= code.base + code.bytes@.len() {
        assert(bytes.len() == window);
        assert(head.is_prefix_of(bytes) <==> occurs_at(bytes, head, 0)) by {
            if head.is_prefix_of(bytes) {
                assert(bytes.subrange(0, 0int + head.len()) =~= head);
            }
        }
        law_sequences_stand_between_others(bytes, table);
        law_sequences_stand_between_others(bytes, HELPER_TAIL@);
    }
}

/// Whether bytes are a run of others, with something before it and something behind it.
pub open spec fn stands_in(bytes: Seq<u8>, part: Seq<u8>) -> bool {
    exists|before: Seq<u8>, behind: Seq<u8>| bytes == #[trigger] (before + part + behind)
}

} // verus!

//! The shape of Steam's ticket adapters in machine code, and the layout of a ticket.
use crate::bytes::{
    byte_bound, has_seq, law_le_bytes_round_trip, le_bytes, le_i32, le_number, le_u32, le_value, occurs, occurs_at, seq_at, signed_32,
};
use crate::code_shape::{
    anchored, bounded_tail, branch_targets, decode_at, direct_branch_targets, displaced,
    has_pattern, instruction_at, masked_occurs, ordered_from, ordered_reachable_sequences,
    reachable, reachable_instruction_offsets, region_tail, rows_of, tail_of, wrapped, wrapped_sum,
    Arch, CodeRegion, Decoded, FLOW_CALL, MNEMONIC_LEA, MNEMONIC_MOV, MNEMONIC_TEST,
    OPERAND_REGISTER, REGISTER_ECX, REGISTER_EDX, REGISTER_ESP, REGISTER_RDI, REGISTER_RDX,
    REGISTER_RSP,
};
use crate::lists::{ascends, contains_u32, insert_ascending, remove_ascending};
use crate::text::text_eq;
use vstd::prelude::*;
use vstd::slice::slice_subrange;

verus! {

pub const TICKET_EXT_DATA_NAME: &'static str = "IClientUser::GetAppOwnershipTicketExtendedData";

pub const UPDATE_TICKET_NAME: &'static str = "IClientUser::BUpdateAppOwnershipTicket";

pub const IS_SUBSCRIBED_IN_TICKET_NAME: &'static str = "IClientUser::IsUserSubscribedAppInTicket";

pub const GET_ENCRYPTED_NAME: &'static str = "IClientUser::GetEncryptedAppTicket";

pub const REQUEST_ENCRYPTED_NAME: &'static str = "IClientUser::RequestEncryptedAppTicket";

/// `push 4`.
pub const MODE_PUSH: [u8; 2] = [0x6a, 0x04];

/// `sub eax, 18d4h`.
pub const X86_ADJUST: [u8; 5] = [0x2d, 0xd4, 0x18, 0x00, 0x00];

/// `sub eax, 18d8h`.
pub const X86_ADJUST_NEWER: [u8; 5] = [0x2d, 0xd8, 0x18, 0x00, 0x00];

/// `lea rdi, [r12-1fd0h]`.
pub const X64_ADJUST: [u8; 8] = [0x49, 0x8d, 0xbc, 0x24, 0x30, 0xe0, 0xff, 0xff];

/// `lea rdi, [rbx-1fd0h]`.
pub const X64_ADJUST_NEWER: [u8; 7] = [0x48, 0x8d, 0xbb, 0x30, 0xe0, 0xff, 0xff];

/// `sub dword ptr [esp+4], 18d4h`.
pub const X86_THUNK: [u8; 8] = [0x81, 0x6c, 0x24, 0x04, 0xd4, 0x18, 0x00, 0x00];

/// `sub rdi, 1fd0h`.
pub const X64_THUNK: [u8; 7] = [0x48, 0x81, 0xef, 0xd0, 0x1f, 0x00, 0x00];

/// `sub esi, 18d4h`.
pub const X86_ADJUST_ESI: [u8; 6] = [0x81, 0xee, 0xd4, 0x18, 0x00, 0x00];

/// `lea eax, [esp+..]`, with any displacement.
pub const X86_STACK_LEA: [u8; 4] = [0x8d, 0x44, 0x24, 0x00];

pub const X86_STACK_LEA_MASK: [bool; 4] = [true, true, true, false];

pub const X86_STALE_FLAG: [u8; 4] = [0x80, 0x7d, 0x10, 0x00];

pub const X86_UNSET_LOCAL: [u8; 7] = [0xc7, 0x45, 0x00, 0xff, 0xff, 0xff, 0xff];

pub const X86_UNSET_LOCAL_MASK: [bool; 7] = [true, true, false, true, true, true, true];

pub const X86_RECEIVER_STATE: [u8; 7] = [0x83, 0xb8, 0xf8, 0x00, 0x00, 0x00, 0x04];

pub const X64_STALE_FLAG: [u8; 2] = [0x84, 0xd2];

pub const X64_OLD_STATE: [u8; 7] = [0x83, 0xbb, 0xe8, 0x01, 0x00, 0x00, 0x04];

pub const X64_OLD_UNSET: [u8; 8] = [0xc7, 0x44, 0x24, 0x70, 0xff, 0xff, 0xff, 0xff];

pub const X64_OLD_MODE: [u8; 5] = [0xb9, 0x06, 0x00, 0x00, 0x00];

pub const X64_STATE: [u8; 7] = [0x83, 0xbb, 0x18, 0xe2, 0xff, 0xff, 0x04];

pub const X64_UNSET: [u8; 8] = [0xc7, 0x44, 0x24, 0x20, 0xff, 0xff, 0xff, 0xff];

pub const X64_MODE: [u8; 5] = [0xb9, 0x07, 0x00, 0x00, 0x00];

pub const STATUS_FILTER: [u8; 6] = [0x83, 0xe2, 0xfd, 0x83, 0xfa, 0x01];

pub const X86_STATE_STORE: [u8; 6] = [0x89, 0x81, 0x84, 0x18, 0x00, 0x00];

pub const X64_STATE_STORE: [u8; 7] = [0x41, 0x89, 0x95, 0x60, 0x1f, 0x00, 0x00];

pub const X64_OLD_RETURN_TWO: [u8; 5] = [0xbe, 0x02, 0x00, 0x00, 0x00];

pub const X64_OLD_RETURN_ONE: [u8; 5] = [0xbe, 0x01, 0x00, 0x00, 0x00];

pub const X64_OLD_RETURN_ZERO: [u8; 2] = [0x31, 0xf6];

pub const X64_RETURN_TWO: [u8; 6] = [0x41, 0xb8, 0x02, 0x00, 0x00, 0x00];

pub const X64_RETURN_ONE: [u8; 6] = [0x41, 0xb8, 0x01, 0x00, 0x00, 0x00];

pub const X64_RETURN_ZERO: [u8; 3] = [0x45, 0x31, 0xc0];

/// Which places of a stack store of a code the code fixes: all but the displacement.
pub const STACK_STORE_MASK: [bool; 8] = [true, true, true, false, true, true, true, true];

/// Whether a `push 4` is followed closely by a relative call.
pub open spec fn call_after_push(bytes: Seq<u8>) -> bool {
    exists|push: int, call: int|
        #![trigger occurs_at(bytes, MODE_PUSH@, push), bytes[call]]
        occurs_at(bytes, MODE_PUSH@, push) && push + 2 <= call < push + 0x30 && call < bytes.len()
            && bytes[call] == 0xe8
}

fn has_call_after_mode4_push(bytes: &[u8]) -> (found: bool)
    ensures
        found == call_after_push(bytes@),
{
    let size: usize = bytes.len();
    let mut push: usize = 0;
    while push < size
        invariant
            push <= size == bytes@.len(),
            forall|p: int, call: int|
                #![trigger occurs_at(bytes@, MODE_PUSH@, p), bytes@[call]]
                0 <= p < push && occurs_at(bytes@, MODE_PUSH@, p) && p + 2 <= call < p + 0x30
                    && call < size ==> bytes@[call] != 0xe8,
        decreases size - push,
    {
        if seq_at(bytes, MODE_PUSH.as_slice(), push) {
            let end: usize = if size - push < 0x30 {
                size
            } else {
                push + 0x30
            };
            let mut call: usize = push + 2;
            while call < end
                invariant
                    push + 2 <= call,
                    end <= size == bytes@.len(),
                    end <= push + 0x30,
                    occurs_at(bytes@, MODE_PUSH@, push as int),
                    forall|c: int| push + 2 <= c < call ==> bytes@[c] != 0xe8,
                decreases end - call,
            {
                if bytes[call] == 0xe8 {
                    assert(bytes@[call as int] == 0xe8);
                    return true;
                }
                call = call + 1;
            }
        }
        push = push + 1;
    }
    false
}

/// Whether the relative call at `cursor` leads to a target.
pub open spec fn calls_at(code: Seq<u8>, cursor: int, target_offset: int) -> bool {
    &&& code[cursor] == 0xe8
    &&& wrapped_sum(
        cursor + 5,
        signed_32(le_value(code.subrange(cursor + 1, cursor + 5)) as int),
    ) == target_offset
}

/// Whether a function holds a relative call to a target.
pub open spec fn calls_target(
    code: Seq<u8>,
    function_offset: int,
    max_len: int,
    target_offset: int,
) -> bool {
    exists|cursor: int|
        function_offset <= cursor && cursor + 4 < code.len() && cursor + 4 < function_offset
            + max_len && #[trigger] calls_at(code, cursor, target_offset)
}

fn has_relative_call_to(
    code: &[u8],
    function_offset: usize,
    max_len: usize,
    target_offset: usize,
) -> (found: bool)
    requires
        function_offset <= code@.len(),
    ensures
        found == calls_target(
            code@,
            function_offset as int,
            max_len as int,
            target_offset as int,
        ),
{
    let size: usize = code.len();
    let end: usize = if max_len <= size - function_offset {
        function_offset + max_len
    } else {
        size
    };
    let mut cursor: usize = function_offset;
    while cursor < end && end - cursor > 4
        invariant
            function_offset <= cursor,
            end <= size == code@.len(),
            end <= function_offset + max_len,
            end == size || end == function_offset + max_len,
            forall|c: int|
                function_offset <= c < cursor ==> !#[trigger] calls_at(
                    code@,
                    c,
                    target_offset as int,
                ),
        decreases end - cursor,
    {
        if code[cursor] == 0xe8 {
            let displacement: i32 = le_i32(slice_subrange(code, cursor + 1, cursor + 5));
            if wrapped(cursor + 5, displacement) == target_offset {
                assert(calls_at(code@, cursor as int, target_offset as int));
                return true;
            }
        }
        cursor = cursor + 1;
    }
    false
}

/// The store of a return code on the stack.
pub open spec fn stack_store(value: u8) -> Seq<u8> {
    seq![0xc7u8, 0x44u8, 0x24u8, 0x00u8, value, 0x00u8, 0x00u8, 0x00u8]
}

fn x86_has_stack_return_code(bytes: &[u8], value: u8) -> (found: bool)
    ensures
        found == masked_occurs(bytes@, stack_store(value), STACK_STORE_MASK@),
{
    let pattern: Vec<u8> = vec![0xc7, 0x44, 0x24, 0x00, value, 0x00, 0x00, 0x00];
    assert(pattern@ =~= stack_store(value));
    has_pattern(bytes, pattern.as_slice(), STACK_STORE_MASK.as_slice())
}

/// Whether a receiver is moved back to the start of its object.
pub open spec fn adjusts_receiver(arch: Arch, bytes: Seq<u8>) -> bool {
    match arch {
        Arch::X86 => occurs(bytes, X86_ADJUST@) || occurs(bytes, X86_ADJUST_NEWER@),
        Arch::X64 => occurs(bytes, X64_ADJUST@) || occurs(bytes, X64_ADJUST_NEWER@),
    }
}

fn has_adjustment(arch: Arch, bytes: &[u8]) -> (found: bool)
    ensures
        found == adjusts_receiver(arch, bytes@),
{
    match arch {
        Arch::X86 => has_seq(bytes, X86_ADJUST.as_slice()) || has_seq(
            bytes,
            X86_ADJUST_NEWER.as_slice(),
        ),
        Arch::X64 => has_seq(bytes, X64_ADJUST.as_slice()) || has_seq(
            bytes,
            X64_ADJUST_NEWER.as_slice(),
        ),
    }
}

/// How many bytes of the extended-data adapter are looked at.
pub open spec fn ticket_ext_window(arch: Arch) -> int {
    match arch {
        Arch::X86 => 0x160,
        Arch::X64 => 0x100,
    }
}

pub open spec fn is_ticket_ext_data(arch: Arch, code: Seq<u8>, offset: int) -> bool {
    let bytes = tail_of(code, offset, ticket_ext_window(arch));
    &&& offset <= code.len()
    &&& occurs(bytes, MODE_PUSH@)
    &&& adjusts_receiver(arch, bytes)
    &&& call_after_push(bytes)
}

/// Whether the code has the shape of `GetAppOwnershipTicketExtendedData`.
pub fn validate_ticket_ext_data(arch: Arch, code: &[u8], offset: usize) -> (valid: bool)
    ensures
        valid == is_ticket_ext_data(arch, code@, offset as int),
{
    let window: usize = match arch {
        Arch::X86 => 0x160,
        Arch::X64 => 0x100,
    };
    match bounded_tail(code, offset, window) {
        Some(bytes) => has_seq(bytes, MODE_PUSH.as_slice()) && has_adjustment(arch, bytes)
            && has_call_after_mode4_push(bytes),
        None => false,
    }
}

pub open spec fn update_window(arch: Arch) -> int {
    match arch {
        Arch::X86 => 0x280,
        Arch::X64 => 0x330,
    }
}

pub open spec fn has_update_body(arch: Arch, bytes: Seq<u8>) -> bool {
    match arch {
        Arch::X86 => occurs(bytes, X86_STALE_FLAG@) && masked_occurs(
            bytes,
            X86_UNSET_LOCAL@,
            X86_UNSET_LOCAL_MASK@,
        ) && (adjusts_receiver(arch, bytes) || occurs(bytes, X86_RECEIVER_STATE@)),
        Arch::X64 => occurs(bytes, X64_STALE_FLAG@) && ((occurs(bytes, X64_OLD_STATE@) && occurs(
            bytes,
            X64_OLD_UNSET@,
        ) && occurs(bytes, X64_OLD_MODE@)) || (occurs(bytes, X64_STATE@) && occurs(
            bytes,
            X64_UNSET@,
        ) && occurs(bytes, X64_MODE@))),
    }
}

pub open spec fn is_update_ticket(
    arch: Arch,
    code: Seq<u8>,
    offset: int,
    check_ownership: int,
) -> bool {
    let bytes = tail_of(code, offset, update_window(arch));
    &&& offset <= code.len()
    &&& has_update_body(arch, bytes)
    &&& calls_target(code, offset, bytes.len() as int, check_ownership)
}

/// Whether the code has the shape of `BUpdateAppOwnershipTicket`.
pub fn validate_update_ticket(arch: Arch, code: &[u8], offset: usize, check_ownership: usize) -> (valid:
    bool)
    ensures
        valid == is_update_ticket(arch, code@, offset as int, check_ownership as int),
{
    let window: usize = match arch {
        Arch::X86 => 0x280,
        Arch::X64 => 0x330,
    };
    let bytes: &[u8] = match bounded_tail(code, offset, window) {
        Some(bytes) => bytes,
        None => {
            return false;
        },
    };
    let body: bool = match arch {
        Arch::X86 => has_seq(bytes, X86_STALE_FLAG.as_slice()) && has_pattern(
            bytes,
            X86_UNSET_LOCAL.as_slice(),
            X86_UNSET_LOCAL_MASK.as_slice(),
        ) && (has_adjustment(arch, bytes) || has_seq(bytes, X86_RECEIVER_STATE.as_slice())),
        Arch::X64 => {
            let old_shape: bool = has_seq(bytes, X64_OLD_STATE.as_slice()) && has_seq(
                bytes,
                X64_OLD_UNSET.as_slice(),
            ) && has_seq(bytes, X64_OLD_MODE.as_slice());
            let current_shape: bool = has_seq(bytes, X64_STATE.as_slice()) && has_seq(
                bytes,
                X64_UNSET.as_slice(),
            ) && has_seq(bytes, X64_MODE.as_slice());
            has_seq(bytes, X64_STALE_FLAG.as_slice()) && (old_shape || current_shape)
        },
    };
    body && has_relative_call_to(code, offset, bytes.len(), check_ownership)
}

pub open spec fn subscribed_window(arch: Arch) -> int {
    match arch {
        Arch::X86 => 0x1f0,
        Arch::X64 => 0x140,
    }
}

pub open spec fn is_subscribed_shape(arch: Arch, code: Seq<u8>, offset: int) -> bool {
    let bytes = tail_of(code, offset, subscribed_window(arch));
    &&& offset <= code.len()
    &&& occurs(bytes, STATUS_FILTER@)
    &&& match arch {
        Arch::X86 => masked_occurs(bytes, stack_store(0), STACK_STORE_MASK@) && masked_occurs(
            bytes,
            stack_store(1),
            STACK_STORE_MASK@,
        ) && masked_occurs(bytes, stack_store(2), STACK_STORE_MASK@) && !occurs(
            bytes,
            X86_STATE_STORE@,
        ),
        Arch::X64 => ((occurs(bytes, X64_OLD_RETURN_TWO@) && occurs(bytes, X64_OLD_RETURN_ONE@)
            && occurs(bytes, X64_OLD_RETURN_ZERO@)) || (occurs(bytes, X64_RETURN_TWO@) && occurs(
            bytes,
            X64_RETURN_ONE@,
        ) && occurs(bytes, X64_RETURN_ZERO@))) && !occurs(bytes, X64_STATE_STORE@),
    }
}

/// Whether the code has the shape of `IsUserSubscribedAppInTicket`.
pub fn validate_is_subscribed(arch: Arch, code: &[u8], offset: usize) -> (valid: bool)
    ensures
        valid == is_subscribed_shape(arch, code@, offset as int),
{
    let window: usize = match arch {
        Arch::X86 => 0x1f0,
        Arch::X64 => 0x140,
    };
    let bytes: &[u8] = match bounded_tail(code, offset, window) {
        Some(bytes) => bytes,
        None => {
            return false;
        },
    };
    if !has_seq(bytes, STATUS_FILTER.as_slice()) {
        return false;
    }
    match arch {
        Arch::X86 => x86_has_stack_return_code(bytes, 0) && x86_has_stack_return_code(bytes, 1)
            && x86_has_stack_return_code(bytes, 2) && !has_seq(bytes, X86_STATE_STORE.as_slice()),
        Arch::X64 => {
            let old_returns: bool = has_seq(bytes, X64_OLD_RETURN_TWO.as_slice()) && has_seq(
                bytes,
                X64_OLD_RETURN_ONE.as_slice(),
            ) && has_seq(bytes, X64_OLD_RETURN_ZERO.as_slice());
            let current_returns: bool = has_seq(bytes, X64_RETURN_TWO.as_slice()) && has_seq(
                bytes,
                X64_RETURN_ONE.as_slice(),
            ) && has_seq(bytes, X64_RETURN_ZERO.as_slice());
            (old_returns || current_returns) && !has_seq(bytes, X64_STATE_STORE.as_slice())
        },
    }
}

/// The steps of an encrypted-ticket request, in their order.
pub open spec fn request_enc_steps(arch: Arch) -> Seq<Seq<u8>> {
    match arch {
        Arch::X86 => seq![
            seq![0x68u8, 0x70u8, 0x01u8, 0x00u8, 0x00u8],
            seq![0x2du8, 0xd4u8, 0x18u8, 0x00u8, 0x00u8],
            seq![
                0xc7u8, 0x86u8, 0x6cu8, 0x01u8, 0x00u8, 0x00u8, 0x00u8, 0x00u8, 0x00u8, 0x00u8,
            ],
            seq![0x89u8, 0x86u8, 0x68u8, 0x01u8, 0x00u8, 0x00u8],
            seq![0x68u8, 0x7au8, 0x07u8, 0x00u8, 0x00u8],
            seq![0xffu8, 0x52u8, 0x14u8],
        ],
        Arch::X64 => seq![
            seq![0x48u8, 0x8du8, 0xafu8, 0x30u8, 0xe0u8, 0xffu8, 0xffu8],
            seq![0xbfu8, 0xe8u8, 0x01u8, 0x00u8, 0x00u8],
            seq![0x48u8, 0x89u8, 0xabu8, 0xd8u8, 0x01u8, 0x00u8, 0x00u8],
            seq![
                0x48u8, 0xc7u8, 0x83u8, 0xe0u8, 0x01u8, 0x00u8, 0x00u8, 0x00u8, 0x00u8, 0x00u8,
                0x00u8,
            ],
            seq![0xb9u8, 0x7au8, 0x07u8, 0x00u8, 0x00u8],
            seq![0xffu8, 0x50u8, 0x28u8],
        ],
    }
}

fn request_enc_needles(arch: Arch) -> (needles: Vec<Vec<u8>>)
    ensures
        rows_of(needles@) == request_enc_steps(arch),
{
    let needles: Vec<Vec<u8>> = match arch {
        Arch::X86 => vec![
            vec![0x68, 0x70, 0x01, 0x00, 0x00],
            vec![0x2d, 0xd4, 0x18, 0x00, 0x00],
            vec![0xc7, 0x86, 0x6c, 0x01, 0x00, 0x00, 0x00, 0x00, 0x00, 0x00],
            vec![0x89, 0x86, 0x68, 0x01, 0x00, 0x00],
            vec![0x68, 0x7a, 0x07, 0x00, 0x00],
            vec![0xff, 0x52, 0x14],
        ],
        Arch::X64 => vec![
            vec![0x48, 0x8d, 0xaf, 0x30, 0xe0, 0xff, 0xff],
            vec![0xbf, 0xe8, 0x01, 0x00, 0x00],
            vec![0x48, 0x89, 0xab, 0xd8, 0x01, 0x00, 0x00],
            vec![0x48, 0xc7, 0x83, 0xe0, 0x01, 0x00, 0x00, 0x00, 0x00, 0x00, 0x00],
            vec![0xb9, 0x7a, 0x07, 0x00, 0x00],
            vec![0xff, 0x50, 0x28],
        ],
    };
    assert(rows_of(needles@) =~~= request_enc_steps(arch));
    needles
}

pub open spec fn is_request_enc(arch: Arch, code: Seq<u8>, offset: int) -> bool {
    offset <= code.len() && ordered_from(
        arch,
        tail_of(code, offset, 0x160),
        offset as u64,
        request_enc_steps(arch),
        0,
    )
}

/// Whether the code has the shape of an encrypted-ticket request: every step at a place
/// that can be reached, in their order.
pub fn validate_request_enc(arch: Arch, code: &[u8], offset: usize) -> (valid: bool)
    ensures
        valid == is_request_enc(arch, code@, offset as int),
{
    let size: usize = code.len();
    match bounded_tail(code, offset, 0x160) {
        Some(bytes) => {
            let needles: Vec<Vec<u8>> = request_enc_needles(arch);
            ordered_reachable_sequences(arch, bytes, offset, &needles)
        },
        None => false,
    }
}

/// The steps of an encrypted-ticket lookup, for either known field layout.
pub open spec fn get_enc_steps(arch: Arch, beta: bool) -> Seq<Seq<u8>> {
    match arch {
        Arch::X86 => seq![
            if beta {
                seq![0x8bu8, 0x97u8, 0x14u8, 0x48u8, 0x00u8, 0x00u8]
            } else {
                seq![0x8bu8, 0x97u8, 0x50u8, 0x49u8, 0x00u8, 0x00u8]
            },
            if beta {
                seq![0x8bu8, 0x8fu8, 0x28u8, 0x48u8, 0x00u8, 0x00u8]
            } else {
                seq![0x8bu8, 0x8fu8, 0x64u8, 0x49u8, 0x00u8, 0x00u8]
            },
            seq![0x6bu8, 0xd2u8, 0x44u8],
            seq![0x8du8, 0x7au8, 0x18u8],
        ],
        Arch::X64 => seq![
            if beta {
                seq![0x49u8, 0x63u8, 0x95u8, 0x40u8, 0x61u8, 0x00u8, 0x00u8]
            } else {
                seq![0x49u8, 0x63u8, 0x95u8, 0xd0u8, 0x62u8, 0x00u8, 0x00u8]
            },
            if beta {
                seq![0x49u8, 0x8bu8, 0x8du8, 0x58u8, 0x61u8, 0x00u8, 0x00u8]
            } else {
                seq![0x49u8, 0x8bu8, 0x8du8, 0xe8u8, 0x62u8, 0x00u8, 0x00u8]
            },
            seq![0x48u8, 0x8du8, 0x14u8, 0x52u8, 0x48u8, 0xc1u8, 0xe2u8, 0x05u8],
            seq![0x4cu8, 0x8du8, 0x6au8, 0x20u8],
        ],
    }
}

fn get_enc_needles(arch: Arch, beta: bool) -> (needles: Vec<Vec<u8>>)
    ensures
        rows_of(needles@) == get_enc_steps(arch, beta),
{
    let needles: Vec<Vec<u8>> = match arch {
        Arch::X86 => vec![
            if beta {
                vec![0x8b, 0x97, 0x14, 0x48, 0x00, 0x00]
            } else {
                vec![0x8b, 0x97, 0x50, 0x49, 0x00, 0x00]
            },
            if beta {
                vec![0x8b, 0x8f, 0x28, 0x48, 0x00, 0x00]
            } else {
                vec![0x8b, 0x8f, 0x64, 0x49, 0x00, 0x00]
            },
            vec![0x6b, 0xd2, 0x44],
            vec![0x8d, 0x7a, 0x18],
        ],
        Arch::X64 => vec![
            if beta {
                vec![0x49, 0x63, 0x95, 0x40, 0x61, 0x00, 0x00]
            } else {
                vec![0x49, 0x63, 0x95, 0xd0, 0x62, 0x00, 0x00]
            },
            if beta {
                vec![0x49, 0x8b, 0x8d, 0x58, 0x61, 0x00, 0x00]
            } else {
                vec![0x49, 0x8b, 0x8d, 0xe8, 0x62, 0x00, 0x00]
            },
            vec![0x48, 0x8d, 0x14, 0x52, 0x48, 0xc1, 0xe2, 0x05],
            vec![0x4c, 0x8d, 0x6a, 0x20],
        ],
    };
    assert(rows_of(needles@) =~~= get_enc_steps(arch, beta));
    needles
}

pub open spec fn is_get_enc(arch: Arch, code: Seq<u8>, offset: int) -> bool {
    let bytes = tail_of(code, offset, 0x160);
    offset <= code.len() && (ordered_from(
        arch,
        bytes,
        offset as u64,
        get_enc_steps(arch, false),
        0,
    ) || ordered_from(arch, bytes, offset as u64, get_enc_steps(arch, true), 0))
}

/// Whether the code has the shape of an encrypted-ticket lookup.
pub fn validate_get_enc(arch: Arch, code: &[u8], offset: usize) -> (valid: bool)
    ensures
        valid == is_get_enc(arch, code@, offset as int),
{
    let size: usize = code.len();
    match bounded_tail(code, offset, 0x160) {
        Some(bytes) => {
            let public: Vec<Vec<u8>> = get_enc_needles(arch, false);
            let beta: Vec<Vec<u8>> = get_enc_needles(arch, true);
            ordered_reachable_sequences(arch, bytes, offset, &public)
                || ordered_reachable_sequences(arch, bytes, offset, &beta)
        },
        None => false,
    }
}

/// What the jump behind a prefix leads to, if the code at `entry` is that prefix and a
/// relative jump inside the region.
pub open spec fn tail_jump_target(code: CodeRegion, entry: int, prefix: Seq<u8>) -> Option<int> {
    let bytes = code.bytes@;
    let jump = entry - code.base + prefix.len();
    let target = entry + prefix.len() + 5 + signed_32(
        le_value(bytes.subrange(jump + 1, jump + 5)) as int,
    );
    if entry >= code.base && jump + 5 <= bytes.len() && occurs_at(bytes, prefix, entry - code.base)
        && bytes[jump] == 0xe9 && code.holds(target) {
        Some(target)
    } else {
        None
    }
}

pub fn relative_tail_jump_after(code: &CodeRegion, entry: usize, prefix: &[u8]) -> (target: Option<
    usize,
>)
    requires
        code.base + code.bytes@.len() <= usize::MAX,
    ensures
        target is Some <==> tail_jump_target(*code, entry as int, prefix@) is Some,
        target is Some ==> target->0 == tail_jump_target(*code, entry as int, prefix@)->0,
{
    if entry < code.base {
        return None;
    }
    let size: usize = code.bytes.len();
    let offset: usize = entry - code.base;
    if offset > size || prefix.len() > size - offset || size - offset - prefix.len() < 5 {
        return None;
    }
    let jump: usize = offset + prefix.len();
    if !seq_at(code.bytes, prefix, offset) || code.bytes[jump] != 0xe9 {
        return None;
    }
    let displacement: i32 = le_i32(slice_subrange(code.bytes, jump + 1, jump + 5));
    let next: usize = code.base + jump + 5;
    match displaced(next, displacement) {
        Some(target) => if target >= code.base && target < code.base + size {
            Some(target)
        } else {
            None
        },
        None => None,
    }
}

/// The adjustment that the lookup's thunk makes before it jumps.
pub open spec fn thunk_prefix(arch: Arch) -> Seq<u8> {
    match arch {
        Arch::X86 => X86_THUNK@,
        Arch::X64 => X64_THUNK@,
    }
}

pub fn get_enc_thunk_target(arch: Arch, code: &CodeRegion, entry: usize) -> (target: Option<usize>)
    requires
        code.base + code.bytes@.len() <= usize::MAX,
    ensures
        target is Some <==> tail_jump_target(*code, entry as int, thunk_prefix(arch)) is Some,
        target is Some ==> target->0 == tail_jump_target(
            *code,
            entry as int,
            thunk_prefix(arch),
        )->0,
{
    match arch {
        Arch::X86 => relative_tail_jump_after(code, entry, X86_THUNK.as_slice()),
        Arch::X64 => relative_tail_jump_after(code, entry, X64_THUNK.as_slice()),
    }
}

/// The lookup behind a thunk, if it has the right shape.
pub open spec fn get_enc_implementation(arch: Arch, code: CodeRegion, entry: int) -> Option<int> {
    let target = tail_jump_target(code, entry, thunk_prefix(arch));
    if target is Some && is_get_enc(arch, code.bytes@, target->0 - code.base) {
        target
    } else {
        None
    }
}

pub fn resolve_get_enc_implementation(arch: Arch, code: &CodeRegion, entry: usize) -> (target: Option<
    usize,
>)
    requires
        code.base + code.bytes@.len() <= usize::MAX,
    ensures
        target is Some <==> get_enc_implementation(arch, *code, entry as int) is Some,
        target is Some ==> target->0 == get_enc_implementation(arch, *code, entry as int)->0,
{
    match get_enc_thunk_target(arch, code, entry) {
        Some(target) => if validate_get_enc(arch, code.bytes, target - code.base) {
            Some(target)
        } else {
            None
        },
        None => None,
    }
}

/// What a walk over the subscription wrapper has seen.
pub struct WrapperScan {
    /// The registers that hold the app id.
    pub aliases: Set<u32>,
    pub forwards_app_id: bool,
    pub constructs_game_id: bool,
    pub adjusts_this: bool,
}

/// `-1fd0h` as a 64-bit displacement.
pub const X64_RECEIVER_DISPLACEMENT: u64 = 0xffff_ffff_ffff_e030;

impl WrapperScan {
    pub open spec fn started() -> WrapperScan {
        WrapperScan {
            aliases: Set::<u32>::empty().insert(REGISTER_EDX),
            forwards_app_id: false,
            constructs_game_id: false,
            adjusts_this: false,
        }
    }

    /// One instruction further: a move copies the app id or overwrites a copy of it.
    pub open spec fn after(self, decoded: Decoded) -> WrapperScan {
        let moves = decoded.mnemonic == MNEMONIC_MOV && decoded.op0_kind == OPERAND_REGISTER;
        let copies = moves && decoded.op1_kind == OPERAND_REGISTER && self.aliases.contains(
            decoded.op1_register,
        );
        let aliases = if copies {
            self.aliases.insert(decoded.op0_register)
        } else if moves && decoded.op0_register != REGISTER_ECX {
            self.aliases.remove(decoded.op0_register)
        } else {
            self.aliases
        };
        let leas = decoded.mnemonic == MNEMONIC_LEA;
        WrapperScan {
            aliases,
            forwards_app_id: self.forwards_app_id || (copies && decoded.op0_register
                == REGISTER_ECX),
            constructs_game_id: self.constructs_game_id || (leas && decoded.op0_register
                == REGISTER_RDX && decoded.memory_base == REGISTER_RSP),
            adjusts_this: self.adjusts_this || (leas && decoded.op0_register == REGISTER_RDI
                && decoded.memory_displacement == X64_RECEIVER_DISPLACEMENT),
        }
    }

    /// What a walk from `offset` on has seen at its end.
    pub open spec fn walked(self, bytes: Seq<u8>, ip: u64, offset: int) -> WrapperScan
        decreases bytes.len() - offset,
    {
        let decoded = instruction_at(Arch::X64, bytes, ip, offset);
        if offset < 0 || offset >= bytes.len() || decoded.invalid || decoded.length == 0 || offset
            + decoded.length > bytes.len() {
            self
        } else {
            self.after(decoded).walked(bytes, ip, offset + decoded.length)
        }
    }
}

/// Whether the wrapper passes the app id on the way the adapter expects it.
pub open spec fn is_subscribed_wrapper(arch: Arch, code: CodeRegion, entry: int) -> bool {
    let bytes = tail_of(code.bytes@, entry - code.base, 0x180);
    &&& code.base <= entry <= code.base + code.bytes@.len()
    &&& match arch {
        Arch::X86 => (occurs(bytes, X86_ADJUST_ESI@) || occurs(bytes, X86_ADJUST@) || occurs(
            bytes,
            X86_ADJUST_NEWER@,
        )) && masked_occurs(bytes, X86_STACK_LEA@, X86_STACK_LEA_MASK@),
        Arch::X64 => {
            let scan = WrapperScan::started().walked(bytes, entry as u64, 0);
            scan.forwards_app_id && scan.constructs_game_id && scan.adjusts_this
        },
    }
}

pub fn validate_is_subscribed_wrapper_abi(arch: Arch, code: &CodeRegion, entry: usize) -> (valid:
    bool)
    ensures
        valid == is_subscribed_wrapper(arch, *code, entry as int),
{
    let bytes: &[u8] = match region_tail(code, entry, 0x180) {
        Some(bytes) => bytes,
        None => {
            return false;
        },
    };
    match arch {
        Arch::X86 => (has_seq(bytes, X86_ADJUST_ESI.as_slice()) || has_adjustment(arch, bytes))
            && has_pattern(bytes, X86_STACK_LEA.as_slice(), X86_STACK_LEA_MASK.as_slice()),
        Arch::X64 => wrapper_forwards(bytes, entry as u64),
    }
}

fn wrapper_forwards(bytes: &[u8], ip: u64) -> (valid: bool)
    ensures
        ({
            let scan = WrapperScan::started().walked(bytes@, ip, 0);
            valid == (scan.forwards_app_id && scan.constructs_game_id && scan.adjusts_this)
        }),
{
    let mut aliases: Vec<u32> = Vec::new();
    aliases.push(REGISTER_EDX);
    let mut forwards_app_id: bool = false;
    let mut constructs_game_id: bool = false;
    let mut adjusts_this: bool = false;
    let ghost mut scan = WrapperScan::started();
    assert forall|register: u32| #[trigger]
        aliases@.contains(register) <==> scan.aliases.contains(register) by {
        assert(aliases@[0] == REGISTER_EDX);
    }
    let mut offset: usize = 0;
    while offset < bytes.len()
        invariant
            offset <= bytes@.len(),
            ascends(aliases@),
            forall|register: u32| #[trigger]
                aliases@.contains(register) <==> scan.aliases.contains(register),
            forwards_app_id == scan.forwards_app_id,
            constructs_game_id == scan.constructs_game_id,
            adjusts_this == scan.adjusts_this,
            scan.walked(bytes@, ip, offset as int) == WrapperScan::started().walked(bytes@, ip, 0),
        decreases bytes@.len() - offset,
    {
        let decoded: Decoded = decode_at(Arch::X64, bytes, ip, offset);
        if decoded.invalid {
            return forwards_app_id && constructs_game_id && adjusts_this;
        }
        if decoded.mnemonic == MNEMONIC_MOV && decoded.op0_kind == OPERAND_REGISTER {
            if decoded.op1_kind == OPERAND_REGISTER && contains_u32(
                aliases.as_slice(),
                decoded.op1_register,
            ) {
                insert_ascending(&mut aliases, decoded.op0_register);
                if decoded.op0_register == REGISTER_ECX {
                    forwards_app_id = true;
                }
            } else if decoded.op0_register != REGISTER_ECX {
                remove_ascending(&mut aliases, decoded.op0_register);
            }
        }
        if decoded.mnemonic == MNEMONIC_LEA {
            if decoded.op0_register == REGISTER_RDX && decoded.memory_base == REGISTER_RSP {
                constructs_game_id = true;
            }
            if decoded.op0_register == REGISTER_RDI && decoded.memory_displacement
                == X64_RECEIVER_DISPLACEMENT {
                adjusts_this = true;
            }
        }
        proof {
            scan = scan.after(decoded);
        }
        offset = offset + decoded.length;
    }
    forwards_app_id && constructs_game_id && adjusts_this
}

/// Whether a `push 4` can be reached at `at`.
pub open spec fn mode_push_at(arch: Arch, bytes: Seq<u8>, ip: u64, at: int) -> bool {
    anchored(arch, bytes, ip, MODE_PUSH@, at)
}

/// Whether the instruction at `at` can be reached and decodes.
pub open spec fn runs_at(arch: Arch, bytes: Seq<u8>, ip: u64, at: int) -> bool {
    0 <= at < bytes.len() && reachable(arch, bytes, ip, at) && !instruction_at(
        arch,
        bytes,
        ip,
        at,
    ).invalid
}

/// Whether the instruction at `at` is a call closely behind a `push 4`.
pub open spec fn mode_call_at(arch: Arch, bytes: Seq<u8>, ip: u64, at: int) -> bool {
    runs_at(arch, bytes, ip, at) && instruction_at(arch, bytes, ip, at).flow == FLOW_CALL
        && exists|push: int|
        push < at <= push + 0x30 && #[trigger] mode_push_at(arch, bytes, ip, push)
}

/// Whether the instruction at `at` uses an argument high on the stack.
pub open spec fn high_stack_at(arch: Arch, bytes: Seq<u8>, ip: u64, at: int) -> bool {
    let decoded = instruction_at(arch, bytes, ip, at);
    runs_at(arch, bytes, ip, at) && (decoded.memory_base == REGISTER_RSP || decoded.memory_base
        == REGISTER_ESP) && 0x30 <= decoded.memory_displacement <= 0x100
}

/// Whether the instruction at `at` tests a register against itself.
pub open spec fn self_test_at(arch: Arch, bytes: Seq<u8>, ip: u64, at: int) -> bool {
    let decoded = instruction_at(arch, bytes, ip, at);
    runs_at(arch, bytes, ip, at) && decoded.mnemonic == MNEMONIC_TEST && decoded.op0_kind
        == OPERAND_REGISTER && decoded.op1_kind == OPERAND_REGISTER && decoded.op0_register
        == decoded.op1_register
}

/// How many such tests stand before `end`.
pub open spec fn self_tests(arch: Arch, bytes: Seq<u8>, ip: u64, end: int) -> nat
    decreases end,
{
    if end <= 0 {
        0
    } else {
        self_tests(arch, bytes, ip, end - 1) + if self_test_at(arch, bytes, ip, end - 1) {
            1nat
        } else {
            0nat
        }
    }
}

/// Whether the receiver's adjustment can be reached at `at`.
pub open spec fn adjustment_at(arch: Arch, bytes: Seq<u8>, ip: u64, at: int) -> bool {
    match arch {
        Arch::X86 => anchored(arch, bytes, ip, X86_ADJUST@, at) || anchored(
            arch,
            bytes,
            ip,
            X86_ADJUST_NEWER@,
            at,
        ),
        Arch::X64 => anchored(arch, bytes, ip, X64_ADJUST@, at) || anchored(
            arch,
            bytes,
            ip,
            X64_ADJUST_NEWER@,
            at,
        ),
    }
}

/// Whether the extended-data adapter's work can be reached from its entry.
pub open spec fn ticket_ext_runs(arch: Arch, code: CodeRegion, target: int) -> bool {
    let bytes = tail_of(code.bytes@, target - code.base, 0x160);
    let ip = target as u64;
    &&& code.base <= target <= code.base + code.bytes@.len()
    &&& exists|at: int| 0 <= at < bytes.len() && #[trigger] adjustment_at(arch, bytes, ip, at)
    &&& exists|at: int| 0 <= at < bytes.len() && #[trigger] mode_push_at(arch, bytes, ip, at)
        && runs_at(arch, bytes, ip, at)
    &&& exists|at: int| 0 <= at < bytes.len() && #[trigger] mode_call_at(arch, bytes, ip, at)
    &&& exists|at: int| 0 <= at < bytes.len() && #[trigger] high_stack_at(arch, bytes, ip, at)
    &&& self_tests(arch, bytes, ip, bytes.len() as int) >= 2
}

fn has_adjustment_at(arch: Arch, bytes: &[u8], at: usize) -> (found: bool)
    ensures
        found == match arch {
            Arch::X86 => occurs_at(bytes@, X86_ADJUST@, at as int) || occurs_at(
                bytes@,
                X86_ADJUST_NEWER@,
                at as int,
            ),
            Arch::X64 => occurs_at(bytes@, X64_ADJUST@, at as int) || occurs_at(
                bytes@,
                X64_ADJUST_NEWER@,
                at as int,
            ),
        },
{
    match arch {
        Arch::X86 => seq_at(bytes, X86_ADJUST.as_slice(), at) || seq_at(
            bytes,
            X86_ADJUST_NEWER.as_slice(),
            at,
        ),
        Arch::X64 => seq_at(bytes, X64_ADJUST.as_slice(), at) || seq_at(
            bytes,
            X64_ADJUST_NEWER.as_slice(),
            at,
        ),
    }
}

/// Whether a `push 4` stands closely before `at`.
fn push_before(arch: Arch, bytes: &[u8], marks: &Vec<bool>, ip: u64, at: usize) -> (found: bool)
    requires
        at < bytes@.len(),
        marks@.len() == bytes@.len(),
        forall|offset: int|
            0 <= offset < bytes@.len() ==> (#[trigger] marks@[offset] <==> reachable(
                arch,
                bytes@,
                ip,
                offset,
            )),
    ensures
        found == exists|push: int|
            push < at <= push + 0x30 && #[trigger] mode_push_at(arch, bytes@, ip, push),
{
    let mut push: usize = if at > 0x30 {
        at - 0x30
    } else {
        0
    };
    let ghost first = push;
    while push < at
        invariant
            first <= push <= at < bytes@.len(),
            first == 0 || first == at - 0x30,
            at <= first + 0x30,
            marks@.len() == bytes@.len(),
            forall|offset: int|
                0 <= offset < bytes@.len() ==> (#[trigger] marks@[offset] <==> reachable(
                    arch,
                    bytes@,
                    ip,
                    offset,
                )),
            forall|p: int|
                first <= p < push ==> !#[trigger] mode_push_at(arch, bytes@, ip, p),
        decreases at - push,
    {
        if marks[push] && seq_at(bytes, MODE_PUSH.as_slice(), push) {
            assert(mode_push_at(arch, bytes@, ip, push as int));
            return true;
        }
        push = push + 1;
    }
    false
}

pub fn ticket_ext_semantics_are_reachable(arch: Arch, code: &CodeRegion, target: usize) -> (valid:
    bool)
    requires
        code.base + code.bytes@.len() <= usize::MAX,
    ensures
        valid == ticket_ext_runs(arch, *code, target as int),
{
    let bytes: &[u8] = match region_tail(code, target, 0x160) {
        Some(bytes) => bytes,
        None => {
            return false;
        },
    };
    let ip: u64 = target as u64;
    let marks: Vec<bool> = reachable_instruction_offsets(arch, bytes, target);
    let mut adjusted: bool = false;
    let mut has_mode4: bool = false;
    let mut has_call_after_mode4: bool = false;
    let mut has_high_stack_argument: bool = false;
    let mut register_self_tests: usize = 0;
    let mut at: usize = 0;
    while at < bytes.len()
        invariant
            at <= bytes@.len(),
            marks@.len() == bytes@.len(),
            forall|offset: int|
                0 <= offset < bytes@.len() ==> (#[trigger] marks@[offset] <==> reachable(
                    arch,
                    bytes@,
                    ip,
                    offset,
                )),
            adjusted <==> exists|k: int|
                0 <= k < at && #[trigger] adjustment_at(arch, bytes@, ip, k),
            has_mode4 <==> exists|k: int|
                0 <= k < at && #[trigger] mode_push_at(arch, bytes@, ip, k) && runs_at(
                    arch,
                    bytes@,
                    ip,
                    k,
                ),
            has_call_after_mode4 <==> exists|k: int|
                0 <= k < at && #[trigger] mode_call_at(arch, bytes@, ip, k),
            has_high_stack_argument <==> exists|k: int|
                0 <= k < at && #[trigger] high_stack_at(arch, bytes@, ip, k),
            register_self_tests == self_tests(arch, bytes@, ip, at as int),
            register_self_tests <= at,
        decreases bytes@.len() - at,
    {
        if marks[at] {
            if has_adjustment_at(arch, bytes, at) {
                assert(adjustment_at(arch, bytes@, ip, at as int));
                adjusted = true;
            }
            let decoded: Decoded = decode_at(arch, bytes, ip, at);
            if !decoded.invalid {
                assert(runs_at(arch, bytes@, ip, at as int));
                if seq_at(bytes, MODE_PUSH.as_slice(), at) {
                    assert(mode_push_at(arch, bytes@, ip, at as int));
                    has_mode4 = true;
                }
                if decoded.flow == FLOW_CALL && push_before(arch, bytes, &marks, ip, at) {
                    assert(mode_call_at(arch, bytes@, ip, at as int));
                    has_call_after_mode4 = true;
                }
                if (decoded.memory_base == REGISTER_RSP || decoded.memory_base == REGISTER_ESP)
                    && decoded.memory_displacement >= 0x30 && decoded.memory_displacement
                    <= 0x100 {
                    assert(high_stack_at(arch, bytes@, ip, at as int));
                    has_high_stack_argument = true;
                }
                if decoded.mnemonic == MNEMONIC_TEST && decoded.op0_kind == OPERAND_REGISTER
                    && decoded.op1_kind == OPERAND_REGISTER && decoded.op0_register
                    == decoded.op1_register {
                    register_self_tests = register_self_tests + 1;
                }
            }
        }
        at = at + 1;
    }
    adjusted && has_mode4 && has_call_after_mode4 && has_high_stack_argument && register_self_tests
        >= 2
}

/// Whether the code at an address is the adapter of that name.
pub open spec fn is_adapter_entry(
    arch: Arch,
    code: CodeRegion,
    name: Seq<char>,
    target: int,
    check_ownership: Option<usize>,
) -> bool {
    let offset = target - code.base;
    &&& target >= code.base
    &&& if name == TICKET_EXT_DATA_NAME@ {
        is_ticket_ext_data(arch, code.bytes@, offset) && ticket_ext_runs(arch, code, target)
    } else if name == UPDATE_TICKET_NAME@ {
        check_ownership is Some && check_ownership->0 >= code.base && is_update_ticket(
            arch,
            code.bytes@,
            offset,
            check_ownership->0 - code.base,
        )
    } else if name == IS_SUBSCRIBED_IN_TICKET_NAME@ {
        is_subscribed_shape(arch, code.bytes@, offset)
    } else {
        name == REQUEST_ENCRYPTED_NAME@ && is_request_enc(arch, code.bytes@, offset)
    }
}

pub fn validate_direct_adapter_entry(
    arch: Arch,
    code: &CodeRegion,
    name: &str,
    target: usize,
    check_ownership: Option<usize>,
) -> (valid: bool)
    requires
        code.base + code.bytes@.len() <= usize::MAX,
    ensures
        valid == is_adapter_entry(arch, *code, name@, target as int, check_ownership),
{
    if target < code.base {
        return false;
    }
    let offset: usize = target - code.base;
    if text_eq(name, TICKET_EXT_DATA_NAME) {
        validate_ticket_ext_data(arch, code.bytes, offset) && ticket_ext_semantics_are_reachable(
            arch,
            code,
            target,
        )
    } else if text_eq(name, UPDATE_TICKET_NAME) {
        match check_ownership {
            Some(address) => address >= code.base && validate_update_ticket(
                arch,
                code.bytes,
                offset,
                address - code.base,
            ),
            None => false,
        }
    } else if text_eq(name, IS_SUBSCRIBED_IN_TICKET_NAME) {
        validate_is_subscribed(arch, code.bytes, offset)
    } else {
        text_eq(name, REQUEST_ENCRYPTED_NAME) && validate_request_enc(arch, code.bytes, offset)
    }
}

/// The one value that a row holds, however often.
pub open spec fn sole_value(row: Seq<usize>) -> Option<usize> {
    if row.len() > 0 && forall|k: int| 0 <= k < row.len() ==> #[trigger] row[k] == row[0] {
        Some(row[0])
    } else {
        None
    }
}

/// The implementation behind an adapter: the entry itself, or the one valid target that
/// it branches to.
pub open spec fn adapter_implementation(
    arch: Arch,
    code: CodeRegion,
    name: Seq<char>,
    entry: usize,
    check_ownership: Option<usize>,
) -> Option<usize> {
    let valid = |target: usize| is_adapter_entry(arch, code, name, target as int, check_ownership);
    if name == IS_SUBSCRIBED_IN_TICKET_NAME@ && !is_subscribed_wrapper(arch, code, entry as int) {
        None
    } else if name == GET_ENCRYPTED_NAME@ {
        match get_enc_implementation(arch, code, entry as int) {
            Some(target) => Some(target as usize),
            None => None,
        }
    } else if name != IS_SUBSCRIBED_IN_TICKET_NAME@ && valid(entry) {
        Some(entry)
    } else {
        sole_value(branch_targets(arch, code, entry, 0x180).filter(valid))
    }
}

pub fn resolve_adapter_implementation(
    arch: Arch,
    code: &CodeRegion,
    name: &str,
    entry: usize,
    check_ownership: Option<usize>,
) -> (implementation: Option<usize>)
    requires
        code.base + code.bytes@.len() <= usize::MAX,
    ensures
        implementation == adapter_implementation(arch, *code, name@, entry, check_ownership),
{
    let subscribed: bool = text_eq(name, IS_SUBSCRIBED_IN_TICKET_NAME);
    if subscribed && !validate_is_subscribed_wrapper_abi(arch, code, entry) {
        return None;
    }
    if text_eq(name, GET_ENCRYPTED_NAME) {
        return resolve_get_enc_implementation(arch, code, entry);
    }
    if !subscribed && validate_direct_adapter_entry(arch, code, name, entry, check_ownership) {
        return Some(entry);
    }
    let targets: Vec<usize> = direct_branch_targets(arch, code, entry, 0x180);
    let ghost valid = |target: usize|
        is_adapter_entry(arch, *code, name@, target as int, check_ownership);
    let mut found: Option<usize> = None;
    let mut conflict: bool = false;
    let mut i: usize = 0;
    proof {
        reveal(Seq::filter);
        assert(targets@.take(0) =~= Seq::empty());
    }
    while i < targets.len()
        invariant
            i <= targets@.len(),
            code.base + code.bytes@.len() <= usize::MAX,
            valid == (|target: usize|
                is_adapter_entry(arch, *code, name@, target as int, check_ownership)),
            ({
                let kept = targets@.take(i as int).filter(valid);
                &&& found is None <==> kept.len() == 0
                &&& found is Some ==> kept[0] == found->0
                &&& conflict <==> !(forall|k: int|
                    0 <= k < kept.len() ==> #[trigger] kept[k] == kept[0])
            }),
        decreases targets@.len() - i,
    {
        let target: usize = targets[i];
        let ghost before = targets@.take(i as int).filter(valid);
        let ghost after = targets@.take(i + 1).filter(valid);
        proof {
            reveal(Seq::filter);
            assert(targets@.take(i + 1).drop_last() =~= targets@.take(i as int));
        }
        if validate_direct_adapter_entry(arch, code, name, target, check_ownership) {
            assert(after == before.push(target));
            match found {
                Some(first) => {
                    if first != target {
                        conflict = true;
                        assert(after[before.len() as int] != after[0]);
                    } else {
                        proof {
                            if conflict {
                                let k = choose|k: int|
                                    0 <= k < before.len() && #[trigger] before[k] != before[0];
                                assert(after[k] != after[0]);
                            }
                        }
                    }
                },
                None => {
                    found = Some(target);
                },
            }
        } else {
            assert(after == before);
        }
        i = i + 1;
    }
    assert(targets@.take(i as int) =~= targets@);
    if conflict {
        None
    } else {
        found
    }
}

/// A resolved adapter that was validated in place is its own implementation.
pub proof fn law_valid_entry_resolves_to_itself(
    arch: Arch,
    code: CodeRegion,
    name: Seq<char>,
    entry: usize,
    check_ownership: Option<usize>,
)
    requires
        name != IS_SUBSCRIBED_IN_TICKET_NAME@,
        name != GET_ENCRYPTED_NAME@,
        is_adapter_entry(arch, code, name, entry as int, check_ownership),
    ensures
        adapter_implementation(arch, code, name, entry, check_ownership) == Some(entry),
{
}

/// Where the parts of a ticket lie.
#[derive(Clone, Copy, Debug, PartialEq, Eq, Structural)]
pub struct TicketLayout {
    pub reported_size: u32,
    pub app_id_offset: u32,
    pub steam_id_offset: u32,
    pub signature_offset: u32,
    pub signature_size: u32,
}

pub const SIGNATURE_SIZE_BYTES: u32 = 128;

pub const STEAM_ID_OFFSET: u32 = 8;

pub const APP_ID_OFFSET: u32 = 16;

/// The account that a ticket names: eight bytes behind the header.
pub fn extract_steamid_from_ticket(ticket: &[u8]) -> (steam_id: Option<u64>)
    ensures
        steam_id is Some <==> ticket@.len() >= 16,
        steam_id is Some ==> steam_id->0 == le_value(ticket@.subrange(8, 16)),
{
    if ticket.len() < 16 {
        return None;
    }
    Some(le_number(slice_subrange(ticket, 8, 16)))
}

/// The offset of the signature that a ticket's header gives.
pub open spec fn header_offset(ticket: Seq<u8>) -> nat {
    le_value(ticket.subrange(0, 4))
}

/// The layout of a ticket: the header gives the signature's offset, which lies behind the
/// app id and leaves room for the signature.
pub open spec fn ticket_layout(ticket: Seq<u8>) -> Option<TicketLayout> {
    if 4 <= ticket.len() <= u32::MAX && header_offset(ticket) + SIGNATURE_SIZE_BYTES
        <= ticket.len() && header_offset(ticket) >= APP_ID_OFFSET + 4 {
        Some(
            TicketLayout {
                reported_size: ticket.len() as u32,
                app_id_offset: APP_ID_OFFSET,
                steam_id_offset: STEAM_ID_OFFSET,
                signature_offset: header_offset(ticket) as u32,
                signature_size: SIGNATURE_SIZE_BYTES,
            },
        )
    } else {
        None
    }
}

pub fn cached_ticket_layout(ticket: &[u8]) -> (layout: Option<TicketLayout>)
    ensures
        layout == ticket_layout(ticket@),
{
    let size: usize = ticket.len();
    if size < 4 || size as u64 > u32::MAX as u64 {
        return None;
    }
    let physical: u32 = size as u32;
    let signature_offset: u32 = le_u32(slice_subrange(ticket, 0, 4));
    match signature_offset.checked_add(SIGNATURE_SIZE_BYTES) {
        Some(end) => {
            if end > physical {
                return None;
            }
        },
        None => {
            return None;
        },
    }
    if APP_ID_OFFSET + 4 > signature_offset {
        return None;
    }
    Some(
        TicketLayout {
            reported_size: physical,
            app_id_offset: APP_ID_OFFSET,
            steam_id_offset: STEAM_ID_OFFSET,
            signature_offset,
            signature_size: SIGNATURE_SIZE_BYTES,
        },
    )
}

/// The parts of a ticket that has a layout lie inside it, one behind the other, and such a
/// ticket is copied wherever it fits.
pub proof fn law_layout_lies_inside(ticket: Seq<u8>, room: nat)
    requires
        ticket_layout(ticket) is Some,
    ensures
        ({
            let layout = ticket_layout(ticket)->0;
            &&& layout.reported_size == ticket.len()
            &&& 4 <= layout.steam_id_offset
            &&& layout.steam_id_offset + 8 <= layout.app_id_offset
            &&& layout.app_id_offset + 4 <= layout.signature_offset
            &&& layout.signature_offset + layout.signature_size <= ticket.len()
        }),
        ticket_is_copied(ticket, room) <==> ticket.len() <= room,
{
}

/// The offsets that a caller asks for with a ticket.
#[derive(Clone, Copy, Debug, PartialEq, Eq, Structural)]
pub struct TicketOffsets {
    pub app_id: u32,
    pub steam_id: u32,
    pub signature: u32,
    pub signature_size: u32,
}

/// Whether a ticket is whole enough to hand out and fits in a buffer.
pub open spec fn ticket_is_copied(ticket: Seq<u8>, room: nat) -> bool {
    SIGNATURE_SIZE_BYTES + 4 <= ticket.len() <= room
}

/// Whether a ticket was handed out under a layout: it takes the front of the buffer, and its
/// parts are reported. One that is too short, or does not fit, leaves everything as it is
/// and reports no size.
pub open spec fn is_handed_out(
    ticket: Seq<u8>,
    layout: TicketLayout,
    buffer: (Seq<u8>, Seq<u8>),
    offsets: (TicketOffsets, TicketOffsets),
    reported: u32,
) -> bool {
    if ticket_is_copied(ticket, buffer.0.len()) {
        &&& reported == layout.reported_size
        &&& buffer.1 == ticket + buffer.0.skip(ticket.len() as int)
        &&& offsets.1 == (TicketOffsets {
            app_id: layout.app_id_offset,
            steam_id: layout.steam_id_offset,
            signature: layout.signature_offset,
            signature_size: layout.signature_size,
        })
    } else {
        reported == 0 && buffer.1 == buffer.0 && offsets.1 == offsets.0
    }
}

/// Copies a ticket into a caller's buffer and reports where its parts lie.
pub fn copy_ticket_to_buffer(
    ticket: &[u8],
    layout: &TicketLayout,
    buffer: &mut Vec<u8>,
    offsets: &mut TicketOffsets,
) -> (reported: u32)
    ensures
        is_handed_out(
            ticket@,
            *layout,
            (old(buffer)@, final(buffer)@),
            (*old(offsets), *final(offsets)),
            reported,
        ),
{
    let size: usize = ticket.len();
    if size < SIGNATURE_SIZE_BYTES as usize + 4 || size > buffer.len() {
        return 0;
    }
    let ghost before = buffer@;
    let mut i: usize = 0;
    while i < size
        invariant
            i <= size == ticket@.len(),
            size <= buffer@.len() == before.len(),
            buffer@ == ticket@.take(i as int) + before.skip(i as int),
        decreases size - i,
    {
        buffer.set(i, ticket[i]);
        assert(buffer@ =~= ticket@.take(i + 1) + before.skip(i + 1));
        i = i + 1;
    }
    assert(ticket@.take(i as int) =~= ticket@);
    *offsets = TicketOffsets {
        app_id: layout.app_id_offset,
        steam_id: layout.steam_id_offset,
        signature: layout.signature_offset,
        signature_size: layout.signature_size,
    };
    layout.reported_size
}

/// Whether a ticket of so many bytes fits into a caller's buffer.
pub fn cached_ticket_fits(needed: usize, cb_max: i32, ticket_is_null: bool) -> (fits: bool)
    ensures
        fits == (!ticket_is_null && needed <= cb_max),
{
    !ticket_is_null && cb_max >= 0 && needed as u64 <= cb_max as u64
}

/// Where the tickets of an app come from.
#[derive(Clone, Copy, Debug, PartialEq, Eq, Structural)]
pub enum TicketMode {
    /// They are derived when they are asked for.
    Forge,
    /// They are those of another account, kept from its session.
    Delegate,
}

/// The mode of an app: the configured one, unless the app was found to need another
/// account's tickets.
pub fn effective_ticket_mode(mode: TicketMode, auto_delegate: bool) -> (effective: TicketMode)
    ensures
        effective == if mode is Forge && auto_delegate {
            TicketMode::Delegate
        } else {
            mode
        },
{
    match mode {
        TicketMode::Forge => if auto_delegate {
            TicketMode::Delegate
        } else {
            mode
        },
        TicketMode::Delegate => mode,
    }
}

/// Whether a ticket that Steam returned is kept, and then whether on disk: that of a
/// controlled app only where it serves other accounts, any other as configured.
pub fn kept_ticket(
    reported: u32,
    buffer_known: bool,
    controlled: bool,
    mode: TicketMode,
    disk_cache: bool,
) -> (persist: Option<bool>)
    ensures
        persist == if reported == 0 || !buffer_known {
            None
        } else if controlled {
            Some(mode is Delegate)
        } else {
            Some(disk_cache)
        },
{
    if reported == 0 || !buffer_known {
        None
    } else if controlled {
        match mode {
            TicketMode::Delegate => Some(true),
            TicketMode::Forge => Some(false),
        }
    } else {
        Some(disk_cache)
    }
}

/// What becomes of the account that is answered in place of the real one.
#[derive(Clone, Copy, Debug, PartialEq, Eq, Structural)]
pub enum DelegateId {
    Keep,
    Clear,
    Become(u64),
}

/// Where the ticket for a controlled app comes from.
#[derive(Clone, Copy, Debug, PartialEq, Eq, Structural)]
pub enum TicketSource {
    Cached,
    Forge,
    /// There is none; the caller gets no size.
    Refuse,
}

/// How a request for the ticket of a controlled app is met.
#[derive(Clone, Copy, Debug, PartialEq, Eq, Structural)]
pub struct LocalTicketStep {
    pub delegate_id: DelegateId,
    pub source: TicketSource,
}

/// What a request makes of the account that is answered.
pub open spec fn delegate_after(delegate: bool, in_window: bool, cached: Option<Seq<u8>>) -> DelegateId {
    if !delegate {
        DelegateId::Keep
    } else if !in_window {
        DelegateId::Clear
    } else {
        match cached {
            Some(ticket) => if ticket.len() >= 16 {
                DelegateId::Become(le_value(ticket.subrange(8, 16)) as u64)
            } else {
                DelegateId::Keep
            },
            None => DelegateId::Keep,
        }
    }
}

/// Where the ticket for a request comes from.
pub open spec fn source_of(cached: Option<Seq<u8>>, forge_available: bool) -> TicketSource {
    match cached {
        Some(ticket) => if ticket_layout(ticket) is Some {
            TicketSource::Cached
        } else {
            TicketSource::Refuse
        },
        None => if forge_available {
            TicketSource::Forge
        } else {
            TicketSource::Refuse
        },
    }
}

/// The bytes of a ticket that may be missing.
pub open spec fn ticket_view(ticket: Option<&[u8]>) -> Option<Seq<u8>> {
    match ticket {
        Some(ticket) => Some(ticket@),
        None => None,
    }
}

/// Decides on a request for the ticket of a controlled app. Within the window of another
/// account's ticket, a kept ticket makes its account the one that is answered; once the
/// window is closed, the real account is answered again. A kept ticket without a valid
/// layout is refused, and nothing is derived in its place.
pub fn local_ticket_step(
    delegate: bool,
    in_window: bool,
    cached: Option<&[u8]>,
    forge_available: bool,
) -> (step: LocalTicketStep)
    ensures
        step.delegate_id == delegate_after(delegate, in_window, ticket_view(cached)),
        step.source == source_of(ticket_view(cached), forge_available),
{
    let delegate_id: DelegateId = if !delegate {
        DelegateId::Keep
    } else if !in_window {
        DelegateId::Clear
    } else {
        match cached {
            Some(ticket) => match extract_steamid_from_ticket(ticket) {
                Some(steam_id) => DelegateId::Become(steam_id),
                None => DelegateId::Keep,
            },
            None => DelegateId::Keep,
        }
    };
    let source: TicketSource = match cached {
        Some(ticket) => if cached_ticket_layout(ticket).is_some() {
            TicketSource::Cached
        } else {
            TicketSource::Refuse
        },
        None => if forge_available {
            TicketSource::Forge
        } else {
            TicketSource::Refuse
        },
    };
    LocalTicketStep { delegate_id, source }
}

/// A ticket that was derived, and where its parts lie.
pub struct ForgedTicket {
    pub data: Vec<u8>,
    pub layout: TicketLayout,
}

/// Meets a request for the ticket of a controlled app: with the kept ticket, with one that
/// was derived because none is kept, or not at all.
pub fn provide_local_ticket(
    delegate: bool,
    in_window: bool,
    cached: Option<&[u8]>,
    forged: Option<&ForgedTicket>,
    buffer: &mut Vec<u8>,
    offsets: &mut TicketOffsets,
) -> (served: (DelegateId, u32))
    ensures
        served.0 == delegate_after(delegate, in_window, ticket_view(cached)),
        match source_of(ticket_view(cached), forged is Some) {
            TicketSource::Cached => is_handed_out(
                cached->0@,
                ticket_layout(cached->0@)->0,
                (old(buffer)@, final(buffer)@),
                (*old(offsets), *final(offsets)),
                served.1,
            ),
            TicketSource::Forge => is_handed_out(
                forged->0.data@,
                forged->0.layout,
                (old(buffer)@, final(buffer)@),
                (*old(offsets), *final(offsets)),
                served.1,
            ),
            TicketSource::Refuse => served.1 == 0 && final(buffer)@ == old(buffer)@
                && *final(offsets) == *old(offsets),
        },
{
    let step: LocalTicketStep = local_ticket_step(delegate, in_window, cached, forged.is_some());
    let reported: u32 = match (cached, forged) {
        (Some(ticket), _) => match cached_ticket_layout(ticket) {
            Some(layout) => copy_ticket_to_buffer(ticket, &layout, buffer, offsets),
            None => 0,
        },
        (None, Some(forged)) => copy_ticket_to_buffer(
            forged.data.as_slice(),
            &forged.layout,
            buffer,
            offsets,
        ),
        (None, None) => 0,
    };
    (step.delegate_id, reported)
}

/// Whether Steam may keep a ticket that is fresh enough: not that of a controlled app that
/// has none yet.
pub fn only_stale_tickets(controlled: bool, cached: bool, only_if_stale: bool) -> (only: bool)
    ensures
        only == (only_if_stale && !(controlled && !cached)),
{
    if controlled && !cached {
        false
    } else {
        only_if_stale
    }
}

/// What is reported of an update: success for a controlled app, otherwise what Steam says.
pub fn update_ticket_answer(controlled: bool, result: u32) -> (answer: u32)
    ensures
        answer == if controlled {
            1
        } else {
            result
        },
{
    if controlled {
        1
    } else {
        result
    }
}

/// The answer that a user has a license for an app.
pub const USER_HAS_LICENSE_FOR_APP_RESULT_HAS_LICENSE: u8 = 0;

/// The answer to whether a ticket holds a subscription; none where Steam answers.
pub fn is_subscribed_in_ticket(controlled_unowned: bool) -> (answer: Option<u8>)
    ensures
        answer == if controlled_unowned {
            Some(USER_HAS_LICENSE_FOR_APP_RESULT_HAS_LICENSE)
        } else {
            None
        },
{
    if controlled_unowned {
        Some(USER_HAS_LICENSE_FOR_APP_RESULT_HAS_LICENSE)
    } else {
        None
    }
}

/// How a query for an encrypted ticket is met.
#[derive(Clone, Copy, Debug, PartialEq, Eq, Structural)]
pub enum EncryptedTicketStep {
    /// Steam answers.
    Forward,
    /// The kept ticket is copied, and its size reported.
    Provide(u32),
    /// The buffer is too small: the size that is needed is reported, without success.
    TooSmall(u32),
}

/// Decides on a query for the encrypted ticket of the current app, zero where there is none.
pub fn get_encrypted_app_ticket(
    ready: bool,
    app_id: u32,
    controlled: bool,
    cached: Option<&[u8]>,
    cb_max: i32,
    ticket_is_null: bool,
) -> (step: EncryptedTicketStep)
    ensures
        step == if !ready || app_id == 0 || !controlled {
            EncryptedTicketStep::Forward
        } else {
            match cached {
                None => EncryptedTicketStep::Forward,
                Some(ticket) => if !ticket_is_null && ticket@.len() <= cb_max {
                    EncryptedTicketStep::Provide(ticket@.len() as u32)
                } else {
                    EncryptedTicketStep::TooSmall(ticket@.len() as u32)
                },
            }
        },
{
    if !ready || app_id == 0 || !controlled {
        return EncryptedTicketStep::Forward;
    }
    match cached {
        None => EncryptedTicketStep::Forward,
        Some(ticket) => {
            let needed: usize = ticket.len();
            if cached_ticket_fits(needed, cb_max, ticket_is_null) {
                EncryptedTicketStep::Provide(needed as u32)
            } else {
                EncryptedTicketStep::TooSmall(needed as u32)
            }
        },
    }
}

/// A kept ticket is served exactly where it is whole: its header gives an offset behind the
/// app id that leaves room for the signature. Its parts are then where Steam puts them. A
/// ticket is derived only where none is kept.
pub proof fn law_whole_tickets_are_served(ticket: Seq<u8>, forge_available: bool)
    ensures
        ({
            let offset = le_value(ticket.subrange(0, 4));
            let whole = 4 <= ticket.len() <= 0xffff_ffff && offset >= 20 && offset + 128
                <= ticket.len();
            &&& whole <==> ticket_layout(ticket) is Some
            &&& whole ==> ticket_layout(ticket)->0 == (TicketLayout {
                reported_size: ticket.len() as u32,
                app_id_offset: 16,
                steam_id_offset: 8,
                signature_offset: offset as u32,
                signature_size: 128,
            })
            &&& whole ==> source_of(Some(ticket), forge_available) is Cached
            &&& !whole ==> source_of(Some(ticket), forge_available) is Refuse
            &&& forge_available ==> source_of(None, forge_available) is Forge
            &&& !forge_available ==> source_of(None, forge_available) is Refuse
        }),
{
}

/// A ticket that is handed out stands whole at the front of the buffer, the rest of which
/// stays, and its parts are reported where they are; one that is too short or too long for
/// the buffer changes nothing and has no size.
pub proof fn law_tickets_are_handed_out_whole(
    ticket: Seq<u8>,
    layout: TicketLayout,
    before: Seq<u8>,
    after: Seq<u8>,
    asked: TicketOffsets,
    told: TicketOffsets,
    reported: u32,
)
    requires
        is_handed_out(ticket, layout, (before, after), (asked, told), reported),
    ensures
        after.len() == before.len(),
        132 <= ticket.len() <= before.len() ==> {
            &&& reported == layout.reported_size
            &&& forall|i: int| 0 <= i < ticket.len() ==> after[i] == #[trigger] ticket[i]
            &&& forall|i: int| ticket.len() <= i < before.len() ==> #[trigger] after[i] == before[i]
            &&& told.app_id == layout.app_id_offset
            &&& told.steam_id == layout.steam_id_offset
            &&& told.signature == layout.signature_offset
            &&& told.signature_size == layout.signature_size
        },
        ticket.len() < 132 || ticket.len() > before.len() ==> reported == 0 && after == before
            && told == asked,
{
    if ticket_is_copied(ticket, before.len()) {
        assert forall|i: int| ticket.len() <= i < before.len() implies #[trigger] after[i]
            == before[i] by {
            assert(after[i] == before.skip(ticket.len() as int)[i - ticket.len()]);
        }
    }
}

/// Within the window of another account's ticket, the account that the ticket names, in the
/// eight bytes behind its first eight, is answered; outside of it the real one is; and where
/// tickets are not delegated nothing changes.
pub proof fn law_tickets_name_the_account(front: Seq<u8>, account: u64, rest: Seq<u8>)
    requires
        front.len() == 8,
    ensures
        ({
            let ticket = front + le_bytes(account as nat, 8) + rest;
            &&& delegate_after(true, true, Some(ticket)) == DelegateId::Become(account)
            &&& delegate_after(true, false, Some(ticket)) is Clear
            &&& delegate_after(false, true, Some(ticket)) is Keep
            &&& delegate_after(true, true, None) is Keep
            &&& delegate_after(true, true, Some(front)) is Keep
        }),
{
    let ticket = front + le_bytes(account as nat, 8) + rest;
    assert(byte_bound(8) == 0x1_0000_0000_0000_0000) by {
        reveal_with_fuel(byte_bound, 9);
    }
    law_le_bytes_round_trip(account as nat, 8);
    assert(ticket.subrange(8, 16) =~= le_bytes(account as nat, 8));
}

/// A row has one value exactly where it is not empty and every place holds that value.
pub proof fn law_sole_values_stand_everywhere(row: Seq<usize>, value: usize)
    ensures
        sole_value(row) == Some(value) <==> row.len() > 0 && forall|k: int|
            0 <= k < row.len() ==> #[trigger] row[k] == value,
{
    if row.len() > 0 && forall|k: int| 0 <= k < row.len() ==> #[trigger] row[k] == value {
        assert(row[0] == value);
    }
    if sole_value(row) == Some(value) {
        assert(row[0] == value);
    }
}

/// What an adapter is resolved to has the shape of that adapter: whatever comes out for a
/// name was validated as that name, and a lookup of an encrypted ticket as such a lookup.
pub proof fn law_resolved_adapters_are_valid(
    arch: Arch,
    code: CodeRegion,
    name: Seq<char>,
    entry: usize,
    check_ownership: Option<usize>,
)
    requires
        code.base + code.bytes@.len() <= usize::MAX,
    ensures
        adapter_implementation(arch, code, name, entry, check_ownership) matches Some(found) ==> {
            &&& name != GET_ENCRYPTED_NAME@ ==> is_adapter_entry(
                arch,
                code,
                name,
                found as int,
                check_ownership,
            )
            &&& name == GET_ENCRYPTED_NAME@ ==> code.base <= found && is_get_enc(
                arch,
                code.bytes@,
                found - code.base,
            )
            &&& name == IS_SUBSCRIBED_IN_TICKET_NAME@ ==> is_subscribed_wrapper(
                arch,
                code,
                entry as int,
            )
        },
{
    let valid = |target: usize| is_adapter_entry(arch, code, name, target as int, check_ownership);
    let targets = branch_targets(arch, code, entry, 0x180);
    if sole_value(targets.filter(valid)) is Some {
        targets.lemma_filter_pred(valid, 0);
    }
    reveal_strlit("IClientUser::IsUserSubscribedAppInTicket");
    reveal_strlit("IClientUser::GetEncryptedAppTicket");
    assert(IS_SUBSCRIBED_IN_TICKET_NAME@.len() != GET_ENCRYPTED_NAME@.len());
}

/// A jump leads where its displacement says: behind a prefix, a relative jump by so many
/// bytes forwards or backwards is followed to its target, as long as the target lies in the
/// code.
pub proof fn law_tail_jumps_reach_their_target(
    code: CodeRegion,
    entry: int,
    prefix: Seq<u8>,
    distance: int,
)
    requires
        code.base <= entry,
        -0x8000_0000 <= distance < 0x8000_0000,
        entry - code.base + prefix.len() + 5 <= code.bytes@.len(),
        code.bytes@.subrange(entry - code.base, entry - code.base + prefix.len()) == prefix,
        code.bytes@[entry - code.base + prefix.len()] == 0xe9,
        code.bytes@.subrange(
            entry - code.base + prefix.len() + 1,
            entry - code.base + prefix.len() + 5,
        ) == le_bytes(
            (if distance < 0 {
                distance + 0x1_0000_0000
            } else {
                distance
            }) as nat,
            4,
        ),
    ensures
        ({
            let target = entry + prefix.len() + 5 + distance;
            tail_jump_target(code, entry, prefix) == if code.base <= target < code.base
                + code.bytes@.len() {
                Some(target)
            } else {
                None
            }
        }),
{
    assert(byte_bound(4) == 0x1_0000_0000) by {
        reveal_with_fuel(byte_bound, 5);
    }
    law_le_bytes_round_trip(
        (if distance < 0 {
            distance + 0x1_0000_0000
        } else {
            distance
        }) as nat,
        4,
    );
}

/// A subscription adapter is told by all three answers it can give, in either generation of
/// the code, by its filter, and by not storing a state.
pub proof fn law_subscription_adapters_give_three_answers(
    code: &[u8],
    offset: usize,
    x86: bool,
    x64: bool,
    bytes: Seq<u8>,
    wide: Seq<u8>,
)
    requires
        call_ensures(validate_is_subscribed, (Arch::X86, code, offset), x86),
        call_ensures(validate_is_subscribed, (Arch::X64, code, offset), x64),
        bytes == tail_of(code@, offset as int, 0x1f0),
        wide == tail_of(code@, offset as int, 0x140),
    ensures
        x86 <==> offset <= code@.len() && occurs(bytes, STATUS_FILTER@) && !occurs(
            bytes,
            X86_STATE_STORE@,
        ) && forall|value: u8|
            value <= 2 ==> masked_occurs(bytes, #[trigger] stack_store(value), STACK_STORE_MASK@),
        x64 <==> offset <= code@.len() && occurs(wide, STATUS_FILTER@) && !occurs(
            wide,
            X64_STATE_STORE@,
        ) && ((occurs(wide, X64_OLD_RETURN_ZERO@) && occurs(wide, X64_OLD_RETURN_ONE@) && occurs(
            wide,
            X64_OLD_RETURN_TWO@,
        )) || (occurs(wide, X64_RETURN_ZERO@) && occurs(wide, X64_RETURN_ONE@) && occurs(
            wide,
            X64_RETURN_TWO@,
        ))),
{
    if x86 {
        assert forall|value: u8| value <= 2 implies masked_occurs(
            bytes,
            #[trigger] stack_store(value),
            STACK_STORE_MASK@,
        ) by {
            assert(value == 0 || value == 1 || value == 2);
        }
    }
    if forall|value: u8|
        value <= 2 ==> masked_occurs(bytes, #[trigger] stack_store(value), STACK_STORE_MASK@) {
        assert(masked_occurs(bytes, stack_store(0), STACK_STORE_MASK@));
        assert(masked_occurs(bytes, stack_store(1), STACK_STORE_MASK@));
        assert(masked_occurs(bytes, stack_store(2), STACK_STORE_MASK@));
    }
}

/// An update of tickets is told by its flag, by one generation of its parts as a whole, and by
/// a call of the ownership check from inside the part that is looked at.
pub proof fn law_ticket_updates_ask_for_ownership(
    code: &[u8],
    offset: usize,
    check_ownership: usize,
    x86: bool,
    x64: bool,
    bytes: Seq<u8>,
    wide: Seq<u8>,
)
    requires
        call_ensures(validate_update_ticket, (Arch::X86, code, offset, check_ownership), x86),
        call_ensures(validate_update_ticket, (Arch::X64, code, offset, check_ownership), x64),
        bytes == tail_of(code@, offset as int, 0x280),
        wide == tail_of(code@, offset as int, 0x330),
    ensures
        x86 <==> offset <= code@.len() && occurs(bytes, X86_STALE_FLAG@) && masked_occurs(
            bytes,
            X86_UNSET_LOCAL@,
            X86_UNSET_LOCAL_MASK@,
        ) && (occurs(bytes, X86_ADJUST@) || occurs(bytes, X86_ADJUST_NEWER@) || occurs(
            bytes,
            X86_RECEIVER_STATE@,
        )) && calls_inside(code@, offset as int, bytes.len() as int, check_ownership as int),
        x64 <==> offset <= code@.len() && occurs(wide, X64_STALE_FLAG@) && ((occurs(
            wide,
            X64_OLD_STATE@,
        ) && occurs(wide, X64_OLD_UNSET@) && occurs(wide, X64_OLD_MODE@)) || (occurs(
            wide,
            X64_STATE@,
        ) && occurs(wide, X64_UNSET@) && occurs(wide, X64_MODE@))) && calls_inside(
            code@,
            offset as int,
            wide.len() as int,
            check_ownership as int,
        ),
{
    lemma_calls_lie_inside(code@, offset as int, bytes.len() as int, check_ownership as int);
    lemma_calls_lie_inside(code@, offset as int, wide.len() as int, check_ownership as int);
}

/// Whether all five bytes of a relative call to a target stand among so many bytes of code.
pub open spec fn calls_inside(code: Seq<u8>, start: int, len: int, target: int) -> bool {
    exists|call: Seq<u8>, at: int| #[trigger] is_call_at(code, call, at, target) && start <= at
        && at + 5 <= start + len
}

/// Whether the five bytes at a place are a relative call to a target.
pub open spec fn is_call_at(code: Seq<u8>, call: Seq<u8>, at: int, target: int) -> bool {
    &&& 0 <= at && at + 5 <= code.len()
    &&& call == code.subrange(at, at + 5)
    &&& call[0] == 0xe8
    &&& wrapped_sum(at + 5, signed_32(le_value(call.skip(1)) as int)) == target
}

proof fn lemma_calls_lie_inside(code: Seq<u8>, start: int, len: int, target: int)
    requires
        0 <= start,
    ensures
        calls_target(code, start, len, target) <==> calls_inside(code, start, len, target),
{
    if calls_target(code, start, len, target) {
        let at = choose|at: int|
            start <= at && at + 4 < code.len() && at + 4 < start + len && #[trigger] calls_at(
                code,
                at,
                target,
            );
        let call = code.subrange(at, at + 5);
        assert(call.skip(1) =~= code.subrange(at + 1, at + 5));
        assert(is_call_at(code, call, at, target));
    }
    if calls_inside(code, start, len, target) {
        let (call, at) = choose|call: Seq<u8>, at: int| #[trigger]
            is_call_at(code, call, at, target) && start <= at && at + 5 <= start + len;
        assert(call.skip(1) =~= code.subrange(at + 1, at + 5));
        assert(calls_at(code, at, target));
    }
}

/// The adapter of extended data moves its receiver, in either generation of the code, pushes
/// the mode, and calls closely behind the push.
pub proof fn law_extended_data_is_asked_with_its_mode(
    code: &[u8],
    offset: usize,
    x86: bool,
    x64: bool,
    bytes: Seq<u8>,
    wide: Seq<u8>,
)
    requires
        call_ensures(validate_ticket_ext_data, (Arch::X86, code, offset), x86),
        call_ensures(validate_ticket_ext_data, (Arch::X64, code, offset), x64),
        bytes == tail_of(code@, offset as int, 0x160),
        wide == tail_of(code@, offset as int, 0x100),
    ensures
        x86 <==> offset <= code@.len() && (occurs(bytes, X86_ADJUST@) || occurs(
            bytes,
            X86_ADJUST_NEWER@,
        )) && pushes_and_calls(bytes),
        x64 <==> offset <= code@.len() && (occurs(wide, X64_ADJUST@) || occurs(
            wide,
            X64_ADJUST_NEWER@,
        )) && pushes_and_calls(wide),
{
    lemma_pushes(bytes);
    lemma_pushes(wide);
}

/// Whether a push of the mode stands in bytes with less than 46 others between it and a call.
pub open spec fn pushes_and_calls(bytes: Seq<u8>) -> bool {
    exists|push: int, gap: int|
        #![trigger bytes[push + 2 + gap]]
        0 <= push && 0 <= gap < 46 && push + 2 + gap < bytes.len() && bytes.subrange(push, push + 2)
            == MODE_PUSH@ && bytes[push + 2 + gap] == 0xe8
}

proof fn lemma_pushes(bytes: Seq<u8>)
    ensures
        call_after_push(bytes) <==> pushes_and_calls(bytes),
        call_after_push(bytes) ==> occurs(bytes, MODE_PUSH@),
{
    assert(MODE_PUSH@.len() == 2);
    if call_after_push(bytes) {
        let (push, call) = choose|push: int, call: int|
            #![trigger occurs_at(bytes, MODE_PUSH@, push), bytes[call]]
            occurs_at(bytes, MODE_PUSH@, push) && push + 2 <= call < push + 0x30 && call
                < bytes.len() && bytes[call] == 0xe8;
        let gap = call - push - 2;
        assert(bytes[push + 2 + gap] == 0xe8);
    }
    if pushes_and_calls(bytes) {
        let (push, gap) = choose|push: int, gap: int|
            #![trigger bytes[push + 2 + gap]]
            0 <= push && 0 <= gap < 46 && push + 2 + gap < bytes.len() && bytes.subrange(
                push,
                push + 2,
            ) == MODE_PUSH@ && bytes[push + 2 + gap] == 0xe8;
        let call = push + 2 + gap;
        assert(occurs_at(bytes, MODE_PUSH@, push));
        assert(bytes[call] == 0xe8);
    }
}

/// The walk over a wrapper goes from instruction to instruction up to one that does not decode,
/// and never forgets what it has seen. A copy of the app id into the argument register, an
/// address on the stack in the third, and the receiver's displacement in the first are what it
/// looks for.
pub proof fn law_wrappers_are_walked_to_their_end(
    scan: WrapperScan,
    bytes: Seq<u8>,
    ip: u64,
    offset: int,
)
    requires
        0 <= offset < bytes.len(),
    ensures
        ({
            let decoded = instruction_at(Arch::X64, bytes, ip, offset);
            let next = offset + decoded.length;
            let sound = !decoded.invalid && decoded.length > 0 && next <= bytes.len();
            let after = scan.after(decoded);
            let copies = decoded.mnemonic == MNEMONIC_MOV && decoded.op0_kind == OPERAND_REGISTER
                && decoded.op1_kind == OPERAND_REGISTER && scan.aliases.contains(
                decoded.op1_register,
            );
            &&& !sound ==> scan.walked(bytes, ip, offset) == scan
            &&& sound ==> scan.walked(bytes, ip, offset) == after.walked(bytes, ip, next)
            &&& scan.walked(bytes, ip, bytes.len() as int) == scan
            &&& after.forwards_app_id <==> scan.forwards_app_id || (copies && decoded.op0_register
                == REGISTER_ECX)
            &&& after.constructs_game_id <==> scan.constructs_game_id || (decoded.mnemonic
                == MNEMONIC_LEA && decoded.op0_register == REGISTER_RDX && decoded.memory_base
                == REGISTER_RSP)
            &&& after.adjusts_this <==> scan.adjusts_this || (decoded.mnemonic == MNEMONIC_LEA
                && decoded.op0_register == REGISTER_RDI && decoded.memory_displacement
                == X64_RECEIVER_DISPLACEMENT)
            &&& copies ==> after.aliases.contains(decoded.op0_register)
            &&& decoded.mnemonic == MNEMONIC_MOV && decoded.op0_kind == OPERAND_REGISTER && !copies
                && decoded.op0_register != REGISTER_ECX ==> !after.aliases.contains(
                decoded.op0_register,
            )
            &&& forall|register: u32|
                register != decoded.op0_register ==> (after.aliases.contains(register)
                    <==> #[trigger] scan.aliases.contains(register))
        }),
{
}

/// A wrapper is valid where the walk from its entry has seen all three things, in whatever
/// order, starting from the app id in the second argument.
pub proof fn law_valid_wrappers_do_all_three(
    code: CodeRegion,
    entry: usize,
    valid: bool,
    bytes: Seq<u8>,
    start: WrapperScan,
)
    requires
        call_ensures(validate_is_subscribed_wrapper_abi, (Arch::X64, &code, entry), valid),
        bytes == tail_of(code.bytes@, entry - code.base, 0x180),
        start == WrapperScan::started(),
    ensures
        ({
            let scan = start.walked(bytes, entry as u64, 0);
            valid <==> code.base <= entry <= code.base + code.bytes@.len() && scan.forwards_app_id
                && scan.constructs_game_id && scan.adjusts_this
        }),
        !start.forwards_app_id && !start.constructs_game_id && !start.adjusts_this,
        forall|register: u32| #[trigger]
            start.aliases.contains(register) <==> register == REGISTER_EDX,
{
}

/// Every test of a register against itself that comes to run is counted, each once.
pub proof fn law_self_tests_are_counted(arch: Arch, bytes: Seq<u8>, ip: u64, end: int)
    requires
        0 <= end,
    ensures
        self_tests(arch, bytes, ip, 0) == 0,
        self_tests(arch, bytes, ip, end) <= end,
        self_test_at(arch, bytes, ip, end) ==> self_tests(arch, bytes, ip, end + 1) == self_tests(
            arch,
            bytes,
            ip,
            end,
        ) + 1,
        !self_test_at(arch, bytes, ip, end) ==> self_tests(arch, bytes, ip, end + 1)
            == self_tests(arch, bytes, ip, end),
    decreases end,
{
    if end > 0 {
        law_self_tests_are_counted(arch, bytes, ip, end - 1);
    }
}

/// The extended data's work comes to run: what is looked for stands where the flow comes, each
/// at some place of the code that is looked at, and at least two tests do.
pub proof fn law_extended_data_comes_to_run(
    arch: Arch,
    code: CodeRegion,
    target: usize,
    valid: bool,
    bytes: Seq<u8>,
    at: int,
)
    requires
        code.base + code.bytes@.len() <= usize::MAX,
        call_ensures(ticket_ext_semantics_are_reachable, (arch, &code, target), valid),
        bytes == tail_of(code.bytes@, target - code.base, 0x160),
    ensures
        ({
            let ip = target as u64;
            let decoded = instruction_at(arch, bytes, ip, at);
            let runs = 0 <= at < bytes.len() && reachable(arch, bytes, ip, at) && !decoded.invalid;
            &&& valid ==> code.base <= target <= code.base + code.bytes@.len() && self_tests(
                arch,
                bytes,
                ip,
                bytes.len() as int,
            ) >= 2
            &&& high_stack_at(arch, bytes, ip, at) <==> runs && (decoded.memory_base
                == REGISTER_ESP || decoded.memory_base == REGISTER_RSP)
                && decoded.memory_displacement >= 0x30 && decoded.memory_displacement <= 0x100
            &&& self_test_at(arch, bytes, ip, at) <==> runs && decoded.mnemonic == MNEMONIC_TEST
                && decoded.op0_kind == OPERAND_REGISTER && decoded.op1_kind == OPERAND_REGISTER
                && decoded.op0_register == decoded.op1_register
            &&& mode_call_at(arch, bytes, ip, at) ==> runs && decoded.flow == FLOW_CALL
            &&& valid ==> (exists|k: int| #[trigger] high_stack_at(arch, bytes, ip, k)) && (exists|
                k: int,
            | #[trigger] mode_call_at(arch, bytes, ip, k)) && (exists|k: int| #[trigger]
                adjustment_at(arch, bytes, ip, k))
        }),
{
}

/// Encrypted tickets are looked up in either of the two layouts of the fields, and requested in
/// one; the steps of both stand in order where the flow comes.
pub proof fn law_encrypted_tickets_have_their_steps(
    arch: Arch,
    code: &[u8],
    offset: usize,
    looked_up: bool,
    requested: bool,
    bytes: Seq<u8>,
)
    requires
        call_ensures(validate_get_enc, (arch, code, offset), looked_up),
        call_ensures(validate_request_enc, (arch, code, offset), requested),
        bytes == tail_of(code@, offset as int, 0x160),
    ensures
        looked_up <==> offset <= code@.len() && (ordered_from(
            arch,
            bytes,
            offset as u64,
            get_enc_steps(arch, true),
            0,
        ) || ordered_from(arch, bytes, offset as u64, get_enc_steps(arch, false), 0)),
        requested <==> offset <= code@.len() && ordered_from(
            arch,
            bytes,
            offset as u64,
            request_enc_steps(arch),
            0,
        ),
        get_enc_steps(arch, true).len() == 4 && get_enc_steps(arch, false).len() == 4
            && request_enc_steps(arch).len() == 6,
        get_enc_steps(arch, true)[2] == get_enc_steps(arch, false)[2],
        get_enc_steps(arch, true)[3] == get_enc_steps(arch, false)[3],
{
}

} // verus!

use vapor_forge_hooks::code_shape::{
    decode_at, direct_branch_targets, displaced, reachable_instruction_offsets, wrapped, Arch,
    CodeRegion, FLOW_CALL, FLOW_CONDITIONAL, FLOW_INDIRECT_JUMP, FLOW_JUMP, FLOW_RETURN,
    MNEMONIC_LEA, MNEMONIC_MOV, MNEMONIC_TEST, OPERAND_MEMORY, OPERAND_REGISTER, REGISTER_ECX,
    REGISTER_EDX, REGISTER_ESP, REGISTER_RDI, REGISTER_RDX, REGISTER_RSI, REGISTER_RSP,
};
use vapor_forge_hooks::ticket::{
    cached_ticket_fits, cached_ticket_layout, copy_ticket_to_buffer, effective_ticket_mode,
    extract_steamid_from_ticket, get_enc_thunk_target, get_encrypted_app_ticket,
    is_subscribed_in_ticket, kept_ticket, local_ticket_step, only_stale_tickets,
    provide_local_ticket, relative_tail_jump_after, resolve_adapter_implementation, update_ticket_answer,
    validate_get_enc, validate_request_enc, DelegateId, EncryptedTicketStep, ForgedTicket,
    TicketLayout, TicketMode,
    TicketOffsets, TicketSource, GET_ENCRYPTED_NAME, REQUEST_ENCRYPTED_NAME,
};

fn synthetic_ticket(size: usize, signature_offset: u32) -> Vec<u8> {
    let mut ticket = vec![0xAA; size];
    ticket[..4].copy_from_slice(&signature_offset.to_le_bytes());
    ticket
}

fn no_offsets() -> TicketOffsets {
    TicketOffsets { app_id: 0, steam_id: 0, signature: 0, signature_size: 0 }
}

#[test]
fn copy_ticket_rejects_short_ticket() {
    let ticket = vec![0xAA; 64];
    let layout = cached_ticket_layout(&synthetic_ticket(256, 128)).expect("layout");
    let mut output = vec![0u8; 256];
    assert_eq!(copy_ticket_to_buffer(&ticket, &layout, &mut output, &mut no_offsets()), 0);
}

#[test]
fn copy_ticket_rejects_truncation_and_reports_valid_offsets() {
    let ticket = synthetic_ticket(256, 128);
    let layout = cached_ticket_layout(&ticket).expect("layout");
    let mut short_output = vec![0u8; 128];
    assert_eq!(copy_ticket_to_buffer(&ticket, &layout, &mut short_output, &mut no_offsets()), 0);

    let mut output = vec![0u8; ticket.len()];
    let mut offsets = no_offsets();
    assert_eq!(
        copy_ticket_to_buffer(&ticket, &layout, &mut output, &mut offsets),
        ticket.len() as u32
    );
    assert_eq!(
        (offsets.app_id, offsets.steam_id, offsets.signature, offsets.signature_size),
        (16, 8, 128, 128)
    );
    assert_eq!(output, ticket);
}

#[test]
fn cached_layout_rejects_invalid_header() {
    assert!(cached_ticket_layout(&vec![0xAA; 256]).is_none());
}

#[test]
fn cached_ticket_fits_requires_non_null_and_room() {
    assert!(cached_ticket_fits(128, 128, false));
    assert!(cached_ticket_fits(128, 1024, false));
    assert!(!cached_ticket_fits(128, 1024, true));
    assert!(!cached_ticket_fits(0, 0, true));
    assert!(!cached_ticket_fits(129, 128, false));
    assert!(!cached_ticket_fits(1, 0, false));
    assert!(!cached_ticket_fits(1, -1, false));
}

#[test]
fn a_ticket_names_its_account() {
    let mut ticket = synthetic_ticket(256, 128);
    ticket[8..16].copy_from_slice(&76_561_198_000_000_001u64.to_le_bytes());
    assert_eq!(extract_steamid_from_ticket(&ticket), Some(76_561_198_000_000_001));
    assert_eq!(extract_steamid_from_ticket(&ticket[..12]), None);
}

const BASE: usize = 0x10_0000;

const IMPL_OFFSET: usize = 0x80;

fn body(chunks: &[&[u8]]) -> Vec<u8> {
    let mut bytes = Vec::new();
    for chunk in chunks {
        bytes.extend_from_slice(chunk);
        bytes.extend_from_slice(&[0x90; 6]);
    }
    bytes.resize(0x180, 0x90);
    bytes
}

fn code_region(bytes: &[u8]) -> CodeRegion<'_> {
    CodeRegion { base: BASE, bytes }
}

fn write_relative_branch(bytes: &mut [u8], opcode_offset: usize, target_offset: usize) {
    bytes[opcode_offset] = 0xe9;
    let next = opcode_offset + 5;
    let displacement = i32::try_from(target_offset as isize - next as isize).expect("rel32");
    bytes[opcode_offset + 1..opcode_offset + 5].copy_from_slice(&displacement.to_le_bytes());
}

fn get_thunk_bytes(prefix: &[u8], implementation: &[u8]) -> Vec<u8> {
    let mut bytes = vec![0xcc; IMPL_OFFSET + implementation.len()];
    for entry in [0usize, 0x20] {
        bytes[entry..entry + prefix.len()].copy_from_slice(prefix);
        write_relative_branch(&mut bytes, entry + prefix.len(), IMPL_OFFSET);
    }
    bytes[IMPL_OFFSET..].copy_from_slice(implementation);
    bytes
}

fn call_bytes(implementation: &[u8]) -> Vec<u8> {
    let mut bytes = vec![0xcc; IMPL_OFFSET + implementation.len()];
    write_relative_branch(&mut bytes, 0, IMPL_OFFSET);
    bytes[0] = 0xe8;
    bytes[5] = 0xc3;
    bytes[IMPL_OFFSET..].copy_from_slice(implementation);
    bytes
}

const X64_ADJUST_THIS: &[u8] = &[0x48, 0x8d, 0xaf, 0x30, 0xe0, 0xff, 0xff];
const X64_ALLOC_JOB: &[u8] = &[0xbf, 0xe8, 0x01, 0x00, 0x00];
const X64_JOB_OWNER: &[u8] = &[0x48, 0x89, 0xab, 0xd8, 0x01, 0x00, 0x00];
const X64_JOB_MESSAGE_ZERO: &[u8] =
    &[0x48, 0xc7, 0x83, 0xe0, 0x01, 0x00, 0x00, 0x00, 0x00, 0x00, 0x00];
const X64_EMSG_ETICKET_REQUEST: &[u8] = &[0xb9, 0x7a, 0x07, 0x00, 0x00];
const X64_CM_BUILDER_CALL: &[u8] = &[0xff, 0x50, 0x28];
const X64_NODE_STRIDE: &[u8] = &[0x48, 0x8d, 0x14, 0x52, 0x48, 0xc1, 0xe2, 0x05];
const X64_TICKET_PAYLOAD: &[u8] = &[0x4c, 0x8d, 0x6a, 0x20];
const X64_GET_THUNK_ADJUST: &[u8] = &[0x48, 0x81, 0xef, 0xd0, 0x1f, 0x00, 0x00];

const X86_ALLOC_JOB: &[u8] = &[0x68, 0x70, 0x01, 0x00, 0x00];
const X86_ADJUST_THIS: &[u8] = &[0x2d, 0xd4, 0x18, 0x00, 0x00];
const X86_JOB_MESSAGE_ZERO: &[u8] = &[0xc7, 0x86, 0x6c, 0x01, 0x00, 0x00, 0x00, 0x00, 0x00, 0x00];
const X86_JOB_OWNER: &[u8] = &[0x89, 0x86, 0x68, 0x01, 0x00, 0x00];
const X86_EMSG_ETICKET_REQUEST: &[u8] = &[0x68, 0x7a, 0x07, 0x00, 0x00];
const X86_CM_BUILDER_CALL: &[u8] = &[0xff, 0x52, 0x14];
const X86_NODE_STRIDE: &[u8] = &[0x6b, 0xd2, 0x44];
const X86_TICKET_PAYLOAD: &[u8] = &[0x8d, 0x7a, 0x18];
const X86_GET_THUNK_ADJUST: &[u8] = &[0x81, 0x6c, 0x24, 0x04, 0xd4, 0x18, 0x00, 0x00];

fn x64_request_body() -> Vec<u8> {
    body(&[
        X64_ADJUST_THIS,
        X64_ALLOC_JOB,
        X64_JOB_OWNER,
        X64_JOB_MESSAGE_ZERO,
        X64_EMSG_ETICKET_REQUEST,
        X64_CM_BUILDER_CALL,
    ])
}

fn x86_request_body() -> Vec<u8> {
    body(&[
        X86_ALLOC_JOB,
        X86_ADJUST_THIS,
        X86_JOB_MESSAGE_ZERO,
        X86_JOB_OWNER,
        X86_EMSG_ETICKET_REQUEST,
        X86_CM_BUILDER_CALL,
    ])
}

fn x64_public_get_body() -> Vec<u8> {
    body(&[
        &[0x49, 0x63, 0x95, 0xd0, 0x62, 0x00, 0x00],
        &[0x49, 0x8b, 0x8d, 0xe8, 0x62, 0x00, 0x00],
        X64_NODE_STRIDE,
        X64_TICKET_PAYLOAD,
    ])
}

fn x86_public_get_body() -> Vec<u8> {
    body(&[
        &[0x8b, 0x97, 0x50, 0x49, 0x00, 0x00],
        &[0x8b, 0x8f, 0x64, 0x49, 0x00, 0x00],
        X86_NODE_STRIDE,
        X86_TICKET_PAYLOAD,
    ])
}

fn accepts_request(arch: Arch, bytes: Vec<u8>) {
    assert!(validate_request_enc(arch, &bytes, 0));
    let code = code_region(&bytes);
    assert_eq!(
        resolve_adapter_implementation(arch, &code, REQUEST_ENCRYPTED_NAME, BASE, None),
        Some(BASE)
    );
}

#[test]
fn request_enc_accepts_full_shape() {
    accepts_request(Arch::X64, x64_request_body());
}

#[test]
fn ticket_request_enc_accepts_full_shape() {
    accepts_request(Arch::X86, x86_request_body());
}

#[test]
fn request_enc_rejects_missing_owner_link() {
    let bytes = body(&[
        X64_ADJUST_THIS,
        X64_ALLOC_JOB,
        X64_JOB_MESSAGE_ZERO,
        X64_EMSG_ETICKET_REQUEST,
        X64_CM_BUILDER_CALL,
    ]);
    assert!(!validate_request_enc(Arch::X64, &bytes, 0));
}

#[test]
fn ticket_request_enc_rejects_missing_owner_link() {
    let bytes = body(&[
        X86_ALLOC_JOB,
        X86_ADJUST_THIS,
        X86_JOB_MESSAGE_ZERO,
        X86_EMSG_ETICKET_REQUEST,
        X86_CM_BUILDER_CALL,
    ]);
    assert!(!validate_request_enc(Arch::X86, &bytes, 0));
}

#[test]
fn request_enc_rejects_anchors_after_return() {
    let bytes = body(&[
        X64_ADJUST_THIS,
        X64_ALLOC_JOB,
        &[0xc3],
        X64_JOB_OWNER,
        X64_JOB_MESSAGE_ZERO,
        X64_EMSG_ETICKET_REQUEST,
        X64_CM_BUILDER_CALL,
    ]);
    assert!(!validate_request_enc(Arch::X64, &bytes, 0));
}

#[test]
fn ticket_request_enc_rejects_anchors_after_return() {
    let bytes = body(&[
        X86_ALLOC_JOB,
        X86_ADJUST_THIS,
        &[0xc3],
        X86_JOB_MESSAGE_ZERO,
        X86_JOB_OWNER,
        X86_EMSG_ETICKET_REQUEST,
        X86_CM_BUILDER_CALL,
    ]);
    assert!(!validate_request_enc(Arch::X86, &bytes, 0));
}

#[test]
fn get_enc_accepts_public_and_publicbeta_offsets() {
    let publicbeta = body(&[
        &[0x49, 0x63, 0x95, 0x40, 0x61, 0x00, 0x00],
        &[0x49, 0x8b, 0x8d, 0x58, 0x61, 0x00, 0x00],
        X64_NODE_STRIDE,
        X64_TICKET_PAYLOAD,
    ]);
    assert!(validate_get_enc(Arch::X64, &x64_public_get_body(), 0));
    assert!(validate_get_enc(Arch::X64, &publicbeta, 0));
}

#[test]
fn ticket_get_enc_accepts_public_and_publicbeta_offsets() {
    let publicbeta = body(&[
        &[0x8b, 0x97, 0x14, 0x48, 0x00, 0x00],
        &[0x8b, 0x8f, 0x28, 0x48, 0x00, 0x00],
        X86_NODE_STRIDE,
        X86_TICKET_PAYLOAD,
    ]);
    assert!(validate_get_enc(Arch::X86, &x86_public_get_body(), 0));
    assert!(validate_get_enc(Arch::X86, &publicbeta, 0));
}

#[test]
fn get_enc_rejects_cross_build_offset_pair() {
    // public root + publicbeta storage is not a real build; must reject.
    let mixed = body(&[
        &[0x49, 0x63, 0x95, 0xd0, 0x62, 0x00, 0x00],
        &[0x49, 0x8b, 0x8d, 0x58, 0x61, 0x00, 0x00],
        X64_NODE_STRIDE,
        X64_TICKET_PAYLOAD,
    ]);
    assert!(!validate_get_enc(Arch::X64, &mixed, 0));
}

#[test]
fn ticket_get_enc_rejects_cross_build_offset_pair() {
    let mixed = body(&[
        &[0x8b, 0x97, 0x50, 0x49, 0x00, 0x00],
        &[0x8b, 0x8f, 0x28, 0x48, 0x00, 0x00],
        X86_NODE_STRIDE,
        X86_TICKET_PAYLOAD,
    ]);
    assert!(!validate_get_enc(Arch::X86, &mixed, 0));
}

#[test]
fn get_enc_rejects_missing_stride() {
    let bytes = body(&[
        &[0x49, 0x63, 0x95, 0xd0, 0x62, 0x00, 0x00],
        &[0x49, 0x8b, 0x8d, 0xe8, 0x62, 0x00, 0x00],
        X64_TICKET_PAYLOAD,
    ]);
    assert!(!validate_get_enc(Arch::X64, &bytes, 0));
}

#[test]
fn ticket_get_enc_rejects_missing_stride() {
    let bytes = body(&[
        &[0x8b, 0x97, 0x50, 0x49, 0x00, 0x00],
        &[0x8b, 0x8f, 0x64, 0x49, 0x00, 0x00],
        X86_TICKET_PAYLOAD,
    ]);
    assert!(!validate_get_enc(Arch::X86, &bytes, 0));
}

#[test]
fn get_enc_rejects_reordered_map_operations() {
    let bytes = body(&[
        X64_NODE_STRIDE,
        &[0x49, 0x63, 0x95, 0xd0, 0x62, 0x00, 0x00],
        &[0x49, 0x8b, 0x8d, 0xe8, 0x62, 0x00, 0x00],
        X64_TICKET_PAYLOAD,
    ]);
    assert!(!validate_get_enc(Arch::X64, &bytes, 0));
}

#[test]
fn ticket_get_enc_rejects_reordered_map_operations() {
    let bytes = body(&[
        X86_NODE_STRIDE,
        &[0x8b, 0x97, 0x50, 0x49, 0x00, 0x00],
        &[0x8b, 0x8f, 0x64, 0x49, 0x00, 0x00],
        X86_TICKET_PAYLOAD,
    ]);
    assert!(!validate_get_enc(Arch::X86, &bytes, 0));
}

fn accepts_only_adjusting_thunk(arch: Arch, adjust: &[u8], implementation: Vec<u8>) {
    let thunks = get_thunk_bytes(adjust, &implementation);
    let code = code_region(&thunks);
    for entry in [BASE, BASE + 0x20] {
        assert_eq!(
            resolve_adapter_implementation(arch, &code, GET_ENCRYPTED_NAME, entry, None),
            Some(BASE + IMPL_OFFSET)
        );
        assert_eq!(relative_tail_jump_after(&code, entry, adjust), Some(BASE + IMPL_OFFSET));
        assert_eq!(get_enc_thunk_target(arch, &code, entry), Some(BASE + IMPL_OFFSET));
    }

    let calls = call_bytes(&implementation);
    let call = code_region(&calls);
    assert_eq!(
        resolve_adapter_implementation(arch, &call, GET_ENCRYPTED_NAME, BASE, None),
        None
    );
}

#[test]
fn get_resolver_accepts_only_adjusting_tail_thunk() {
    accepts_only_adjusting_thunk(Arch::X64, X64_GET_THUNK_ADJUST, x64_public_get_body());
}

#[test]
fn ticket_get_resolver_accepts_only_adjusting_tail_thunk() {
    accepts_only_adjusting_thunk(Arch::X86, X86_GET_THUNK_ADJUST, x86_public_get_body());
}

#[test]
fn decoded_numbers_are_those_of_the_decoder() {
    assert_eq!(FLOW_JUMP, iced_x86::FlowControl::UnconditionalBranch as u32);
    assert_eq!(FLOW_INDIRECT_JUMP, iced_x86::FlowControl::IndirectBranch as u32);
    assert_eq!(FLOW_CONDITIONAL, iced_x86::FlowControl::ConditionalBranch as u32);
    assert_eq!(FLOW_RETURN, iced_x86::FlowControl::Return as u32);
    assert_eq!(FLOW_CALL, iced_x86::FlowControl::Call as u32);
    assert_eq!(MNEMONIC_LEA, iced_x86::Mnemonic::Lea as u32);
    assert_eq!(MNEMONIC_MOV, iced_x86::Mnemonic::Mov as u32);
    assert_eq!(MNEMONIC_TEST, iced_x86::Mnemonic::Test as u32);
    assert_eq!(OPERAND_REGISTER, iced_x86::OpKind::Register as u32);
    assert_eq!(OPERAND_MEMORY, iced_x86::OpKind::Memory as u32);
    assert_eq!(REGISTER_ECX, iced_x86::Register::ECX as u32);
    assert_eq!(REGISTER_EDX, iced_x86::Register::EDX as u32);
    assert_eq!(REGISTER_ESP, iced_x86::Register::ESP as u32);
    assert_eq!(REGISTER_RDX, iced_x86::Register::RDX as u32);
    assert_eq!(REGISTER_RSP, iced_x86::Register::RSP as u32);
    assert_eq!(REGISTER_RSI, iced_x86::Register::RSI as u32);
    assert_eq!(REGISTER_RDI, iced_x86::Register::RDI as u32);
}

#[test]
fn an_instruction_is_decoded_where_it_stands() {
    // nop; jmp +2; two bytes of padding; ret
    let bytes = [0x90, 0xeb, 0x02, 0xcc, 0xcc, 0xc3];
    let jump = decode_at(Arch::X64, &bytes, BASE as u64, 1);
    assert!(!jump.invalid);
    assert_eq!(jump.length, 2);
    assert_eq!(jump.flow, FLOW_JUMP);
    assert_eq!(jump.near_branch_target, BASE as u64 + 5);
    let load = decode_at(Arch::X64, &[0x48, 0x8b, 0x54, 0x24, 0x08], BASE as u64, 0);
    assert_eq!((load.mnemonic, load.op0_kind, load.op1_kind), (MNEMONIC_MOV, OPERAND_REGISTER, OPERAND_MEMORY));
    assert_eq!((load.op0_register, load.memory_base), (REGISTER_RDX, REGISTER_RSP));
    assert_eq!(load.memory_displacement, 8);
    assert!(decode_at(Arch::X64, &bytes, BASE as u64, 6).invalid);
}

#[test]
fn only_instructions_that_can_run_are_reachable() {
    let bytes = [0x90, 0xeb, 0x02, 0xcc, 0xcc, 0xc3, 0x90];
    assert_eq!(
        reachable_instruction_offsets(Arch::X64, &bytes, BASE),
        vec![true, true, false, false, false, true, false]
    );
    let calls = [0xe8, 0x01, 0x00, 0x00, 0x00, 0xc3, 0xc3];
    let code = code_region(&calls);
    assert_eq!(direct_branch_targets(Arch::X64, &code, BASE, 64), vec![BASE + 6]);
    assert_eq!(displaced(5, -6), None);
    assert_eq!(displaced(5, -5), Some(0));
    assert_eq!(wrapped(5, -6), usize::MAX);
}

#[test]
fn a_local_ticket_comes_from_the_cache_first() {
    let ticket = synthetic_ticket(256, 128);
    let account = u64::from_le_bytes([0xAA; 8]);
    let kept = local_ticket_step(true, true, Some(&ticket), true);
    assert_eq!(kept.delegate_id, DelegateId::Become(account));
    assert_eq!(kept.source, TicketSource::Cached);
    let closed = local_ticket_step(true, false, Some(&ticket), true);
    assert_eq!(closed.delegate_id, DelegateId::Clear);
    assert_eq!(closed.source, TicketSource::Cached);
    assert_eq!(local_ticket_step(false, true, Some(&ticket), true).delegate_id, DelegateId::Keep);
    let broken = synthetic_ticket(256, 200);
    let refused = local_ticket_step(true, true, Some(&broken), true);
    assert_eq!(refused.delegate_id, DelegateId::Become(account));
    assert_eq!(refused.source, TicketSource::Refuse);
    let short = local_ticket_step(true, true, Some(&[0u8; 15]), true);
    assert_eq!((short.delegate_id, short.source), (DelegateId::Keep, TicketSource::Refuse));
    assert_eq!(local_ticket_step(true, true, None, true).source, TicketSource::Forge);
    assert_eq!(local_ticket_step(true, true, None, false).source, TicketSource::Refuse);
}

#[test]
fn tickets_are_kept_as_their_app_asks() {
    assert_eq!(effective_ticket_mode(TicketMode::Forge, true), TicketMode::Delegate);
    assert_eq!(effective_ticket_mode(TicketMode::Forge, false), TicketMode::Forge);
    assert_eq!(effective_ticket_mode(TicketMode::Delegate, false), TicketMode::Delegate);
    assert_eq!(kept_ticket(0, true, true, TicketMode::Delegate, true), None);
    assert_eq!(kept_ticket(9, false, true, TicketMode::Delegate, true), None);
    assert_eq!(kept_ticket(9, true, true, TicketMode::Delegate, false), Some(true));
    assert_eq!(kept_ticket(9, true, true, TicketMode::Forge, true), Some(false));
    assert_eq!(kept_ticket(9, true, false, TicketMode::Forge, true), Some(true));
    assert_eq!(kept_ticket(9, true, false, TicketMode::Delegate, false), Some(false));
    assert!(!only_stale_tickets(true, false, true));
    assert!(only_stale_tickets(true, true, true));
    assert!(only_stale_tickets(false, false, true));
    assert!(!only_stale_tickets(false, false, false));
    assert_eq!(update_ticket_answer(true, 0), 1);
    assert_eq!(update_ticket_answer(false, 7), 7);
    assert_eq!(is_subscribed_in_ticket(true), Some(0));
    assert_eq!(is_subscribed_in_ticket(false), None);
}

#[test]
fn an_encrypted_ticket_needs_room() {
    let ticket = vec![7u8; 128];
    let step = |ready, app_id, controlled, cb_max, null| {
        get_encrypted_app_ticket(ready, app_id, controlled, Some(&ticket), cb_max, null)
    };
    assert_eq!(step(true, 480, true, 128, false), EncryptedTicketStep::Provide(128));
    assert_eq!(step(true, 480, true, 127, false), EncryptedTicketStep::TooSmall(128));
    assert_eq!(step(true, 480, true, 128, true), EncryptedTicketStep::TooSmall(128));
    assert_eq!(step(false, 480, true, 128, false), EncryptedTicketStep::Forward);
    assert_eq!(step(true, 0, true, 128, false), EncryptedTicketStep::Forward);
    assert_eq!(step(true, 480, false, 128, false), EncryptedTicketStep::Forward);
    assert_eq!(
        get_encrypted_app_ticket(true, 480, true, None, 128, false),
        EncryptedTicketStep::Forward
    );
}

#[test]
fn a_request_is_met_from_one_source() {
    let ticket = synthetic_ticket(256, 128);
    let mut buffer = vec![0u8; 300];
    let mut offsets = no_offsets();
    let served =
        provide_local_ticket(false, false, Some(&ticket), None, &mut buffer, &mut offsets);
    assert_eq!(served, (DelegateId::Keep, 256));
    assert_eq!(buffer[..256], ticket[..]);
    assert_eq!(offsets.signature, 128);

    let broken = synthetic_ticket(256, 200);
    let layout = TicketLayout {
        reported_size: 150,
        app_id_offset: 16,
        steam_id_offset: 8,
        signature_offset: 22,
        signature_size: 128,
    };
    let forged = ForgedTicket { data: vec![5; 154], layout };
    let mut buffer = vec![0u8; 300];
    let mut offsets = no_offsets();
    assert_eq!(
        provide_local_ticket(true, false, Some(&broken), Some(&forged), &mut buffer, &mut offsets),
        (DelegateId::Clear, 0)
    );
    assert_eq!(buffer, vec![0u8; 300]);
    assert_eq!(
        provide_local_ticket(true, true, None, Some(&forged), &mut buffer, &mut offsets),
        (DelegateId::Keep, 150)
    );
    assert_eq!(buffer[153], 5);
    assert_eq!(offsets.signature, 22);
    assert_eq!(provide_local_ticket(true, true, None, None, &mut buffer, &mut offsets).1, 0);
}

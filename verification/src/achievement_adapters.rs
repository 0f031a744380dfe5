//! The achievement adapters: their shape in machine code, and who an event is about.
use crate::bytes::{has_seq, le_bytes, occurs, to_le_bytes};
use crate::code_shape::{
    decode_at, has_pattern, instruction_at, masked_occurs, region_tail, tail_of, Arch, CodeRegion,
    Decoded, MNEMONIC_MOV, OPERAND_MEMORY, OPERAND_REGISTER, REGISTER_RSI,
};
use crate::lists::{ascends, contains_u32, insert_ascending, remove_ascending};
use crate::text::{lossy_text, lossy_text_of, text_eq};
use vstd::prelude::*;

verus! {

pub const SET_STAT_INT_NAME: &'static str = "CUserStats::SetStat(int32)";

pub const SET_STAT_FLOAT_NAME: &'static str = "CUserStats::SetStat(float)";

pub const SET_ACHIEVEMENT_NAME: &'static str = "CUserStats::SetAchievement";

pub const CLEAR_ACHIEVEMENT_NAME: &'static str = "CUserStats::ClearAchievement";

pub const STORE_STATS_NAME: &'static str = "CUserStats::StoreStats";

pub const PROGRESS_NAME: &'static str = "CUserStats::IndicateAchievementProgress";

pub const MAX_ACHIEVEMENT_KEY_LEN: usize = 128;

pub const OLD_FORWARD_TAIL: [u8; 5] = [0xff, 0xd0, 0x83, 0xc4, 0x4c];

pub const FORWARD_FRAME: [u8; 3] = [0x83, 0xec, 0x48];

pub const FORWARD_RECEIVER: [u8; 6] = [0x8b, 0x74, 0x24, 0x5c, 0x8b, 0x06];

pub const FORWARD_GAME: [u8; 8] = [0x8b, 0x44, 0x24, 0x60, 0xf3, 0x0f, 0x7e, 0x00];

pub const FORWARD_TAIL: [u8; 5] = [0xff, 0xd7, 0x83, 0xc4, 0x20];

pub const SLOT_LOAD_MASK: [bool; 6] = [true, false, true, true, true, true];

pub const CLEAR_FRAME: [u8; 3] = [0x83, 0xec, 0x5c];

pub const CLEAR_RECEIVER: [u8; 4] = [0x8b, 0x74, 0x24, 0x70];

pub const CLEAR_SLOT: [u8; 8] = [0x8b, 0x06, 0x8b, 0x80, 0xf4, 0x00, 0x00, 0x00];

pub const CLEAR_GAME: [u8; 8] = [0x8b, 0x44, 0x24, 0x7c, 0xf3, 0x0f, 0x7e, 0x00];

pub const STORE_PROLOGUE: [u8; 6] = [0x55, 0x89, 0xe5, 0x57, 0x56, 0x53];

pub const STORE_FRAME: [u8; 3] = [0x83, 0xec, 0x44];

pub const STORE_FRAME_NEWER: [u8; 3] = [0x83, 0xec, 0x54];

pub const STORE_GAME: [u8; 3] = [0x8b, 0x45, 0x0c];

pub const STORE_GAME_READ: [u8; 5] = [0x8b, 0x30, 0x8b, 0x58, 0x04];

pub const STORE_GAME_READ_NEWER: [u8; 5] = [0x8b, 0x38, 0x8b, 0x40, 0x04];

pub const STORE_TYPE_SHIFT: [u8; 3] = [0xc1, 0xe8, 0x18];

pub const STORE_APP_MASK: [u8; 6] = [0xf7, 0xc6, 0xff, 0xff, 0xff, 0x00];

pub const STORE_APP_MASK_NEWER: [u8; 6] = [0xf7, 0xc7, 0xff, 0xff, 0xff, 0x00];

pub const PROGRESS_OLD: [u8; 19] = [
    0x83, 0xec, 0x2c, 0x8b, 0x44, 0x24, 0x40, 0x8b, 0x74, 0x24, 0x44, 0x8b, 0x4c, 0x24, 0x48, 0x8b,
    0x7c, 0x24, 0x4c,
];

pub const PROGRESS_OLD_TYPE: [u8; 4] = [0x0f, 0xb6, 0x46, 0x03];

pub const PROGRESS_FRAME: [u8; 13] = [
    0x81, 0xec, 0x0c, 0x01, 0x00, 0x00, 0x8b, 0x8c, 0x24, 0x24, 0x01, 0x00, 0x00,
];

pub const PROGRESS_TYPE: [u8; 4] = [0x0f, 0xb6, 0x41, 0x03];

pub const PROGRESS_RANGE: [u8; 7] = [0x39, 0xbc, 0x24, 0x2c, 0x01, 0x00, 0x00];

pub const TYPE_IS_ONE: [u8; 2] = [0x3c, 0x01];

pub const TYPE_IS_TWO: [u8; 2] = [0x3c, 0x02];

pub const X64_TYPE_SHIFT: [u8; 4] = [0x48, 0xc1, 0xe8, 0x18];

pub const VTABLE_LOAD_MASK: [bool; 7] = [true, true, false, true, true, true, true];

/// The start of the older forwarding adapter for an implementation slot.
pub open spec fn old_forward_head(slot: u8) -> Seq<u8> {
    seq![
        0x83u8, 0xecu8, 0x38u8, 0x8bu8, 0x6cu8, 0x24u8, 0x4cu8, 0x8bu8, 0x45u8, 0x00u8, 0x8bu8,
        0x80u8, slot, 0x00u8, 0x00u8, 0x00u8,
    ]
}

/// A load of an implementation slot.
pub open spec fn slot_load(slot: u8) -> Seq<u8> {
    seq![0x8bu8, 0x00u8, slot, 0x00u8, 0x00u8, 0x00u8]
}

/// Whether a 32-bit adapter forwards to an implementation slot.
pub open spec fn forwards_to(bytes: Seq<u8>, slot: u8) -> bool {
    (occurs(bytes, old_forward_head(slot)) && occurs(bytes, OLD_FORWARD_TAIL@)) || (occurs(
        bytes,
        FORWARD_FRAME@,
    ) && occurs(bytes, FORWARD_RECEIVER@) && masked_occurs(
        bytes,
        slot_load(slot),
        SLOT_LOAD_MASK@,
    ) && occurs(bytes, FORWARD_GAME@) && occurs(bytes, FORWARD_TAIL@))
}

pub fn validate_forwarding_adapter32(bytes: &[u8], implementation_slot: u8) -> (valid: bool)
    ensures
        valid == forwards_to(bytes@, implementation_slot),
{
    let head: Vec<u8> = vec![
        0x83,
        0xec,
        0x38,
        0x8b,
        0x6c,
        0x24,
        0x4c,
        0x8b,
        0x45,
        0x00,
        0x8b,
        0x80,
        implementation_slot,
        0x00,
        0x00,
        0x00,
    ];
    assert(head@ =~= old_forward_head(implementation_slot));
    let load: Vec<u8> = vec![0x8b, 0x00, implementation_slot, 0x00, 0x00, 0x00];
    assert(load@ =~= slot_load(implementation_slot));
    let old_shape: bool = has_seq(bytes, head.as_slice()) && has_seq(
        bytes,
        OLD_FORWARD_TAIL.as_slice(),
    );
    let current_shape: bool = has_seq(bytes, FORWARD_FRAME.as_slice()) && has_seq(
        bytes,
        FORWARD_RECEIVER.as_slice(),
    ) && has_pattern(bytes, load.as_slice(), SLOT_LOAD_MASK.as_slice()) && has_seq(
        bytes,
        FORWARD_GAME.as_slice(),
    ) && has_seq(bytes, FORWARD_TAIL.as_slice());
    old_shape || current_shape
}

/// A load from a vtable at a displacement.
pub open spec fn vtable_load(prefix: u8, displacement: u32) -> Seq<u8> {
    seq![prefix, 0x8bu8, 0x00u8] + le_bytes(displacement as nat, 4)
}

/// Whether the code loads from a vtable at a displacement.
pub open spec fn loads_vtable(bytes: Seq<u8>, displacement: u32) -> bool {
    masked_occurs(bytes, vtable_load(0x48, displacement), VTABLE_LOAD_MASK@) || masked_occurs(
        bytes,
        vtable_load(0x4c, displacement),
        VTABLE_LOAD_MASK@,
    )
}

proof fn lemma_four_bytes(value: nat)
    ensures
        le_bytes(value, 4).len() == 4,
{
    reveal_with_fuel(le_bytes, 5);
}

fn vtable_load_pattern(prefix: u8, displacement: u32) -> (pattern: Vec<u8>)
    ensures
        pattern@ == vtable_load(prefix, displacement),
        pattern@.len() == 7,
{
    let tail: Vec<u8> = to_le_bytes(displacement as u64, 4);
    proof {
        lemma_four_bytes(displacement as nat);
    }
    let pattern: Vec<u8> = vec![prefix, 0x8b, 0x00, tail[0], tail[1], tail[2], tail[3]];
    assert(pattern@ =~= vtable_load(prefix, displacement));
    pattern
}

pub fn has_vtable_load64(bytes: &[u8], displacement: u32) -> (found: bool)
    ensures
        found == loads_vtable(bytes@, displacement),
{
    let first: Vec<u8> = vtable_load_pattern(0x48, displacement);
    let second: Vec<u8> = vtable_load_pattern(0x4c, displacement);
    has_pattern(bytes, first.as_slice(), VTABLE_LOAD_MASK.as_slice()) || has_pattern(
        bytes,
        second.as_slice(),
        VTABLE_LOAD_MASK.as_slice(),
    )
}

/// Whether an instruction reads the first eight bytes behind one of the registers.
pub open spec fn reads_through(aliases: Set<u32>, decoded: Decoded) -> bool {
    decoded.op1_kind == OPERAND_MEMORY && decoded.memory_displacement <= 7 && aliases.contains(
        decoded.memory_base,
    )
}

/// The registers that hold the pointer after an instruction.
pub open spec fn aliases_after(aliases: Set<u32>, decoded: Decoded) -> Set<u32> {
    if decoded.mnemonic == MNEMONIC_MOV && decoded.op0_kind == OPERAND_REGISTER {
        if decoded.op1_kind == OPERAND_REGISTER && aliases.contains(decoded.op1_register) {
            aliases.insert(decoded.op0_register)
        } else {
            aliases.remove(decoded.op0_register)
        }
    } else {
        aliases
    }
}

/// Whether a walk from `offset` on reads through the pointer.
pub open spec fn dereferences_from(bytes: Seq<u8>, aliases: Set<u32>, offset: int) -> bool
    decreases bytes.len() - offset,
{
    let decoded = instruction_at(Arch::X64, bytes, 0, offset);
    if offset < 0 || offset >= bytes.len() || decoded.invalid || decoded.length == 0 || offset
        + decoded.length > bytes.len() {
        false
    } else {
        reads_through(aliases, decoded) || dereferences_from(
            bytes,
            aliases_after(aliases, decoded),
            offset + decoded.length,
        )
    }
}

/// Whether the code reads the game id that its second argument points to.
pub fn dereferences_cgameid64(bytes: &[u8]) -> (found: bool)
    ensures
        found == dereferences_from(bytes@, Set::<u32>::empty().insert(REGISTER_RSI), 0),
{
    let mut row: Vec<u32> = Vec::new();
    row.push(REGISTER_RSI);
    let ghost mut aliases = Set::<u32>::empty().insert(REGISTER_RSI);
    assert forall|register: u32| #[trigger]
        row@.contains(register) <==> aliases.contains(register) by {
        assert(row@[0] == REGISTER_RSI);
    }
    let mut offset: usize = 0;
    while offset < bytes.len()
        invariant
            offset <= bytes@.len(),
            ascends(row@),
            forall|register: u32| #[trigger]
                row@.contains(register) <==> aliases.contains(register),
            dereferences_from(bytes@, aliases, offset as int) == dereferences_from(
                bytes@,
                Set::<u32>::empty().insert(REGISTER_RSI),
                0,
            ),
        decreases bytes@.len() - offset,
    {
        let decoded: Decoded = decode_at(Arch::X64, bytes, 0, offset);
        if decoded.invalid {
            return false;
        }
        if decoded.op1_kind == OPERAND_MEMORY && decoded.memory_displacement <= 7 && contains_u32(
            row.as_slice(),
            decoded.memory_base,
        ) {
            return true;
        }
        if decoded.mnemonic == MNEMONIC_MOV && decoded.op0_kind == OPERAND_REGISTER {
            if decoded.op1_kind == OPERAND_REGISTER && contains_u32(
                row.as_slice(),
                decoded.op1_register,
            ) {
                insert_ascending(&mut row, decoded.op0_register);
            } else {
                remove_ascending(&mut row, decoded.op0_register);
            }
        }
        proof {
            aliases = aliases_after(aliases, decoded);
        }
        offset = offset + decoded.length;
    }
    false
}

/// Whether a 32-bit adapter of that name looks as it should.
pub open spec fn is_adapter_x86(name: Seq<char>, bytes: Seq<u8>) -> bool {
    if name == SET_STAT_INT_NAME@ {
        forwards_to(bytes, 0xe4)
    } else if name == SET_STAT_FLOAT_NAME@ {
        forwards_to(bytes, 0xe8)
    } else if name == SET_ACHIEVEMENT_NAME@ {
        forwards_to(bytes, 0xf0)
    } else if name == CLEAR_ACHIEVEMENT_NAME@ {
        forwards_to(bytes, 0xf4) || (occurs(bytes, CLEAR_FRAME@) && occurs(bytes, CLEAR_RECEIVER@)
            && occurs(bytes, CLEAR_SLOT@) && occurs(bytes, CLEAR_GAME@))
    } else if name == STORE_STATS_NAME@ {
        &&& occurs(bytes, STORE_PROLOGUE@)
        &&& occurs(bytes, STORE_FRAME@) || occurs(bytes, STORE_FRAME_NEWER@)
        &&& occurs(bytes, STORE_GAME@)
        &&& occurs(bytes, STORE_GAME_READ@) || occurs(bytes, STORE_GAME_READ_NEWER@)
        &&& occurs(bytes, STORE_TYPE_SHIFT@)
        &&& occurs(bytes, STORE_APP_MASK@) || occurs(bytes, STORE_APP_MASK_NEWER@)
    } else {
        &&& name == PROGRESS_NAME@
        &&& (occurs(bytes, PROGRESS_OLD@) && occurs(bytes, PROGRESS_OLD_TYPE@)) || (occurs(
            bytes,
            PROGRESS_FRAME@,
        ) && occurs(bytes, PROGRESS_TYPE@) && occurs(bytes, PROGRESS_RANGE@))
        &&& occurs(bytes, TYPE_IS_ONE@)
        &&& occurs(bytes, TYPE_IS_TWO@)
    }
}

/// Whether a 64-bit adapter of that name looks as it should.
pub open spec fn is_adapter_x64(name: Seq<char>, bytes: Seq<u8>) -> bool {
    &&& if name == SET_STAT_INT_NAME@ {
        loads_vtable(bytes, 0x1c8)
    } else if name == SET_STAT_FLOAT_NAME@ {
        loads_vtable(bytes, 0x1d0)
    } else if name == SET_ACHIEVEMENT_NAME@ {
        loads_vtable(bytes, 0x1e0)
    } else if name == CLEAR_ACHIEVEMENT_NAME@ {
        loads_vtable(bytes, 0x1e8)
    } else if name == STORE_STATS_NAME@ {
        occurs(bytes, X64_TYPE_SHIFT@) && occurs(bytes, TYPE_IS_ONE@) && occurs(
            bytes,
            TYPE_IS_TWO@,
        )
    } else {
        name == PROGRESS_NAME@ && occurs(bytes, PROGRESS_OLD_TYPE@) && occurs(bytes, TYPE_IS_ONE@)
            && occurs(bytes, TYPE_IS_TWO@)
    }
    &&& dereferences_from(bytes, Set::<u32>::empty().insert(REGISTER_RSI), 0)
}

pub open spec fn is_adapter(arch: Arch, name: Seq<char>, bytes: Seq<u8>) -> bool {
    match arch {
        Arch::X86 => is_adapter_x86(name, bytes),
        Arch::X64 => is_adapter_x64(name, bytes),
    }
}

fn validate_x86(name: &str, bytes: &[u8]) -> (valid: bool)
    ensures
        valid == is_adapter_x86(name@, bytes@),
{
    if text_eq(name, SET_STAT_INT_NAME) {
        validate_forwarding_adapter32(bytes, 0xe4)
    } else if text_eq(name, SET_STAT_FLOAT_NAME) {
        validate_forwarding_adapter32(bytes, 0xe8)
    } else if text_eq(name, SET_ACHIEVEMENT_NAME) {
        validate_forwarding_adapter32(bytes, 0xf0)
    } else if text_eq(name, CLEAR_ACHIEVEMENT_NAME) {
        validate_forwarding_adapter32(bytes, 0xf4) || (has_seq(bytes, CLEAR_FRAME.as_slice())
            && has_seq(bytes, CLEAR_RECEIVER.as_slice()) && has_seq(bytes, CLEAR_SLOT.as_slice())
            && has_seq(bytes, CLEAR_GAME.as_slice()))
    } else if text_eq(name, STORE_STATS_NAME) {
        has_seq(bytes, STORE_PROLOGUE.as_slice()) && (has_seq(bytes, STORE_FRAME.as_slice())
            || has_seq(bytes, STORE_FRAME_NEWER.as_slice())) && has_seq(
            bytes,
            STORE_GAME.as_slice(),
        ) && (has_seq(bytes, STORE_GAME_READ.as_slice()) || has_seq(
            bytes,
            STORE_GAME_READ_NEWER.as_slice(),
        )) && has_seq(bytes, STORE_TYPE_SHIFT.as_slice()) && (has_seq(
            bytes,
            STORE_APP_MASK.as_slice(),
        ) || has_seq(bytes, STORE_APP_MASK_NEWER.as_slice()))
    } else if text_eq(name, PROGRESS_NAME) {
        let old_shape: bool = has_seq(bytes, PROGRESS_OLD.as_slice()) && has_seq(
            bytes,
            PROGRESS_OLD_TYPE.as_slice(),
        );
        let current_shape: bool = has_seq(bytes, PROGRESS_FRAME.as_slice()) && has_seq(
            bytes,
            PROGRESS_TYPE.as_slice(),
        ) && has_seq(bytes, PROGRESS_RANGE.as_slice());
        (old_shape || current_shape) && has_seq(bytes, TYPE_IS_ONE.as_slice()) && has_seq(
            bytes,
            TYPE_IS_TWO.as_slice(),
        )
    } else {
        false
    }
}

fn validate_x64(name: &str, bytes: &[u8]) -> (valid: bool)
    ensures
        valid == is_adapter_x64(name@, bytes@),
{
    let semantics: bool = if text_eq(name, SET_STAT_INT_NAME) {
        has_vtable_load64(bytes, 0x1c8)
    } else if text_eq(name, SET_STAT_FLOAT_NAME) {
        has_vtable_load64(bytes, 0x1d0)
    } else if text_eq(name, SET_ACHIEVEMENT_NAME) {
        has_vtable_load64(bytes, 0x1e0)
    } else if text_eq(name, CLEAR_ACHIEVEMENT_NAME) {
        has_vtable_load64(bytes, 0x1e8)
    } else if text_eq(name, STORE_STATS_NAME) {
        has_seq(bytes, X64_TYPE_SHIFT.as_slice()) && has_seq(bytes, TYPE_IS_ONE.as_slice())
            && has_seq(bytes, TYPE_IS_TWO.as_slice())
    } else if text_eq(name, PROGRESS_NAME) {
        has_seq(bytes, PROGRESS_OLD_TYPE.as_slice()) && has_seq(bytes, TYPE_IS_ONE.as_slice())
            && has_seq(bytes, TYPE_IS_TWO.as_slice())
    } else {
        false
    };
    semantics && dereferences_cgameid64(bytes)
}

/// Whether a run of code is the adapter of that name.
pub fn validate_adapter_bytes(arch: Arch, name: &str, bytes: &[u8]) -> (valid: bool)
    ensures
        valid == is_adapter(arch, name@, bytes@),
{
    match arch {
        Arch::X86 => validate_x86(name, bytes),
        Arch::X64 => validate_x64(name, bytes),
    }
}

/// Whether the code at an address is the adapter of that name.
pub fn validate_adapter_target(arch: Arch, code: &CodeRegion, name: &str, target: usize) -> (valid:
    bool)
    ensures
        valid == (code.base <= target <= code.base + code.bytes@.len() && is_adapter(
            arch,
            name@,
            tail_of(code.bytes@, target - code.base, 0x240),
        )),
{
    match region_tail(code, target, 0x240) {
        Some(bytes) => validate_adapter_bytes(arch, name, bytes),
        None => false,
    }
}

/// The app of a game id: its low 24 bits, unless they are zero. There is none without
/// a game id.
pub fn explicit_app_id(game_id: Option<u64>) -> (app_id: Option<u32>)
    ensures
        app_id is Some <==> game_id is Some && game_id->0 % 0x100_0000 != 0,
        app_id is Some ==> app_id->0 == game_id->0 % 0x100_0000,
{
    match game_id {
        Some(game_id) => {
            let low: u32 = (game_id % 0x100_0000) as u32;
            if low != 0 {
                Some(low)
            } else {
                None
            }
        },
        None => None,
    }
}

/// How many bytes stand before the first zero byte, from `from` on.
pub open spec fn terminated_at(bytes: Seq<u8>, from: int) -> Option<int>
    decreases bytes.len() - from,
{
    if from < 0 || from >= bytes.len() {
        None
    } else if bytes[from] == 0 {
        Some(from)
    } else {
        terminated_at(bytes, from + 1)
    }
}

proof fn lemma_terminated(bytes: Seq<u8>, from: int)
    requires
        0 <= from <= bytes.len(),
    ensures
        terminated_at(bytes, from) matches Some(end) ==> from <= end < bytes.len(),
    decreases bytes.len() - from,
{
    if from < bytes.len() && bytes[from] != 0 {
        lemma_terminated(bytes, from + 1);
    }
}

/// The bytes of a terminated key that is not empty and not longer than `limit` with its
/// terminator.
pub open spec fn key_of(memory: Seq<u8>, limit: int) -> Option<Seq<u8>> {
    match terminated_at(memory, 0) {
        Some(end) => if 0 < end < limit {
            Some(memory.take(end))
        } else {
            None
        },
        None => None,
    }
}

/// Reads a terminated key out of the memory behind a pointer: none without a pointer, for
/// an empty key, and where no terminator stands in the first `limit` bytes.
pub fn bounded_key(memory: Option<&[u8]>, limit: usize) -> (key: Option<String>)
    ensures
        key is Some <==> memory is Some && key_of(memory->0@, limit as int) is Some,
        key is Some ==> key->0@ == lossy_text_of(key_of(memory->0@, limit as int)->0),
{
    let bytes: &[u8] = match memory {
        Some(bytes) => bytes,
        None => {
            return None;
        },
    };
    let mut key: Vec<u8> = Vec::new();
    let mut i: usize = 0;
    while i < bytes.len() && i < limit
        invariant
            memory is Some,
            memory->0@ == bytes@,
            i <= bytes@.len(),
            i <= limit,
            key@ == bytes@.take(i as int),
            terminated_at(bytes@, 0) == terminated_at(bytes@, i as int),
        decreases bytes@.len() - i,
    {
        let byte: u8 = bytes[i];
        if byte == 0 {
            if i == 0 {
                return None;
            }
            return Some(lossy_text(key.as_slice()));
        }
        key.push(byte);
        assert(bytes@.take(i + 1) =~= bytes@.take(i as int).push(byte));
        i = i + 1;
    }
    proof {
        lemma_terminated(bytes@, i as int);
    }
    None
}

/// The account and the app that an event is about; both have to be known.
pub fn owner_and_app(owner: u64, game_id: Option<u64>) -> (identity: Option<(u64, u32)>)
    ensures
        identity is Some <==> owner != 0 && game_id is Some && game_id->0 % 0x100_0000 != 0,
        identity is Some ==> identity == Some((owner, (game_id->0 % 0x100_0000) as u32)),
{
    match explicit_app_id(game_id) {
        Some(app_id) => if owner != 0 {
            Some((owner, app_id))
        } else {
            None
        },
        None => None,
    }
}

/// The account, app and key that an achievement event is about.
pub struct AchievementIdentity {
    pub owner: u64,
    pub app_id: u32,
    pub key: String,
}

/// Who and what an achievement event is about; everything has to be known.
pub fn achievement_identity(owner: u64, game_id: Option<u64>, key: Option<&[u8]>) -> (identity:
    Option<AchievementIdentity>)
    ensures
        identity is Some <==> owner != 0 && game_id is Some && game_id->0 % 0x100_0000 != 0
            && key is Some && key_of(key->0@, MAX_ACHIEVEMENT_KEY_LEN as int) is Some,
        identity is Some ==> identity->0.owner == owner && identity->0.app_id == game_id->0
            % 0x100_0000 && identity->0.key@ == lossy_text_of(
            key_of(key->0@, MAX_ACHIEVEMENT_KEY_LEN as int)->0,
        ),
{
    match owner_and_app(owner, game_id) {
        Some((owner, app_id)) => match bounded_key(key, MAX_ACHIEVEMENT_KEY_LEN) {
            Some(key) => Some(AchievementIdentity { owner, app_id, key }),
            None => None,
        },
        None => None,
    }
}

/// Whether a reported progress is followed: Steam accepted it, it is about a known
/// achievement, and it lies in its range.
pub fn follows_progress(accepted: u8, identified: bool, current: u32, maximum: u32) -> (follows:
    bool)
    ensures
        follows == (accepted != 0 && identified && current <= maximum && maximum != 0),
{
    accepted != 0 && identified && !(current > maximum || maximum == 0)
}

/// What the news of a missing schema asks for.
#[derive(Clone, Copy, Debug, PartialEq, Eq, Structural)]
pub struct SchemaAbsence {
    /// Whether the schema that was kept for the app is dropped.
    pub removes_schema: bool,
    /// Whether it is news.
    pub first: bool,
}

/// The apps that declare no stats schema.
pub struct NoSchema {
    pub apps: Vec<u32>,
}

impl NoSchema {
    pub open spec fn wf(self) -> bool {
        ascends(self.apps@)
    }

    pub open spec fn holds(self, app_id: u32) -> bool {
        self.apps@.contains(app_id)
    }

    pub fn new() -> (set: Self)
        ensures
            set.wf(),
            forall|app_id: u32| !#[trigger] set.holds(app_id),
    {
        NoSchema { apps: Vec::new() }
    }

    /// Notes that an app has no schema, so that none is kept for it.
    pub fn note_schema_unavailable(&mut self, app_id: u32) -> (absence: SchemaAbsence)
        requires
            old(self).wf(),
        ensures
            final(self).wf(),
            absence.removes_schema == (app_id != 0),
            absence.first == (app_id != 0 && !old(self).holds(app_id)),
            forall|other: u32| #[trigger]
                final(self).holds(other) <==> old(self).holds(other) || (other == app_id && app_id
                    != 0),
    {
        if app_id == 0 {
            return SchemaAbsence { removes_schema: false, first: false };
        }
        let first: bool = !contains_u32(self.apps.as_slice(), app_id);
        let ghost before = self.apps@;
        insert_ascending(&mut self.apps, app_id);
        assert forall|other: u32| #[trigger]
            self.holds(other) <==> old(self).holds(other) || (other == app_id && app_id
                != 0) by {
            assert(self.apps@.contains(other) <==> before.contains(other) || other == app_id);
        }
        SchemaAbsence { removes_schema: true, first }
    }

    /// A schema that arrived ends an absence and is passed on to the schemas that are kept,
    /// which answer whether they took it: `kept`. An empty one says nothing and is not passed
    /// on.
    pub fn register_packet_schema(&mut self, app_id: u32, content: &[u8], kept: bool) -> (registered:
        bool)
        requires
            old(self).wf(),
        ensures
            final(self).wf(),
            registered == (content@.len() > 0 && kept),
            forall|other: u32| #[trigger]
                final(self).holds(other) <==> old(self).holds(other) && !(content@.len() > 0
                    && other == app_id),
    {
        if content.len() == 0 {
            return false;
        }
        let ghost before = self.apps@;
        remove_ascending(&mut self.apps, app_id);
        assert forall|other: u32| #[trigger]
            self.holds(other) <==> old(self).holds(other) && other != app_id by {
            assert(self.apps@.contains(other) <==> before.contains(other) && other != app_id);
        }
        kept
    }
}

pub(crate) proof fn lemma_ends_at(bytes: Seq<u8>, from: int, end: int)
    requires
        0 <= from <= end < bytes.len(),
        bytes[end] == 0,
        forall|k: int| from <= k < end ==> bytes[k] != 0,
    ensures
        terminated_at(bytes, from) == Some(end),
    decreases end - from,
{
    if from < end {
        lemma_ends_at(bytes, from + 1, end);
    }
}

pub(crate) proof fn lemma_never_ends(bytes: Seq<u8>, from: int)
    requires
        0 <= from <= bytes.len(),
        forall|k: int| from <= k < bytes.len() ==> bytes[k] != 0,
    ensures
        terminated_at(bytes, from) is None,
    decreases bytes.len() - from,
{
    if from < bytes.len() {
        lemma_never_ends(bytes, from + 1);
    }
}

/// A key is what stands before the first zero byte, whatever stands behind it. An empty one,
/// one that leaves no room for its terminator and one without a terminator is none.
pub proof fn law_keys_end_at_the_first_zero(key: Seq<u8>, behind: Seq<u8>, limit: int)
    requires
        forall|k: int| 0 <= k < key.len() ==> key[k] != 0,
    ensures
        key_of(key + seq![0u8] + behind, limit) == if 1 <= key.len() <= limit - 1 {
            Some(key)
        } else {
            None
        },
        key_of(key, limit) is None,
{
    let memory = key + seq![0u8] + behind;
    assert(memory[key.len() as int] == 0);
    lemma_ends_at(memory, 0, key.len() as int);
    assert(memory.take(key.len() as int) =~= key);
    lemma_never_ends(key, 0);
}

/// A walk over code sees a read through the pointer wherever it stands: at this instruction,
/// or behind it with the registers that then hold the pointer. A move from such a register
/// adds one, any other move into a register takes it away, and nothing else changes them.
pub proof fn law_pointers_are_followed_through_moves(
    bytes: Seq<u8>,
    aliases: Set<u32>,
    offset: int,
)
    requires
        0 <= offset < bytes.len(),
    ensures
        ({
            let decoded = instruction_at(Arch::X64, bytes, 0, offset);
            let next = offset + decoded.length;
            let sound = !decoded.invalid && decoded.length > 0 && next <= bytes.len();
            let reads = decoded.op1_kind == OPERAND_MEMORY && decoded.memory_displacement < 8
                && aliases.contains(decoded.memory_base);
            let moves = decoded.mnemonic == MNEMONIC_MOV && decoded.op0_kind == OPERAND_REGISTER;
            let copies = moves && decoded.op1_kind == OPERAND_REGISTER && aliases.contains(
                decoded.op1_register,
            );
            let found = dereferences_from(bytes, aliases, offset);
            &&& !sound ==> !found
            &&& sound && reads ==> found
            &&& sound && !reads && copies ==> found == dereferences_from(
                bytes,
                aliases.insert(decoded.op0_register),
                next,
            )
            &&& sound && !reads && moves && !copies ==> found == dereferences_from(
                bytes,
                aliases.remove(decoded.op0_register),
                next,
            )
            &&& sound && !reads && !moves ==> found == dereferences_from(bytes, aliases, next)
            &&& !dereferences_from(bytes, aliases, bytes.len() as int)
        }),
{
}

/// Both shapes of a forwarding adapter are accepted, the parts of a shape all being there, and
/// no mixture of them is.
pub proof fn law_either_shape_forwards(bytes: &[u8], slot: u8, valid: bool)
    requires
        call_ensures(validate_forwarding_adapter32, (bytes, slot), valid),
    ensures
        ({
            let old_head = seq![
                0x83u8, 0xecu8, 0x38u8, 0x8bu8, 0x6cu8, 0x24u8, 0x4cu8, 0x8bu8, 0x45u8, 0x00u8,
                0x8bu8, 0x80u8, slot, 0x00u8, 0x00u8, 0x00u8,
            ];
            let older = occurs(bytes@, old_head) && occurs(bytes@, OLD_FORWARD_TAIL@);
            let newer = occurs(bytes@, FORWARD_FRAME@) && occurs(bytes@, FORWARD_RECEIVER@)
                && occurs(bytes@, FORWARD_GAME@) && occurs(bytes@, FORWARD_TAIL@)
                && masked_occurs(
                bytes@,
                seq![0x8bu8, 0x00u8, slot, 0x00u8, 0x00u8, 0x00u8],
                seq![true, false, true, true, true, true],
            );
            valid <==> older || newer
        }),
{
    assert(SLOT_LOAD_MASK@ =~= seq![true, false, true, true, true, true]);
}

proof fn lemma_names_differ()
    ensures
        SET_STAT_INT_NAME@ != SET_STAT_FLOAT_NAME@,
        SET_STAT_INT_NAME@ != SET_ACHIEVEMENT_NAME@,
        SET_STAT_INT_NAME@ != CLEAR_ACHIEVEMENT_NAME@,
        SET_STAT_INT_NAME@ != STORE_STATS_NAME@,
        SET_STAT_FLOAT_NAME@ != SET_ACHIEVEMENT_NAME@,
        SET_STAT_FLOAT_NAME@ != CLEAR_ACHIEVEMENT_NAME@,
        SET_STAT_FLOAT_NAME@ != STORE_STATS_NAME@,
        SET_ACHIEVEMENT_NAME@ != CLEAR_ACHIEVEMENT_NAME@,
        SET_ACHIEVEMENT_NAME@ != STORE_STATS_NAME@,
        CLEAR_ACHIEVEMENT_NAME@ != STORE_STATS_NAME@,
        PROGRESS_NAME@ != SET_STAT_INT_NAME@,
        PROGRESS_NAME@ != SET_STAT_FLOAT_NAME@,
        PROGRESS_NAME@ != SET_ACHIEVEMENT_NAME@,
        PROGRESS_NAME@ != CLEAR_ACHIEVEMENT_NAME@,
        PROGRESS_NAME@ != STORE_STATS_NAME@,
{
    reveal_strlit("CUserStats::SetStat(int32)");
    reveal_strlit("CUserStats::SetStat(float)");
    reveal_strlit("CUserStats::SetAchievement");
    reveal_strlit("CUserStats::ClearAchievement");
    reveal_strlit("CUserStats::StoreStats");
    reveal_strlit("CUserStats::IndicateAchievementProgress");
    assert(SET_STAT_INT_NAME@[15] == 'S' && SET_STAT_FLOAT_NAME@[15] == 'S');
    assert(SET_STAT_INT_NAME@[20] == 'i' && SET_STAT_FLOAT_NAME@[20] == 'f');
    assert(SET_ACHIEVEMENT_NAME@[15] == 'A');
    assert(CLEAR_ACHIEVEMENT_NAME@[12] == 'C' && STORE_STATS_NAME@[12] == 'S');
    assert(PROGRESS_NAME@[12] == 'I');
}

/// Each adapter is told by what it forwards to: the setters and the clearing one by their
/// slots, four bytes or eight apart, and in a 64-bit process only where the game id is read
/// as well. Code of any other name is no adapter.
pub proof fn law_adapters_go_to_their_slots(bytes: &[u8], name: &str, x86: bool, x64: bool)
    requires
        call_ensures(validate_adapter_bytes, (Arch::X86, name, bytes), x86),
        call_ensures(validate_adapter_bytes, (Arch::X64, name, bytes), x64),
    ensures
        ({
            let reads = dereferences_from(bytes@, Set::<u32>::empty().insert(REGISTER_RSI), 0);
            &&& name@ == SET_STAT_INT_NAME@ ==> x86 == forwards_to(bytes@, 0xe4) && x64 == (
            loads_vtable(bytes@, 0x1c8) && reads)
            &&& name@ == SET_STAT_FLOAT_NAME@ ==> x86 == forwards_to(bytes@, 0xe8) && x64 == (
            loads_vtable(bytes@, 0x1d0) && reads)
            &&& name@ == SET_ACHIEVEMENT_NAME@ ==> x86 == forwards_to(bytes@, 0xf0) && x64 == (
            loads_vtable(bytes@, 0x1e0) && reads)
            &&& name@ == CLEAR_ACHIEVEMENT_NAME@ ==> (forwards_to(bytes@, 0xf4) ==> x86) && x64
                == (loads_vtable(bytes@, 0x1e8) && reads)
            &&& name@ == CLEAR_ACHIEVEMENT_NAME@ && !forwards_to(bytes@, 0xf4) ==> x86 == (occurs(
                bytes@,
                CLEAR_FRAME@,
            ) && occurs(bytes@, CLEAR_RECEIVER@) && occurs(bytes@, CLEAR_SLOT@) && occurs(
                bytes@,
                CLEAR_GAME@,
            ))
            &&& x64 ==> reads
            &&& name@ != SET_STAT_INT_NAME@ && name@ != SET_STAT_FLOAT_NAME@ && name@
                != SET_ACHIEVEMENT_NAME@ && name@ != CLEAR_ACHIEVEMENT_NAME@ && name@
                != STORE_STATS_NAME@ && name@ != PROGRESS_NAME@ ==> !x86 && !x64
        }),
{
    lemma_names_differ();
}

/// The two adapters that look at the kind of game test for both kinds in a 64-bit process, and
/// each accepts either generation of every part that changed.
pub proof fn law_store_and_progress_have_their_parts(
    bytes: &[u8],
    store: bool,
    progress: bool,
    store_x64: bool,
    progress_x64: bool,
)
    requires
        call_ensures(validate_adapter_bytes, (Arch::X86, STORE_STATS_NAME, bytes), store),
        call_ensures(validate_adapter_bytes, (Arch::X86, PROGRESS_NAME, bytes), progress),
        call_ensures(validate_adapter_bytes, (Arch::X64, STORE_STATS_NAME, bytes), store_x64),
        call_ensures(validate_adapter_bytes, (Arch::X64, PROGRESS_NAME, bytes), progress_x64),
    ensures
        store <==> occurs(bytes@, STORE_PROLOGUE@) && (occurs(bytes@, STORE_FRAME@) || occurs(
            bytes@,
            STORE_FRAME_NEWER@,
        )) && occurs(bytes@, STORE_GAME@) && (occurs(bytes@, STORE_GAME_READ@) || occurs(
            bytes@,
            STORE_GAME_READ_NEWER@,
        )) && occurs(bytes@, STORE_TYPE_SHIFT@) && (occurs(bytes@, STORE_APP_MASK@) || occurs(
            bytes@,
            STORE_APP_MASK_NEWER@,
        )),
        progress <==> occurs(bytes@, TYPE_IS_ONE@) && occurs(bytes@, TYPE_IS_TWO@) && ((occurs(
            bytes@,
            PROGRESS_OLD@,
        ) && occurs(bytes@, PROGRESS_OLD_TYPE@)) || (occurs(bytes@, PROGRESS_FRAME@) && occurs(
            bytes@,
            PROGRESS_TYPE@,
        ) && occurs(bytes@, PROGRESS_RANGE@))),
        ({
            let reads = dereferences_from(bytes@, Set::<u32>::empty().insert(REGISTER_RSI), 0);
            let kinds = occurs(bytes@, TYPE_IS_ONE@) && occurs(bytes@, TYPE_IS_TWO@);
            &&& store_x64 <==> reads && kinds && occurs(bytes@, X64_TYPE_SHIFT@)
            &&& progress_x64 <==> reads && kinds && occurs(bytes@, PROGRESS_OLD_TYPE@)
        }),
{
    lemma_names_differ();
}

} // verus!

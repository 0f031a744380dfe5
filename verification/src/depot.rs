//! Depots: pinned manifests, and the depot that a key name speaks of.
use crate::bytes::{find_seq_from, occurs_at};
use crate::env::{bounded_cstr, bounded_text};
use crate::text::decimal_of;
use vstd::prelude::*;
use vstd::slice::slice_subrange;

verus! {

/// One depot of a build.
#[derive(Clone, Copy, Debug, PartialEq, Eq, Structural)]
pub struct DepotEntry {
    pub depot_id: u32,
    pub manifest_gid: u64,
    pub manifest_size: u64,
}

/// A manifest that a depot is pinned to.
#[derive(Clone, Copy, Debug, PartialEq, Eq, Structural)]
pub struct ManifestPatch {
    pub depot_id: u32,
    pub new_gid: u64,
    pub new_size: Option<u64>,
}

/// A depot after one pin. A size of zero is not taken over.
pub open spec fn patched(entry: DepotEntry, patch: ManifestPatch) -> DepotEntry {
    if entry.depot_id != patch.depot_id {
        entry
    } else {
        DepotEntry {
            manifest_gid: patch.new_gid,
            manifest_size: match patch.new_size {
                Some(size) => if size > 0 {
                    size
                } else {
                    entry.manifest_size
                },
                None => entry.manifest_size,
            },
            ..entry
        }
    }
}

/// A depot after all pins, in their order.
pub open spec fn pinned(entry: DepotEntry, patches: Seq<ManifestPatch>) -> DepotEntry
    decreases patches.len(),
{
    if patches.len() == 0 {
        entry
    } else {
        patched(pinned(entry, patches.drop_last()), patches.last())
    }
}

/// Whether the depots that Steam listed are looked at.
pub open spec fn entries_are_usable(ready: bool, size: nat, capacity: nat, scripted: bool) -> bool {
    ready && scripted && 0 < size <= capacity
}

fn apply_patch(entry: DepotEntry, patch: &ManifestPatch) -> (after: DepotEntry)
    ensures
        after == patched(entry, *patch),
{
    if entry.depot_id != patch.depot_id {
        return entry;
    }
    let manifest_size: u64 = match patch.new_size {
        Some(size) => if size > 0 {
            size
        } else {
            entry.manifest_size
        },
        None => entry.manifest_size,
    };
    DepotEntry { depot_id: entry.depot_id, manifest_gid: patch.new_gid, manifest_size }
}

/// Pins the manifests of a build's depots. Nothing changes before the hooks are ready,
/// without scripted manifests, or where the list contradicts its capacity.
pub fn build_depot_dependency(
    entries: &mut Vec<DepotEntry>,
    capacity: usize,
    patches: &[ManifestPatch],
    ready: bool,
    scripted: bool,
)
    ensures
        final(entries)@.len() == old(entries)@.len(),
        forall|i: int|
            0 <= i < old(entries)@.len() ==> #[trigger] final(entries)@[i]
                == if entries_are_usable(
                ready,
                old(entries)@.len(),
                capacity as nat,
                scripted,
            ) {
                pinned(old(entries)@[i], patches@)
            } else {
                old(entries)@[i]
            },
{
    let size: usize = entries.len();
    if !ready || !scripted || size == 0 || size > capacity {
        return;
    }
    let ghost before = entries@;
    let mut p: usize = 0;
    assert(patches@.take(0) =~= Seq::empty());
    while p < patches.len()
        invariant
            p <= patches@.len(),
            size == entries@.len() == before.len(),
            forall|k: int|
                0 <= k < size ==> #[trigger] entries@[k] == pinned(
                    before[k],
                    patches@.take(p as int),
                ),
        decreases patches@.len() - p,
    {
        assert(patches@.take(p + 1).drop_last() =~= patches@.take(p as int));
        let mut i: usize = 0;
        while i < size
            invariant
                i <= size,
                p < patches@.len(),
                size == entries@.len() == before.len(),
                patches@.take(p + 1).drop_last() == patches@.take(p as int),
                forall|k: int|
                    0 <= k < i ==> #[trigger] entries@[k] == pinned(
                        before[k],
                        patches@.take(p + 1),
                    ),
                forall|k: int|
                    i <= k < size ==> #[trigger] entries@[k] == pinned(
                        before[k],
                        patches@.take(p as int),
                    ),
            decreases size - i,
        {
            let after: DepotEntry = apply_patch(entries[i], &patches[p]);
            assert(after == pinned(before[i as int], patches@.take(p + 1)));
            entries.set(i, after);
            i = i + 1;
        }
        p = p + 1;
    }
    assert(patches@.take(p as int) =~= patches@);
}

/// Pins change manifests only: no depot is added, dropped or renamed.
pub proof fn law_pins_keep_the_depots(entry: DepotEntry, patches: Seq<ManifestPatch>)
    ensures
        pinned(entry, patches).depot_id == entry.depot_id,
        (forall|k: int|
            0 <= k < patches.len() ==> (#[trigger] patches[k]).depot_id != entry.depot_id)
            ==> pinned(entry, patches) == entry,
    decreases patches.len(),
{
    if patches.len() > 0 {
        law_pins_keep_the_depots(entry, patches.drop_last());
        if forall|k: int|
            0 <= k < patches.len() ==> (#[trigger] patches[k]).depot_id != entry.depot_id {
            assert forall|k: int| 0 <= k < patches.drop_last().len() implies (
            #[trigger] patches.drop_last()[k]).depot_id != entry.depot_id by {
                assert(patches[k].depot_id != entry.depot_id);
            }
            assert(patches[patches.len() - 1].depot_id != entry.depot_id);
        }
    }
}

/// How much of a key name is looked at.
pub const MAX_SCAN: usize = 512;

/// `\\DecryptionKey`.
pub const KEY_TAG: [u8; 14] = [
    0x5c, 0x44, 0x65, 0x63, 0x72, 0x79, 0x70, 0x74, 0x69, 0x6f, 0x6e, 0x4b, 0x65, 0x79,
];

/// The part of a key name that is looked at.
pub open spec fn scanned(memory: Seq<u8>) -> Seq<u8> {
    bounded_text(memory, MAX_SCAN as int)
}

/// The number that decimal digits stand for.
pub open spec fn digits_value(digits: Seq<u8>) -> Option<int>
    decreases digits.len(),
{
    if digits.len() == 0 {
        Some(0)
    } else {
        match digits_value(digits.drop_last()) {
            Some(high) => if 0x30 <= digits.last() <= 0x39 {
                Some(high * 10 + (digits.last() - 0x30))
            } else {
                None
            },
            None => None,
        }
    }
}

/// The number that a text of digits stands for, behind an optional plus sign.
pub open spec fn depot_number(text: Seq<u8>) -> Option<int> {
    let digits = if text.len() > 0 && text[0] == 0x2b {
        text.skip(1)
    } else {
        text
    };
    match digits_value(digits) {
        Some(value) => if digits.len() > 0 && value <= u32::MAX {
            Some(value)
        } else {
            None
        },
        None => None,
    }
}

/// Whether the depot number stands between `start` and `tag`: the first tag ends it, and
/// the last separator before that begins it.
pub open spec fn number_stands(name: Seq<u8>, start: int, tag: int) -> bool {
    &&& occurs_at(name, KEY_TAG@, tag)
    &&& forall|at: int| 0 <= at < tag ==> !occurs_at(name, KEY_TAG@, at)
    &&& 0 < start <= tag
    &&& name[start - 1] == 0x5c
    &&& forall|k: int| start <= k < tag ==> name[k] != 0x5c
}

proof fn lemma_digits_grow(digits: Seq<u8>, shorter: int)
    requires
        0 <= shorter <= digits.len(),
        digits_value(digits) is Some,
    ensures
        digits_value(digits.take(shorter)) is Some,
        0 <= digits_value(digits.take(shorter))->0 <= digits_value(digits)->0,
    decreases digits.len(),
{
    if shorter == digits.len() {
        assert(digits.take(shorter) =~= digits);
        if digits.len() > 0 {
            lemma_digits_grow(digits.drop_last(), 0);
            assert(digits.drop_last().take(0) =~= Seq::empty());
        }
    } else {
        lemma_digits_grow(digits.drop_last(), shorter);
        assert(digits.drop_last().take(shorter) =~= digits.take(shorter));
    }
}

fn parse_depot_number(text: &[u8]) -> (number: Option<u32>)
    ensures
        number is Some <==> depot_number(text@) is Some,
        number is Some ==> number->0 == depot_number(text@)->0,
{
    let start: usize = if text.len() > 0 && text[0] == 0x2b {
        1
    } else {
        0
    };
    let digits: &[u8] = slice_subrange(text, start, text.len());
    assert(digits@ =~= if text@.len() > 0 && text@[0] == 0x2b {
        text@.skip(1)
    } else {
        text@
    });
    if digits.len() == 0 {
        return None;
    }
    let mut value: u32 = 0;
    let mut i: usize = 0;
    assert(digits@.take(0) =~= Seq::empty());
    while i < digits.len()
        invariant
            i <= digits@.len(),
            digits@ == if text@.len() > 0 && text@[0] == 0x2b {
                text@.skip(1)
            } else {
                text@
            },
            digits_value(digits@.take(i as int)) == Some(value as int),
        decreases digits@.len() - i,
    {
        assert(digits@.take(i + 1).drop_last() =~= digits@.take(i as int));
        proof {
            if digits_value(digits@) is Some {
                lemma_digits_grow(digits@, i + 1);
            }
        }
        let byte: u8 = digits[i];
        if byte < 0x30 || byte > 0x39 {
            return None;
        }
        let digit: u32 = (byte - 0x30) as u32;
        if value > (u32::MAX - digit) / 10 {
            return None;
        }
        value = value * 10 + digit;
        i = i + 1;
    }
    assert(digits@.take(i as int) =~= digits@);
    Some(value)
}

/// Whether a key name speaks of this depot, or of none: the number right before the tag.
pub open spec fn names_depot(memory: Seq<u8>, depot_id: Option<u32>) -> bool {
    match depot_id {
        Some(id) => exists|start: int, tag: int| #[trigger]
            number_stands(scanned(memory), start, tag) && depot_number(
                scanned(memory).subrange(start, tag),
            ) == Some(id as int),
        None => forall|start: int, tag: int| #[trigger]
            number_stands(scanned(memory), start, tag) ==> depot_number(
                scanned(memory).subrange(start, tag),
            ) is None,
    }
}

/// The depot that a key name speaks of.
pub fn extract_depot_id_from_raw(memory: &[u8]) -> (depot_id: Option<u32>)
    ensures
        names_depot(memory@, depot_id),
{
    let name: Vec<u8> = bounded_cstr(memory, MAX_SCAN);
    let tag: usize = match find_seq_from(name.as_slice(), KEY_TAG.as_slice(), 0) {
        Some(tag) => tag,
        None => {
            return None;
        },
    };
    let mut start: usize = tag;
    while start > 0 && name[start - 1] != 0x5c
        invariant
            start <= tag <= name@.len(),
            forall|k: int| start <= k < tag ==> name@[k] != 0x5c,
        decreases start,
    {
        start = start - 1;
    }
    proof {
        assert forall|s: int, t: int| #[trigger] number_stands(name@, s, t) implies t == tag && s
            == start by {
            if t < tag {
                assert(!occurs_at(name@, KEY_TAG@, t));
            }
            if t > tag {
                assert(!occurs_at(name@, KEY_TAG@, tag as int));
            }
            if s < start {
                assert(start > 0);
                assert(name@[start - 1] == 0x5c);
            }
            if s > start {
                assert(name@[s - 1] == 0x5c);
            }
        }
    }
    if start == 0 {
        return None;
    }
    assert(number_stands(name@, start as int, tag as int));
    parse_depot_number(slice_subrange(name.as_slice(), start, tag))
}

/// The bytes of a depot key.
pub const DEPOT_KEY_SIZE: usize = 32;

/// The depot whose key is looked up among those of scripts: none before the capability is
/// ready, for a buffer without room for a key, or where the name speaks of no depot.
pub fn requested_depot_key(
    ready: bool,
    key_name: Option<&[u8]>,
    buffer_known: bool,
    key_size: u32,
) -> (depot_id: Option<u32>)
    ensures
        if ready && key_name is Some && buffer_known && key_size >= DEPOT_KEY_SIZE {
            names_depot(key_name->0@, depot_id)
        } else {
            depot_id is None
        },
{
    if !ready || !buffer_known || key_size < DEPOT_KEY_SIZE as u32 {
        return None;
    }
    match key_name {
        Some(name) => extract_depot_id_from_raw(name),
        None => None,
    }
}

/// Serves a depot key that a script gives: it takes the front of the buffer, and its size is
/// reported. Without one nothing is written, and Steam answers.
pub fn serve_depot_key(key: Option<[u8; 32]>, buffer: &mut Vec<u8>) -> (reported: Option<i32>)
    requires
        old(buffer)@.len() >= DEPOT_KEY_SIZE,
    ensures
        reported == match key {
            Some(_) => Some(32i32),
            None => None,
        },
        final(buffer)@ == match key {
            Some(key) => key@ + old(buffer)@.skip(DEPOT_KEY_SIZE as int),
            None => old(buffer)@,
        },
{
    match key {
        None => None,
        Some(key) => {
            let ghost before = buffer@;
            let mut i: usize = 0;
            while i < DEPOT_KEY_SIZE
                invariant
                    i <= DEPOT_KEY_SIZE,
                    DEPOT_KEY_SIZE <= buffer@.len() == before.len(),
                    buffer@ == key@.take(i as int) + before.skip(i as int),
                decreases DEPOT_KEY_SIZE - i,
            {
                buffer.set(i, key[i]);
                assert(buffer@ =~= key@.take(i + 1) + before.skip(i + 1));
                i = i + 1;
            }
            assert(key@.take(i as int) =~= key@);
            Some(32)
        },
    }
}

/// A depot gets the manifest of its last pin, and the size of its last pin that gives one;
/// without a pin it keeps both.
pub proof fn law_the_last_pin_decides(entry: DepotEntry, patches: Seq<ManifestPatch>, k: int)
    requires
        0 <= k < patches.len(),
        patches[k].depot_id == entry.depot_id,
    ensures
        (forall|j: int|
            k < j < patches.len() ==> (#[trigger] patches[j]).depot_id != entry.depot_id)
            ==> pinned(entry, patches).manifest_gid == patches[k].new_gid,
        (patches[k].new_size matches Some(size) && size > 0 && forall|j: int|
            k < j < patches.len() && (#[trigger] patches[j]).depot_id == entry.depot_id
                ==> patches[j].new_size is None || patches[j].new_size == Some(0u64))
            ==> pinned(entry, patches).manifest_size == patches[k].new_size->0,
        (forall|j: int|
            0 <= j < patches.len() && (#[trigger] patches[j]).depot_id == entry.depot_id
                ==> patches[j].new_size is None || patches[j].new_size == Some(0u64)) ==> pinned(
            entry,
            patches,
        ).manifest_size == entry.manifest_size,
    decreases patches.len(),
{
    let rest = patches.drop_last();
    law_pins_keep_the_depots(entry, rest);
    assert forall|j: int| 0 <= j < rest.len() implies #[trigger] rest[j] == patches[j] by {}
    assert(patches[patches.len() - 1] == patches.last());
    if k < rest.len() {
        law_the_last_pin_decides(entry, rest, k);
    } else {
        lemma_no_size_keeps_the_size(entry, rest);
    }
}

proof fn lemma_no_size_keeps_the_size(entry: DepotEntry, patches: Seq<ManifestPatch>)
    ensures
        (forall|j: int|
            0 <= j < patches.len() && (#[trigger] patches[j]).depot_id == entry.depot_id
                ==> patches[j].new_size is None || patches[j].new_size == Some(0u64)) ==> pinned(
            entry,
            patches,
        ).manifest_size == entry.manifest_size,
    decreases patches.len(),
{
    if patches.len() > 0 {
        let rest = patches.drop_last();
        law_pins_keep_the_depots(entry, rest);
        assert forall|j: int| 0 <= j < rest.len() implies #[trigger] rest[j] == patches[j] by {}
        assert(patches[patches.len() - 1] == patches.last());
        lemma_no_size_keeps_the_size(entry, rest);
    }
}

/// The bytes of a decimal number.
pub open spec fn number_bytes(value: nat) -> Seq<u8> {
    decimal_of(value).map_values(|ch: char| ch as u8)
}

proof fn lemma_digits_are_read(value: nat)
    ensures
        digits_value(number_bytes(value)) == Some(value as int),
        number_bytes(value).len() > 0,
        number_bytes(value)[0] != 0x2b,
    decreases value,
{
    let bytes = number_bytes(value);
    if value >= 10 {
        lemma_digits_are_read(value / 10);
        assert(bytes.drop_last() =~= number_bytes(value / 10));
        assert(bytes[0] == number_bytes(value / 10)[0]);
    } else {
        assert(bytes.drop_last() =~= Seq::empty());
        assert(digits_value(bytes.drop_last()) == Some(0int));
    }
}

/// A depot's number is read back from its decimal digits, with or without a plus sign; what
/// is too large for one is none.
pub proof fn law_depot_numbers_are_read_back(value: nat)
    ensures
        value <= 0xffff_ffff ==> depot_number(number_bytes(value)) == Some(value as int),
        value <= 0xffff_ffff ==> depot_number(seq![0x2bu8] + number_bytes(value)) == Some(
            value as int,
        ),
        value > 0xffff_ffff ==> depot_number(number_bytes(value)) is None,
        depot_number(Seq::empty()) is None,
        depot_number(seq![0x2bu8]) is None,
{
    lemma_digits_are_read(value);
    assert((seq![0x2bu8] + number_bytes(value)).skip(1) =~= number_bytes(value));
    assert(seq![0x2bu8].skip(1) =~= Seq::empty());
}

/// A key name speaks of one depot at most.
pub proof fn law_names_speak_of_one_depot(
    memory: Seq<u8>,
    left: Option<u32>,
    right: Option<u32>,
)
    requires
        names_depot(memory, left),
        names_depot(memory, right),
    ensures
        left == right,
{
    let name = scanned(memory);
    if let Some(id) = left {
        let (s1, t1) = choose|start: int, tag: int| #[trigger]
            number_stands(name, start, tag) && depot_number(name.subrange(start, tag)) == Some(
                id as int,
            );
        if let Some(other) = right {
            let (s2, t2) = choose|start: int, tag: int| #[trigger]
                number_stands(name, start, tag) && depot_number(name.subrange(start, tag))
                    == Some(other as int);
            lemma_places_agree(name, s1, t1, s2, t2);
        }
    }
}

proof fn lemma_places_agree(name: Seq<u8>, s1: int, t1: int, s2: int, t2: int)
    requires
        number_stands(name, s1, t1),
        number_stands(name, s2, t2),
    ensures
        s1 == s2,
        t1 == t2,
{
    if t1 < t2 {
        assert(occurs_at(name, KEY_TAG@, t1));
    } else if t2 < t1 {
        assert(occurs_at(name, KEY_TAG@, t2));
    }
    if s1 < s2 {
        assert(name[s2 - 1] == 0x5c);
    } else if s2 < s1 {
        assert(name[s1 - 1] == 0x5c);
    }
}

} // verus!

//! Rows of app ids.
use vstd::prelude::*;

verus! {

/// Whether a value stands in a row.
pub fn contains_u32(row: &[u32], value: u32) -> (found: bool)
    ensures
        found == row@.contains(value),
{
    let mut i: usize = 0;
    while i < row.len()
        invariant
            i <= row@.len(),
            forall|k: int| 0 <= k < i ==> row@[k] != value,
        decreases row@.len() - i,
    {
        if row[i] == value {
            assert(row@[i as int] == value);
            return true;
        }
        i = i + 1;
    }
    false
}

/// The first place of a value in a row, from `from` on.
pub open spec fn place_from(row: Seq<u32>, value: u32, from: int) -> Option<int>
    decreases row.len() - from,
{
    if from >= row.len() {
        None
    } else if row[from] == value {
        Some(from)
    } else {
        place_from(row, value, from + 1)
    }
}

/// A row without the first occurrence of a value, whose place the last element takes.
pub open spec fn fast_removed(row: Seq<u32>, value: u32) -> Seq<u32> {
    match place_from(row, value, 0) {
        Some(place) => row.update(place, row.last()).drop_last(),
        None => row,
    }
}

proof fn lemma_place_from(row: Seq<u32>, value: u32, from: int)
    requires
        0 <= from <= row.len(),
    ensures
        match place_from(row, value, from) {
            Some(place) => from <= place < row.len() && row[place] == value,
            None => forall|k: int| from <= k < row.len() ==> row[k] != value,
        },
    decreases row.len() - from,
{
    if from < row.len() && row[from] != value {
        lemma_place_from(row, value, from + 1);
    }
}

/// Whether a value can be removed is whether it stands in the row.
pub proof fn law_removal_finds_what_is_there(row: Seq<u32>, value: u32)
    ensures
        place_from(row, value, 0) is Some <==> row.contains(value),
        fast_removed(row, value).len() == row.len() - (if row.contains(value) {
            1int
        } else {
            0
        }),
{
    lemma_place_from(row, value, 0);
}

/// A removal takes out one occurrence, the first, and moves nothing but the last element into
/// its place; a row without the value stays as it is.
pub proof fn law_removal_takes_the_first(row: Seq<u32>, value: u32)
    ensures
        !row.contains(value) ==> fast_removed(row, value) == row,
        row.contains(value) ==> exists|place: int|
            {
                &&& 0 <= place < row.len()
                &&& #[trigger] row[place] == value
                &&& forall|k: int| 0 <= k < place ==> row[k] != value
                &&& forall|k: int|
                    0 <= k < row.len() - 1 ==> #[trigger] fast_removed(row, value)[k] == if k
                        == place {
                        row[row.len() - 1]
                    } else {
                        row[k]
                    }
            },
{
    lemma_place_from(row, value, 0);
    lemma_place_is_first(row, value, 0);
    if let Some(place) = place_from(row, value, 0) {
        assert(row[place] == value);
    }
}

proof fn lemma_place_is_first(row: Seq<u32>, value: u32, from: int)
    requires
        0 <= from <= row.len(),
    ensures
        place_from(row, value, from) matches Some(place) ==> forall|k: int|
            from <= k < place ==> row[k] != value,
    decreases row.len() - from,
{
    if from < row.len() && row[from] != value {
        lemma_place_is_first(row, value, from + 1);
    }
}

/// In a row without repetitions a removal takes out the value and nothing else, and the row
/// stays without repetitions.
pub proof fn law_removal_takes_nothing_else(row: Seq<u32>, value: u32)
    requires
        row.no_duplicates(),
    ensures
        fast_removed(row, value).no_duplicates(),
        forall|other: u32| #[trigger]
            fast_removed(row, value).contains(other) <==> row.contains(other) && other != value,
{
    law_removal_takes_the_first(row, value);
    law_removal_finds_what_is_there(row, value);
    let after = fast_removed(row, value);
    if row.contains(value) {
        let place = choose|place: int|
            {
                &&& 0 <= place < row.len()
                &&& #[trigger] row[place] == value
                &&& forall|k: int| 0 <= k < place ==> row[k] != value
                &&& forall|k: int|
                    0 <= k < row.len() - 1 ==> #[trigger] after[k] == if k == place {
                        row[row.len() - 1]
                    } else {
                        row[k]
                    }
            };
        assert forall|other: u32| #[trigger]
            after.contains(other) <==> row.contains(other) && other != value by {
            if after.contains(other) {
                let k = choose|k: int| 0 <= k < after.len() && after[k] == other;
                if k == place {
                    assert(row[row.len() - 1] == other);
                } else {
                    assert(row[k] == other);
                }
            }
            if row.contains(other) && other != value {
                let k = choose|k: int| 0 <= k < row.len() && row[k] == other;
                if k == row.len() - 1 {
                    assert(after[place] == other);
                } else {
                    assert(after[k] == other);
                }
            }
        }
    }
}

/// Removes the first occurrence of a value; the last element takes its place.
pub fn find_and_fast_remove(row: &mut Vec<u32>, value: u32) -> (removed: bool)
    ensures
        removed == old(row)@.contains(value),
        final(row)@ == fast_removed(old(row)@, value),
{
    let mut i: usize = 0;
    while i < row.len()
        invariant
            i <= row@.len(),
            row@ == old(row)@,
            place_from(row@, value, 0) == place_from(row@, value, i as int),
        decreases row@.len() - i,
    {
        if row[i] == value {
            assert(row@[i as int] == value);
            let _ = row.swap_remove(i);
            assert(row@ =~= fast_removed(old(row)@, value));
            return true;
        }
        i = i + 1;
    }
    proof {
        lemma_place_from(row@, value, 0);
    }
    false
}

/// Whether a row ascends strictly.
pub open spec fn ascends(row: Seq<u32>) -> bool {
    forall|i: int, j: int| 0 <= i < j < row.len() ==> row[i] < row[j]
}

/// Puts a value into an ascending row, unless it is there already.
pub fn insert_ascending(row: &mut Vec<u32>, value: u32)
    requires
        ascends(old(row)@),
    ensures
        ascends(final(row)@),
        forall|other: u32| #[trigger]
            final(row)@.contains(other) <==> old(row)@.contains(other) || other == value,
{
    let ghost before = row@;
    let mut at: usize = 0;
    while at < row.len() && row[at] < value
        invariant
            row@ == before,
            at <= row@.len(),
            forall|k: int| 0 <= k < at ==> row@[k] < value,
        decreases row@.len() - at,
    {
        at = at + 1;
    }
    if at < row.len() && row[at] == value {
        assert(before[at as int] == value);
        return;
    }
    row.insert(at, value);
    proof {
        let after = before.insert(at as int, value);
        assert(row@ == after);
        assert forall|other: u32| #[trigger]
            after.contains(other) <==> before.contains(other) || other == value by {
            if after.contains(other) {
                let k = choose|k: int| 0 <= k < after.len() && after[k] == other;
                if k < at {
                    assert(before[k] == other);
                } else if k > at {
                    assert(before[k - 1] == other);
                }
            }
            if before.contains(other) {
                let k = choose|k: int| 0 <= k < before.len() && before[k] == other;
                if k < at {
                    assert(after[k] == other);
                } else {
                    assert(after[k + 1] == other);
                }
            }
            assert(after[at as int] == value);
        }
        assert forall|i: int, j: int| 0 <= i < j < after.len() implies after[i] < after[j] by {
            let i0 = if i < at {
                i
            } else {
                i - 1
            };
            let j0 = if j < at {
                j
            } else {
                j - 1
            };
            if i == at {
                assert(after[j] == before[j0]);
                assert(before[at as int] > value);
            } else if j == at {
                assert(after[i] == before[i0]);
            } else {
                assert(after[i] == before[i0] && after[j] == before[j0]);
            }
        }
    }
}

/// Takes a value out of an ascending row, if it is there.
pub fn remove_ascending(row: &mut Vec<u32>, value: u32)
    requires
        ascends(old(row)@),
    ensures
        ascends(final(row)@),
        forall|other: u32| #[trigger]
            final(row)@.contains(other) <==> old(row)@.contains(other) && other != value,
{
    let ghost before = row@;
    let mut at: usize = 0;
    while at < row.len() && row[at] != value
        invariant
            row@ == before,
            at <= row@.len(),
            forall|k: int| 0 <= k < at ==> row@[k] != value,
        decreases row@.len() - at,
    {
        at = at + 1;
    }
    if at == row.len() {
        return;
    }
    let _ = row.remove(at);
    proof {
        let after = before.remove(at as int);
        assert forall|other: u32| #[trigger]
            after.contains(other) <==> before.contains(other) && other != value by {
            if after.contains(other) {
                let k = choose|k: int| 0 <= k < after.len() && after[k] == other;
                let k0 = if k < at {
                    k
                } else {
                    k + 1
                };
                assert(before[k0] == other);
                assert(before[at as int] == value);
            }
            if before.contains(other) && other != value {
                let k = choose|k: int| 0 <= k < before.len() && before[k] == other;
                if k < at {
                    assert(after[k] == other);
                } else {
                    assert(after[k - 1] == other);
                }
            }
        }
    }
}

} // verus!

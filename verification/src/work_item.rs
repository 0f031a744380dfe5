//! The byte image of a work item: what Steam's own constructor would write, with a
//! trailer that binds the item to the generation that posted it.
use crate::bytes::{byte_bound, law_le_bytes_round_trip, le_bytes, le_number, le_value, to_le_bytes};
use crate::network::WorkItemSite;
use vstd::prelude::*;
use vstd::slice::slice_subrange;

verus! {

/// The trailer behind the part that Steam sees.
pub const TRAILER_SIZE: usize = 8;

/// `image` with `bytes` written over it at `at`.
pub open spec fn written(image: Seq<u8>, at: int, bytes: Seq<u8>) -> Seq<u8> {
    Seq::new(
        image.len(),
        |i: int|
            if at <= i < at + bytes.len() {
                bytes[i - at]
            } else {
                image[i]
            },
    )
}

/// How many bytes a sentinel of this declared width takes.
pub open spec fn sentinel_width(width: u8) -> int {
    if width == 8 || width == 4 || width == 2 {
        width as int
    } else {
        1
    }
}

/// Whether every field lies inside the part that Steam sees.
pub open spec fn fields_fit(site: WorkItemSite, word: int) -> bool {
    &&& (word == 4 || word == 8)
    &&& word <= site.item_size
    &&& site.item_size + TRAILER_SIZE <= usize::MAX
    &&& site.refcount_offset + 4 <= site.item_size
    &&& forall|i: int|
        0 <= i < site.timer_vptr_offsets@.len() ==> (#[trigger] site.timer_vptr_offsets@[i]) + word
            <= site.item_size
    &&& forall|i: int|
        0 <= i < site.sentinel_offsets@.len() ==> (#[trigger] site.sentinel_offsets@[i]).0
            + sentinel_width(site.sentinel_offsets@[i].1) <= site.item_size
}

/// The image with the first `count` timer tables written.
pub open spec fn with_timers(
    image: Seq<u8>,
    offsets: Seq<usize>,
    table: usize,
    word: int,
    count: int,
) -> Seq<u8>
    decreases count,
{
    if count <= 0 {
        image
    } else {
        written(
            with_timers(image, offsets, table, word, count - 1),
            offsets[count - 1] as int,
            le_bytes(table as nat, word as nat),
        )
    }
}

/// The image with the first `count` sentinels written.
pub open spec fn with_sentinels(image: Seq<u8>, sentinels: Seq<(usize, u8)>, count: int) -> Seq<u8>
    decreases count,
{
    if count <= 0 {
        image
    } else {
        written(
            with_sentinels(image, sentinels, count - 1),
            sentinels[count - 1].0 as int,
            Seq::new(sentinel_width(sentinels[count - 1].1) as nat, |i: int| 0xffu8),
        )
    }
}

/// The part that Steam sees, and zeros where the trailer goes.
pub open spec fn constructed(site: WorkItemSite, vtable: usize, word: int) -> Seq<u8> {
    let zeros = Seq::new((site.item_size + TRAILER_SIZE) as nat, |i: int| 0u8);
    let tabled = written(zeros, 0, le_bytes(vtable as nat, word as nat));
    let counted = written(tabled, site.refcount_offset as int, le_bytes(1, 4));
    let timed = with_timers(
        counted,
        site.timer_vptr_offsets@,
        site.timer_vtable,
        word,
        site.timer_vptr_offsets@.len() as int,
    );
    with_sentinels(timed, site.sentinel_offsets@, site.sentinel_offsets@.len() as int)
}

/// The whole item: zeros, the virtual table, a reference count of one, the timer
/// tables, the sentinels, and the generation behind them.
pub open spec fn item_image(site: WorkItemSite, vtable: usize, generation: u64, word: int) -> Seq<
    u8,
> {
    written(
        constructed(site, vtable, word),
        site.item_size as int,
        le_bytes(generation as nat, 8),
    )
}

fn write_at(image: &mut Vec<u8>, at: usize, bytes: &Vec<u8>)
    requires
        at + bytes@.len() <= old(image)@.len(),
    ensures
        final(image)@ == written(old(image)@, at as int, bytes@),
        final(image)@.len() == old(image)@.len(),
{
    let total: usize = image.len();
    let mut i: usize = 0;
    while i < bytes.len()
        invariant
            i <= bytes@.len(),
            total == image@.len(),
            at + bytes@.len() <= image@.len(),
            image@.len() == old(image)@.len(),
            forall|k: int|
                0 <= k < image@.len() ==> image@[k] == if at <= k < at + i {
                    bytes@[k - at]
                } else {
                    old(image)@[k]
                },
        decreases bytes@.len() - i,
    {
        image.set(at + i, bytes[i]);
        i = i + 1;
    }
    assert(image@ =~= written(old(image)@, at as int, bytes@));
}

fn filled(count: usize, byte: u8) -> (bytes: Vec<u8>)
    ensures
        bytes@ == Seq::new(count as nat, |i: int| byte),
{
    let mut bytes: Vec<u8> = Vec::new();
    let mut i: usize = 0;
    while i < count
        invariant
            i <= count,
            bytes@.len() == i,
            forall|k: int| 0 <= k < i ==> bytes@[k] == byte,
        decreases count - i,
    {
        bytes.push(byte);
        i = i + 1;
    }
    assert(bytes@ =~= Seq::new(count as nat, |i: int| byte));
    bytes
}

proof fn lemma_le_bytes_len(value: nat, width: nat)
    ensures
        le_bytes(value, width).len() == width,
    decreases width,
{
    if width > 0 {
        lemma_le_bytes_len(value / 256, (width - 1) as nat);
    }
}

/// The room that an item takes with its trailer.
pub fn layout(item_size: usize) -> (size: Option<usize>)
    ensures
        size == if item_size + TRAILER_SIZE <= usize::MAX {
            Some((item_size + TRAILER_SIZE) as usize)
        } else {
            None
        },
{
    item_size.checked_add(TRAILER_SIZE)
}

/// Builds the image of an item.
pub fn allocate(site: &WorkItemSite, vtable: usize, generation: u64, word: usize) -> (image: Vec<
    u8,
>)
    requires
        fields_fit(*site, word as int),
    ensures
        image@ == item_image(*site, vtable, generation, word as int),
        image@.len() == site.item_size + TRAILER_SIZE,
{
    let size: usize = site.item_size + TRAILER_SIZE;
    let mut image: Vec<u8> = filled(size, 0);
    proof {
        lemma_le_bytes_len(vtable as nat, word as nat);
        lemma_le_bytes_len(1, 4);
        lemma_le_bytes_len(site.timer_vtable as nat, word as nat);
        lemma_le_bytes_len(generation as nat, 8);
    }
    write_at(&mut image, 0, &to_le_bytes(vtable as u64, word));
    write_at(&mut image, site.refcount_offset, &to_le_bytes(1, 4));
    let ghost counted = image@;
    let table: Vec<u8> = to_le_bytes(site.timer_vtable as u64, word);
    let mut i: usize = 0;
    while i < site.timer_vptr_offsets.len()
        invariant
            i <= site.timer_vptr_offsets@.len(),
            fields_fit(*site, word as int),
            image@.len() == site.item_size + TRAILER_SIZE,
            table@ == le_bytes(site.timer_vtable as nat, word as nat),
            table@.len() == word,
            image@ == with_timers(
                counted,
                site.timer_vptr_offsets@,
                site.timer_vtable,
                word as int,
                i as int,
            ),
        decreases site.timer_vptr_offsets@.len() - i,
    {
        let at: usize = site.timer_vptr_offsets[i];
        assert(site.timer_vptr_offsets@[i as int] + word <= site.item_size);
        write_at(&mut image, at, &table);
        i = i + 1;
    }
    let ghost timed = image@;
    let mut k: usize = 0;
    while k < site.sentinel_offsets.len()
        invariant
            k <= site.sentinel_offsets@.len(),
            fields_fit(*site, word as int),
            image@.len() == site.item_size + TRAILER_SIZE,
            image@ == with_sentinels(timed, site.sentinel_offsets@, k as int),
        decreases site.sentinel_offsets@.len() - k,
    {
        let (at, declared): (usize, u8) = site.sentinel_offsets[k];
        let width: usize = if declared == 8 || declared == 4 || declared == 2 {
            declared as usize
        } else {
            1
        };
        assert(site.sentinel_offsets@[k as int].0 + sentinel_width(
            site.sentinel_offsets@[k as int].1,
        ) <= site.item_size);
        write_at(&mut image, at, &filled(width, 0xff));
        k = k + 1;
    }
    write_at(&mut image, site.item_size, &to_le_bytes(generation, TRAILER_SIZE));
    image
}

/// The generation in the trailer of an item; zero without a known site.
pub fn generation(image: &[u8], item_size: Option<usize>) -> (generation: u64)
    requires
        item_size is Some ==> item_size->0 + TRAILER_SIZE <= image@.len(),
    ensures
        generation == match item_size {
            Some(size) => le_value(image@.subrange(size as int, size + TRAILER_SIZE)),
            None => 0,
        },
{
    let total: usize = image.len();
    match item_size {
        Some(size) => le_number(slice_subrange(image, size, size + TRAILER_SIZE)),
        None => 0,
    }
}

proof fn lemma_timers_len(
    image: Seq<u8>,
    offsets: Seq<usize>,
    table: usize,
    word: int,
    count: int,
)
    ensures
        with_timers(image, offsets, table, word, count).len() == image.len(),
    decreases count,
{
    if count > 0 {
        lemma_timers_len(image, offsets, table, word, count - 1);
    }
}

proof fn lemma_sentinels_len(image: Seq<u8>, sentinels: Seq<(usize, u8)>, count: int)
    ensures
        with_sentinels(image, sentinels, count).len() == image.len(),
    decreases count,
{
    if count > 0 {
        lemma_sentinels_len(image, sentinels, count - 1);
    }
}

/// The trailer gives back the generation that the item was built for.
pub proof fn law_item_remembers_its_generation(
    site: WorkItemSite,
    vtable: usize,
    generation: u64,
    word: int,
)
    requires
        fields_fit(site, word),
    ensures
        le_value(
            item_image(site, vtable, generation, word).subrange(
                site.item_size as int,
                site.item_size + TRAILER_SIZE,
            ),
        ) == generation,
{
    let zeros = Seq::new((site.item_size + TRAILER_SIZE) as nat, |i: int| 0u8);
    let tabled = written(zeros, 0, le_bytes(vtable as nat, word as nat));
    let counted = written(tabled, site.refcount_offset as int, le_bytes(1, 4));
    let timers = site.timer_vptr_offsets@;
    let timed = with_timers(counted, timers, site.timer_vtable, word, timers.len() as int);
    lemma_timers_len(counted, timers, site.timer_vtable, word, timers.len() as int);
    lemma_sentinels_len(timed, site.sentinel_offsets@, site.sentinel_offsets@.len() as int);
    reveal_with_fuel(byte_bound, 9);
    law_le_bytes_round_trip(generation as nat, 8);
    assert(item_image(site, vtable, generation, word).subrange(
        site.item_size as int,
        site.item_size + TRAILER_SIZE,
    ) =~= le_bytes(generation as nat, 8));
}

/// Whether one of the first `count` timer tables covers a byte.
pub open spec fn timer_covers(offsets: Seq<usize>, word: int, count: int, byte: int) -> bool {
    exists|k: int|
        0 <= k < count && #[trigger] offsets[k] <= byte && byte < offsets[k] + word
}

/// Whether one of the first `count` sentinels covers a byte.
pub open spec fn sentinel_covers(sentinels: Seq<(usize, u8)>, count: int, byte: int) -> bool {
    exists|k: int|
        0 <= k < count && (#[trigger] sentinels[k]).0 <= byte && byte < sentinels[k].0
            + sentinel_width(sentinels[k].1)
}

proof fn lemma_timers_stand(
    image: Seq<u8>,
    offsets: Seq<usize>,
    table: usize,
    word: int,
    count: int,
    byte: int,
    timer: int,
)
    requires
        0 <= byte < image.len(),
        0 <= count <= offsets.len(),
        word == 4 || word == 8,
    ensures
        !timer_covers(offsets, word, count, byte) ==> with_timers(
            image,
            offsets,
            table,
            word,
            count,
        )[byte] == image[byte],
        0 <= timer < count && offsets[timer] <= byte < offsets[timer] + word && (forall|k: int|
            timer < k < count ==> !(#[trigger] offsets[k] <= byte < offsets[k] + word))
            ==> with_timers(image, offsets, table, word, count)[byte] == le_bytes(
            table as nat,
            word as nat,
        )[byte - offsets[timer]],
    decreases count,
{
    if count > 0 {
        lemma_timers_stand(image, offsets, table, word, count - 1, byte, timer);
        lemma_timers_len(image, offsets, table, word, count - 1);
        lemma_le_bytes_len(table as nat, word as nat);
        let last = offsets[count - 1];
        if timer_covers(offsets, word, count - 1, byte) {
            assert(timer_covers(offsets, word, count, byte));
        }
    }
}

proof fn lemma_sentinels_stand(
    image: Seq<u8>,
    sentinels: Seq<(usize, u8)>,
    count: int,
    byte: int,
)
    requires
        0 <= byte < image.len(),
        0 <= count <= sentinels.len(),
    ensures
        with_sentinels(image, sentinels, count)[byte] == if sentinel_covers(
            sentinels,
            count,
            byte,
        ) {
            0xff
        } else {
            image[byte]
        },
    decreases count,
{
    if count > 0 {
        lemma_sentinels_stand(image, sentinels, count - 1, byte);
        lemma_sentinels_len(image, sentinels, count - 1);
        let last = sentinels[count - 1];
        if sentinel_covers(sentinels, count, byte) {
            let k = choose|k: int|
                0 <= k < count && (#[trigger] sentinels[k]).0 <= byte && byte < sentinels[k].0
                    + sentinel_width(sentinels[k].1);
            if k < count - 1 {
                assert(sentinel_covers(sentinels, count - 1, byte));
            }
        }
        if sentinel_covers(sentinels, count - 1, byte) {
            let k = choose|k: int|
                0 <= k < count - 1 && (#[trigger] sentinels[k]).0 <= byte && byte < sentinels[k].0
                    + sentinel_width(sentinels[k].1);
            assert(sentinels[k].0 <= byte);
        }
    }
}

/// Every byte of an item that Steam sees is accounted for: under a sentinel all bits are set;
/// under a timer table it is a byte of the table's address, that of the last one where several
/// meet; elsewhere under the count it is a byte of one, elsewhere in the first word a byte of
/// the item's own table, and everywhere else zero.
pub proof fn law_items_hold_what_steam_expects(
    site: WorkItemSite,
    vtable: usize,
    number: u64,
    word: usize,
    image: Vec<u8>,
    byte: int,
    timer: int,
)
    requires
        fields_fit(site, word as int),
        call_ensures(allocate, (&site, vtable, number, word), image),
        0 <= byte < site.item_size,
    ensures
        ({
            let timers = site.timer_vptr_offsets@;
            let sentinels = site.sentinel_offsets@;
            let marked = sentinel_covers(sentinels, sentinels.len() as int, byte);
            let timed = timer_covers(timers, word as int, timers.len() as int, byte);
            let counted = site.refcount_offset <= byte < site.refcount_offset + 4;
            &&& marked ==> image@[byte] == 0xff
            &&& !marked && 0 <= timer < timers.len() && timers[timer] <= byte < timers[timer] + word
                && (forall|k: int|
                timer < k < timers.len() ==> !(#[trigger] timers[k] <= byte < timers[k] + word))
                ==> image@[byte] == le_bytes(site.timer_vtable as nat, word as nat)[byte
                - timers[timer]]
            &&& !marked && !timed && counted ==> image@[byte] == le_bytes(1, 4)[byte
                - site.refcount_offset]
            &&& !marked && !timed && !counted && byte < word ==> image@[byte] == le_bytes(
                vtable as nat,
                word as nat,
            )[byte]
            &&& !marked && !timed && !counted && byte >= word ==> image@[byte] == 0
        }),
{
    let timers = site.timer_vptr_offsets@;
    let sentinels = site.sentinel_offsets@;
    let zeros = Seq::new((site.item_size + TRAILER_SIZE) as nat, |i: int| 0u8);
    let tabled = written(zeros, 0, le_bytes(vtable as nat, word as nat));
    let counted = written(tabled, site.refcount_offset as int, le_bytes(1, 4));
    let timed = with_timers(
        counted,
        timers,
        site.timer_vtable,
        word as int,
        timers.len() as int,
    );
    lemma_le_bytes_len(vtable as nat, word as nat);
    lemma_le_bytes_len(1, 4);
    lemma_timers_len(counted, timers, site.timer_vtable, word as int, timers.len() as int);
    lemma_timers_stand(
        counted,
        timers,
        site.timer_vtable,
        word as int,
        timers.len() as int,
        byte,
        timer,
    );
    lemma_sentinels_len(timed, sentinels, sentinels.len() as int);
    lemma_sentinels_stand(timed, sentinels, sentinels.len() as int, byte);
}

} // verus!

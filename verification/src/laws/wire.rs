//! Readers and writers, and what is written and read with them.

use crate::codec;
use crate::command::Command;
use crate::domain::promise::Version;
use crate::error::StorageError;
use crate::layout;
use crate::laws::layouts;
use crate::outcome;
use crate::outcome::CommandResponse;
use crate::transition;
use crate::transition::{CommandHash, DurableTransition};
use crate::wire::model;
use crate::wire::model::{Enc, Keyed, Limits, Wire};
use crate::wire::reader;
use crate::wire::reader::{Decode, Ranked, Reader};
use crate::wire::writer;
use crate::wire::writer::{Encode, Writer};
use vstd::prelude::*;
use vstd::string::*;
use vstd::utf8::*;

verus! {

/// Writers keep what was written and append what comes.
pub proof fn law_writers(
    start: Vec<u8>,
    made: Writer,
    end: Vec<u8>,
    raw: &mut Writer,
    bytes: &[u8],
    done: (),
)
    requires
        call_ensures(Writer::new, (start,), made),
        call_ensures(Writer::into_bytes, (made,), end),
        call_ensures(Writer::raw, (raw, bytes), done),
    ensures
        made@ == start@,
        end@ == start@,
        final(raw)@ == old(raw)@ + bytes@,
{
    reveal(writer::written);
}

/// Writers append numbers as their little-endian bytes.
pub proof fn law_writers_append_numbers(
    one: &mut Writer,
    two: &mut Writer,
    three: &mut Writer,
    four: &mut Writer,
    five: &mut Writer,
    a: u8,
    b: u32,
    c: u64,
    d: u128,
    e: i64,
    done: (),
    bits: u64,
)
    requires
        call_ensures(Writer::u8, (one, a), done),
        call_ensures(Writer::u32, (two, b), done),
        call_ensures(Writer::u64, (three, c), done),
        call_ensures(Writer::u128, (four, d), done),
        call_ensures(Writer::i64, (five, e), done),
        call_ensures(writer::bits_of_i64, (e,), bits),
    ensures
        final(one)@ == old(one)@ + seq![a],
        final(two)@ == old(two)@ + model::le(b as nat, 4),
        final(three)@ == old(three)@ + model::le(c as nat, 8),
        final(four)@ == old(four)@ + model::le(d as nat, 16),
        final(five)@ == old(five)@ + model::le(bits as nat, 8),
        bits == if e >= 0 {
            e as int
        } else {
            e + 0x1_0000_0000_0000_0000
        },
{
    reveal(writer::written);
    layouts::law_numbers(a, b, c, d, e, Limits { lists: 0, items: 0, strings: 0 });
}

/// Writers append lengths as four bytes and texts as their length and their UTF-8 encoding.
/// Lengths that four bytes cannot hold are refused, and nothing is appended then.
pub proof fn law_writers_append_texts(
    one: &mut Writer,
    two: &mut Writer,
    field: &'static str,
    length: usize,
    text: &str,
    counted: Result<(), StorageError>,
    spelled: Result<(), StorageError>,
)
    requires
        call_ensures(Writer::len, (one, field, length), counted),
        call_ensures(Writer::string, (two, field, text), spelled),
    ensures
        length <= 0xffff_ffff ==> counted is Ok && final(one)@ == old(one)@ + model::le(
            length as nat,
            4,
        ),
        length > 0xffff_ffff ==> final(one)@ == old(one)@ && counted == Err::<(), StorageError>(
            StorageError::InvalidLength { field, length: length as u64 },
        ),
        ({
            let bytes = encode_utf8(text@);
            &&& bytes.len() <= 0xffff_ffff ==> spelled is Ok && final(two)@ == old(two)@ + (
            model::le(bytes.len(), 4) + bytes)
            &&& bytes.len() > 0xffff_ffff ==> final(two)@ == old(two)@ && spelled == Err::<
                (),
                StorageError,
            >(StorageError::InvalidLength { field, length: bytes.len() as u64 })
        }),
{
    reveal(writer::written);
    assert(old(one)@ + seq![] =~= old(one)@);
    assert(old(two)@ + seq![] =~= old(two)@);
}

/// Writers append lists as their length and their items, one behind the other, up to the first
/// failure.
pub proof fn law_writers_append_lists<T: Encode>(
    one: &mut Writer,
    two: &mut Writer,
    three: &mut Writer,
    field: &'static str,
    items: &[T],
    item: &T,
    listed: Result<(), StorageError>,
    appended: Result<(), StorageError>,
    written: Result<(), StorageError>,
) where <T as View>::V: Wire
    requires
        call_ensures(Writer::list::<T>, (one, field, items), listed),
        call_ensures(Writer::items::<T>, (two, items), appended),
        call_ensures(<T as Encode>::encode, (item, three), written),
    ensures
        ({
            let all = model::enc_items(model::views(items@));
            let list = model::enc_list(field, model::views(items@));
            &&& final(one)@ == old(one)@ + list.bytes
            &&& listed is Ok <==> list.fail is None
            &&& listed matches Err(error) ==> list.fail == Some(error)
            &&& final(two)@ == old(two)@ + all.bytes
            &&& appended is Ok <==> all.fail is None
            &&& appended matches Err(error) ==> all.fail == Some(error)
            &&& final(three)@ == old(three)@ + item@.enc().bytes
            &&& written is Ok <==> item@.enc().fail is None
            &&& written matches Err(error) ==> item@.enc().fail == Some(error)
        }),
{
    reveal(writer::written);
}

/// Readers start at the first byte, with the given limits or with none.
pub proof fn law_readers_start<'a>(
    bytes: &'a [u8],
    lists: usize,
    items: usize,
    strings: usize,
    free: Reader<'a>,
    bounded: Reader<'a>,
    some: &Reader<'a>,
    empty: bool,
    count: usize,
    capacity: usize,
)
    requires
        some.wf(),
        call_ensures(Reader::<'a>::new, (bytes,), free),
        call_ensures(Reader::<'a>::new_bounded, (bytes, lists, items, strings), bounded),
        call_ensures(Reader::<'a>::is_empty, (some,), empty),
        call_ensures(Reader::<'a>::safe_capacity, (some, count), capacity),
    ensures
        free.wf() && free.data() == bytes@ && free.pos() == 0,
        free.limits().lists == usize::MAX,
        free.limits().items == usize::MAX,
        free.limits().strings == usize::MAX,
        bounded.wf() && bounded.data() == bytes@ && bounded.pos() == 0,
        bounded.limits().lists == lists,
        bounded.limits().items == items,
        bounded.limits().strings == strings,
        empty <==> some.pos() == some.data().len(),
        count <= some.data().len() - some.pos() ==> capacity == count,
        count > some.data().len() - some.pos() ==> capacity == some.data().len() - some.pos(),
{
}

/// A reader that gives something has moved behind the bytes that it gave, and stays within its
/// data.
pub open spec fn moved(before: Reader, after: Reader, count: int) -> bool {
    &&& stays(before, after)
    &&& after.pos() == before.pos() + count
}

/// A reader stays within its data, and keeps data and limits.
pub open spec fn stays(before: Reader, after: Reader) -> bool {
    &&& after.wf()
    &&& after.data() == before.data()
    &&& after.limits() == before.limits()
    &&& 0 <= before.pos() <= after.pos() <= after.data().len()
}

/// Readers give the next bytes, exactly if there are that many.
pub proof fn law_readers_take<'a>(
    some: &mut Reader<'a>,
    length: usize,
    out: Result<&'a [u8], StorageError>,
)
    requires
        old(some).wf(),
        call_ensures(Reader::<'a>::take, (some, length), out),
    ensures
        stays(*old(some), *final(some)),
        out is Ok <==> old(some).pos() + length <= old(some).data().len(),
        out matches Err(error) ==> error == StorageError::TruncatedPayload,
        out matches Ok(bytes) ==> moved(*old(some), *final(some), length as int) && bytes@ == old(
            some,
        ).data().subrange(old(some).pos(), old(some).pos() + length),
{
}

/// Readers give numbers from their little-endian bytes, exactly if those are there.
pub proof fn law_readers_give_numbers<'a>(
    one: &mut Reader<'a>,
    two: &mut Reader<'a>,
    three: &mut Reader<'a>,
    four: &mut Reader<'a>,
    five: &mut Reader<'a>,
    a: Result<u8, StorageError>,
    b: Result<u32, StorageError>,
    c: Result<u64, StorageError>,
    d: Result<u128, StorageError>,
    e: Result<i64, StorageError>,
)
    requires
        old(one).wf() && old(two).wf() && old(three).wf() && old(four).wf() && old(five).wf(),
        call_ensures(Reader::<'a>::u8, (one,), a),
        call_ensures(Reader::<'a>::u32, (two,), b),
        call_ensures(Reader::<'a>::u64, (three,), c),
        call_ensures(Reader::<'a>::u128, (four,), d),
        call_ensures(Reader::<'a>::i64, (five,), e),
    ensures
        a is Ok <==> old(one).pos() + 1 <= old(one).data().len(),
        a matches Ok(value) ==> moved(*old(one), *final(one), 1) && value == old(
            one,
        ).data()[old(one).pos()],
        a matches Err(error) ==> error == StorageError::TruncatedPayload,
        b is Ok <==> old(two).pos() + 4 <= old(two).data().len(),
        b matches Ok(value) ==> moved(*old(two), *final(two), 4) && model::le(value as nat, 4)
            == old(two).data().subrange(old(two).pos(), old(two).pos() + 4),
        b matches Err(error) ==> error == StorageError::TruncatedPayload,
        c is Ok <==> old(three).pos() + 8 <= old(three).data().len(),
        c matches Ok(value) ==> moved(*old(three), *final(three), 8) && model::le(value as nat, 8)
            == old(three).data().subrange(old(three).pos(), old(three).pos() + 8),
        c matches Err(error) ==> error == StorageError::TruncatedPayload,
        d is Ok <==> old(four).pos() + 16 <= old(four).data().len(),
        d matches Ok(value) ==> moved(*old(four), *final(four), 16) && model::le(value as nat, 16)
            == old(four).data().subrange(old(four).pos(), old(four).pos() + 16),
        d matches Err(error) ==> error == StorageError::TruncatedPayload,
        e is Ok <==> old(five).pos() + 8 <= old(five).data().len(),
        e matches Ok(value) ==> moved(*old(five), *final(five), 8) && model::le(
            (if value >= 0 {
                value as int
            } else {
                value + 0x1_0000_0000_0000_0000
            }) as nat,
            8,
        ) == old(five).data().subrange(old(five).pos(), old(five).pos() + 8),
        e matches Err(error) ==> error == StorageError::TruncatedPayload,
{
    model::lemma_spans();
    let p = old(one).pos();
    if p + 1 <= old(one).data().len() {
        let part = old(one).data().subrange(p, p + 1);
        model::lemma_le_of_un_le(part);
        reveal_with_fuel(model::un_le, 2);
        assert(part[0] == old(one).data()[p]);
        assert(part.drop_first() =~= seq![]);
    }
    let p = old(two).pos();
    if p + 4 <= old(two).data().len() {
        model::lemma_le_of_un_le(old(two).data().subrange(p, p + 4));
    }
    let p = old(three).pos();
    if p + 8 <= old(three).data().len() {
        model::lemma_le_of_un_le(old(three).data().subrange(p, p + 8));
    }
    let p = old(four).pos();
    if p + 16 <= old(four).data().len() {
        model::lemma_le_of_un_le(old(four).data().subrange(p, p + 16));
    }
    let p = old(five).pos();
    if p + 8 <= old(five).data().len() {
        model::lemma_le_of_un_le(old(five).data().subrange(p, p + 8));
    }
}

/// What reading a length means: four bytes that hold one within the maximum.
pub open spec fn length_verdict(
    before: Reader,
    after: Reader,
    maximum: int,
    field: &'static str,
    out: Result<usize, StorageError>,
) -> bool {
    let data = before.data();
    let pos = before.pos();
    let value = model::un_le(data.subrange(pos, pos + 4));
    &&& stays(before, after)
    &&& match out {
        Ok(count) => {
            &&& pos + 4 <= data.len()
            &&& count == value
            &&& count <= maximum
            &&& moved(before, after, 4)
        },
        Err(error) => if pos + 4 > data.len() {
            error == StorageError::TruncatedPayload
        } else {
            value > maximum && error == (StorageError::InvalidLength {
                field,
                length: value as u64,
            })
        },
    }
}

/// Readers give lengths within the maximum that holds for them.
pub proof fn law_readers_give_lengths<'a>(
    one: &mut Reader<'a>,
    two: &mut Reader<'a>,
    three: &mut Reader<'a>,
    four: &mut Reader<'a>,
    field: &'static str,
    maximum: usize,
    a: Result<usize, StorageError>,
    b: Result<usize, StorageError>,
    c: Result<usize, StorageError>,
    d: Result<usize, StorageError>,
)
    requires
        old(one).wf() && old(two).wf() && old(three).wf() && old(four).wf(),
        call_ensures(Reader::<'a>::length, (one, field, maximum), a),
        call_ensures(Reader::<'a>::count, (two, field), b),
        call_ensures(Reader::<'a>::top_count, (three, field), c),
        call_ensures(Reader::<'a>::index, (four, field), d),
    ensures
        length_verdict(*old(one), *final(one), maximum as int, field, a),
        length_verdict(*old(two), *final(two), old(two).limits().items as int, field, b),
        ({
            let limits = old(three).limits();
            let larger = if limits.lists > limits.items {
                limits.lists
            } else {
                limits.items
            };
            length_verdict(*old(three), *final(three), larger as int, field, c)
        }),
        ({
            let limits = old(four).limits();
            let larger = if limits.lists > limits.items {
                limits.lists
            } else {
                limits.items
            };
            length_verdict(*old(four), *final(four), larger as int, field, d)
        }),
{
}

/// Readers give blocks of bytes and texts behind their lengths. Texts must be valid UTF-8.
pub proof fn law_readers_give_texts<'a>(
    one: &mut Reader<'a>,
    two: &mut Reader<'a>,
    field: &'static str,
    block: Result<&'a [u8], StorageError>,
    text: Result<String, StorageError>,
)
    requires
        old(one).wf() && old(two).wf(),
        call_ensures(Reader::<'a>::bytes, (one, field), block),
        call_ensures(Reader::<'a>::string, (two, field), text),
    ensures
        ({
            let data = old(one).data();
            let pos = old(one).pos();
            let count = model::un_le(data.subrange(pos, pos + 4));
            let there = pos + 4 <= data.len() && pos + 4 + count <= data.len();
            &&& stays(*old(one), *final(one))
            &&& block is Ok <==> there && count <= old(one).limits().items
            &&& block matches Ok(bytes) ==> bytes@ == data.subrange(pos + 4, pos + 4 + count)
                && moved(*old(one), *final(one), 4 + count as int)
            &&& block matches Err(error) ==> error == StorageError::TruncatedPayload || error == (
            StorageError::InvalidLength { field, length: count as u64 }) && count > old(
                one,
            ).limits().items
        }),
        ({
            let data = old(two).data();
            let pos = old(two).pos();
            let count = model::un_le(data.subrange(pos, pos + 4));
            let there = pos + 4 <= data.len() && pos + 4 + count <= data.len();
            let bytes = data.subrange(pos + 4, pos + 4 + count);
            &&& stays(*old(two), *final(two))
            &&& text is Ok <==> there && count <= old(two).limits().strings && valid_utf8(bytes)
            &&& text matches Ok(found) ==> encode_utf8(found@) == bytes && moved(
                *old(two),
                *final(two),
                4 + count as int,
            )
            &&& text matches Err(error) ==> error == StorageError::TruncatedPayload || error == (
            StorageError::InvalidLength { field, length: count as u64 }) && count > old(
                two,
            ).limits().strings || error == StorageError::InvalidUtf8 && there && !valid_utf8(bytes)
        }),
{
    if let Ok(found) = text {
        let data = old(two).data();
        let pos = old(two).pos();
        let count = model::un_le(data.subrange(pos, pos + 4));
        decode_utf8_encode_utf8(data.subrange(pos + 4, pos + 4 + count));
    }
}

/// The bytes of an encoding stand at the position of a reader.
pub open spec fn stands(before: Reader, enc: Enc) -> bool {
    let data = before.data();
    let pos = before.pos();
    &&& enc.fail is None
    &&& pos + enc.bytes.len() <= data.len()
    &&& data.subrange(pos, pos + enc.bytes.len()) == enc.bytes
}

/// Readers give a list exactly where it stands as it is written, if its items are valid and it is
/// within limits.
pub proof fn law_readers_give_lists<'a, T: Decode>(
    one: &mut Reader<'a>,
    field: &'static str,
    out: Result<Vec<T>, StorageError>,
    items: Seq<T::V>,
) where <T as View>::V: Wire
    requires
        old(one).wf(),
        call_ensures(Reader::<'a>::list::<T>, (one, field), out),
    ensures
        stays(*old(one), *final(one)),
        out matches Ok(found) ==> {
            let list = model::enc_list(field, model::views(found@));
            &&& stands(*old(one), list)
            &&& moved(*old(one), *final(one), list.bytes.len() as int)
            &&& found@.len() <= old(one).limits().items
            &&& forall|i: int|
                0 <= i < found@.len() ==> (#[trigger] found@[i])@.valid() && found@[i]@.fits(
                    old(one).limits(),
                )
        },
        stands(*old(one), model::enc_list(field, items)) && items.len() <= old(one).limits().items
            && (forall|i: int|
            0 <= i < items.len() ==> (#[trigger] items[i]).valid() && items[i].fits(
                old(one).limits(),
            )) ==> (out matches Ok(found) && model::views(found@) == items),
{
    reveal(model::at);
    let data = old(one).data();
    let pos = old(one).pos();
    let limits = old(one).limits();
    assert(0 <= pos <= data.len());
    model::lemma_parse_list::<T::V>(data, pos, limits, field, pos);
    if let Ok(found) = out {
        let models = model::views(found@);
        assert forall|i: int| 0 <= i < found@.len() implies (#[trigger] found@[i])@.valid()
            && found@[i]@.fits(limits) by {
            assert(models[i] == found@[i]@);
        }
    }
    if stands(*old(one), model::enc_list(field, items)) && items.len() <= limits.items && (forall|
        i: int,
    |
        0 <= i < items.len() ==> (#[trigger] items[i]).valid() && items[i].fits(limits)) {
        model::lemma_list_enc(items, data, pos, limits, field);
    }
}

/// Readers give an ordered list exactly where it stands as it is written, if its items are valid
/// and in order and it is within limits.
pub proof fn law_readers_give_ordered_lists<'a, T: Decode + Ranked>(
    one: &mut Reader<'a>,
    field: &'static str,
    gap: u8,
    reason: &'static str,
    out: Result<Vec<T>, StorageError>,
    items: Seq<T::V>,
) where <T as View>::V: Keyed
    requires
        old(one).wf(),
        call_ensures(Reader::<'a>::ordered::<T>, (one, field, gap, reason), out),
    ensures
        stays(*old(one), *final(one)),
        out matches Ok(found) ==> {
            let list = model::enc_list(field, model::views(found@));
            &&& stands(*old(one), list)
            &&& moved(*old(one), *final(one), list.bytes.len() as int)
            &&& found@.len() <= old(one).limits().items
            &&& forall|i: int|
                0 <= i < found@.len() ==> (#[trigger] found@[i])@.valid() && found@[i]@.fits(
                    old(one).limits(),
                )
            &&& model::ordered(model::views(found@), gap as nat)
        },
        stands(*old(one), model::enc_list(field, items)) && items.len() <= old(one).limits().items
            && (forall|i: int|
            0 <= i < items.len() ==> (#[trigger] items[i]).valid() && items[i].fits(
                old(one).limits(),
            )) && model::ordered(items, gap as nat) ==> (out matches Ok(found) && model::views(
            found@,
        ) == items),
{
    reveal(model::at);
    let data = old(one).data();
    let pos = old(one).pos();
    let limits = old(one).limits();
    assert(0 <= pos <= data.len());
    model::lemma_parse_ordered::<T::V>(data, pos, limits, field, gap as nat, reason, pos);
    if let Ok(found) = out {
        let models = model::views(found@);
        assert forall|i: int| 0 <= i < found@.len() implies (#[trigger] found@[i])@.valid()
            && found@[i]@.fits(limits) by {
            assert(models[i] == found@[i]@);
        }
    }
    if stands(*old(one), model::enc_list(field, items)) && items.len() <= limits.items && (forall|
        i: int,
    |
        0 <= i < items.len() ==> (#[trigger] items[i]).valid() && items[i].fits(limits))
        && model::ordered(items, gap as nat) {
        model::lemma_ordered_enc(items, data, pos, limits, field, gap as nat, reason);
    }
}

/// Readers give as many items as asked for, exactly where they stand as they are written, if they
/// are valid and within limits.
pub proof fn law_readers_give_items<'a, T: Decode>(
    one: &mut Reader<'a>,
    count: usize,
    out: Result<Vec<T>, StorageError>,
    items: Seq<T::V>,
) where <T as View>::V: Wire
    requires
        old(one).wf(),
        call_ensures(Reader::<'a>::items::<T>, (one, count), out),
    ensures
        stays(*old(one), *final(one)),
        out matches Ok(found) ==> {
            let all = model::enc_items(model::views(found@));
            &&& stands(*old(one), all)
            &&& moved(*old(one), *final(one), all.bytes.len() as int)
            &&& found@.len() == count
            &&& forall|i: int|
                0 <= i < found@.len() ==> (#[trigger] found@[i])@.valid() && found@[i]@.fits(
                    old(one).limits(),
                )
        },
        stands(*old(one), model::enc_items(items)) && items.len() == count && (forall|i: int|
            0 <= i < items.len() ==> (#[trigger] items[i]).valid() && items[i].fits(
                old(one).limits(),
            )) ==> (out matches Ok(found) && model::views(found@) == items),
{
    reveal(model::at);
    let data = old(one).data();
    let pos = old(one).pos();
    let limits = old(one).limits();
    assert(0 <= pos <= data.len());
    model::lemma_parse_items::<T::V>(data, pos, limits, count as nat, pos);
    if let Ok(found) = out {
        let models = model::views(found@);
        assert forall|i: int| 0 <= i < found@.len() implies (#[trigger] found@[i])@.valid()
            && found@[i]@.fits(limits) by {
            assert(models[i] == found@[i]@);
        }
    }
    if stands(*old(one), model::enc_items(items)) && items.len() == count && (forall|i: int|
        0 <= i < items.len() ==> (#[trigger] items[i]).valid() && items[i].fits(limits)) {
        model::lemma_items_enc(items, data, pos, limits);
    }
}

/// Ordered items are items whose keys rise, and are refused if the keys do not.
proof fn lemma_ordered_items<T: Keyed>(
    data: Seq<u8>,
    pos: int,
    limits: Limits,
    count: nat,
    gap: nat,
    reason: &'static str,
)
    ensures
        ({
            let all = model::parse_items::<T>(data, pos, limits, count);
            let rising = model::parse_ordered_items::<T>(data, pos, limits, count, gap, reason);
            &&& all is Err ==> rising is Err
            &&& all matches Ok((items, end)) ==> if model::ordered(items, gap) {
                rising == Ok::<(Seq<T>, int), StorageError>((items, end))
            } else {
                rising == Err::<(Seq<T>, int), StorageError>(StorageError::CorruptRecord(reason))
            }
        }),
    decreases count,
{
    if count > 0 {
        lemma_ordered_items::<T>(data, pos, limits, (count - 1) as nat, gap, reason);
        if let Ok((items, start)) = model::parse_items::<T>(data, pos, limits, (count - 1) as nat) {
            if let Ok((item, end)) = T::parse(data, start, limits) {
                let longer = items.push(item);
                let last = items.len() as int;
                if model::ordered(longer, gap) {
                    assert forall|i: int, j: int| 0 <= i < j < items.len() implies (
                    #[trigger] items[i]).key() + gap <= (#[trigger] items[j]).key() by {
                        assert(longer[i].key() + gap <= longer[j].key());
                    }
                    if last > 0 {
                        assert(longer[last - 1].key() + gap <= longer[last].key());
                    }
                } else if model::ordered(items, gap) && model::in_order(items, item, gap) {
                    assert forall|i: int, j: int| 0 <= i < j < longer.len() implies (
                    #[trigger] longer[i]).key() + gap <= (#[trigger] longer[j]).key() by {
                        if j < last {
                            assert(items[i].key() + gap <= items[j].key());
                        } else if i < last - 1 {
                            assert(items[i].key() + gap <= items[last - 1].key());
                        }
                    }
                }
            }
        }
    }
}

/// Items are read into an empty list as they are read into a new one, and ordered items are read
/// behind their length as the list is.
pub proof fn law_items_are_read_into_a_list<'a, T: Decode + Ranked>(
    one: &mut Reader<'a>,
    two: &mut Reader<'a>,
    three: &mut Reader<'a>,
    list: Vec<T>,
    count: usize,
    gap: u8,
    reason: &'static str,
    fresh: Result<Vec<T>, StorageError>,
    filled: Result<Vec<T>, StorageError>,
    ordered: Result<Vec<T>, StorageError>,
) where <T as View>::V: Keyed
    requires
        old(one).wf(),
        *old(one) == *old(two),
        *old(one) == *old(three),
        list@.len() == 0,
        call_ensures(Reader::<'a>::items::<T>, (one, count), fresh),
        call_ensures(Reader::<'a>::items_into::<T>, (two, list, count), filled),
        call_ensures(Reader::<'a>::ordered_items::<T>, (three, count, gap, reason), ordered),
    ensures
        fresh is Ok <==> filled is Ok,
        fresh matches Ok(items) ==> model::views(items@) == model::views(filled->Ok_0@)
            && final(one).pos() == final(two).pos(),
        fresh matches Err(error) ==> filled == Err::<Vec<T>, StorageError>(error),
        ordered matches Ok(items) ==> fresh is Ok && model::views(items@) == model::views(
            fresh->Ok_0@,
        ) && final(one).pos() == final(three).pos() && model::ordered(
            model::views(items@),
            gap as nat,
        ),
        fresh matches Ok(items) && model::ordered(model::views(items@), gap as nat) ==> ordered
            is Ok,
        fresh matches Ok(items) && !model::ordered(model::views(items@), gap as nat) ==> ordered
            == Err::<Vec<T>, StorageError>(StorageError::CorruptRecord(reason)),
{
    lemma_ordered_items::<T::V>(
        old(one).data(),
        old(one).pos(),
        old(one).limits(),
        count as nat,
        gap as nat,
        reason,
    );
}

/// A value is decoded exactly where it stands as it is written, if it is valid and within limits.
pub proof fn law_values_are_decoded<T: Decode>(
    some: &mut Reader,
    out: Result<T, StorageError>,
    value: T::V,
) where <T as View>::V: Wire
    requires
        old(some).wf(),
        call_ensures(<T as Decode>::decode, (some,), out),
    ensures
        stays(*old(some), *final(some)),
        out matches Ok(found) ==> found@.valid() && found@.fits(old(some).limits()) && stands(
            *old(some),
            found@.enc(),
        ) && moved(*old(some), *final(some), found@.enc().bytes.len() as int),
        value.valid() && value.fits(old(some).limits()) && stands(*old(some), value.enc()) ==> (
        out matches Ok(found) && found@ == value),
{
    let data = old(some).data();
    let pos = old(some).pos();
    assert(0 <= pos <= data.len());
    layouts::law_values_are_read_where_they_stand::<T::V>(
        data,
        pos,
        old(some).limits(),
        value,
        pos + value.enc().bytes.len(),
    );
    if let Ok(found) = out {
        reveal(model::at);
        T::V::lemma_parse(data, pos, old(some).limits(), pos);
    }
}

/// Versions are read as numbers other than zero, and hashes as thirty-two bytes.
pub proof fn law_versions_and_hashes_are_read(
    one: &mut Reader,
    reason: &'static str,
    version: Result<Version, StorageError>,
    two: &mut Reader,
    hash: Result<CommandHash, StorageError>,
)
    requires
        old(one).wf() && old(two).wf(),
        call_ensures(Version::read, (one, reason), version),
        call_ensures(CommandHash::read, (two,), hash),
    ensures
        ({
            let data = old(one).data();
            let pos = old(one).pos();
            let value = model::un_le(data.subrange(pos, pos + 8));
            &&& version is Ok <==> pos + 8 <= data.len() && value != 0
            &&& version matches Ok(found) ==> found@ == value && moved(*old(one), *final(one), 8)
            &&& version matches Err(error) ==> if pos + 8 <= data.len() {
                error == StorageError::CorruptRecord(reason)
            } else {
                error == StorageError::TruncatedPayload
            }
        }),
        ({
            let data = old(two).data();
            let pos = old(two).pos();
            &&& hash is Ok <==> pos + 32 <= data.len()
            &&& hash matches Ok(found) ==> found@ == data.subrange(pos, pos + 32) && moved(
                *old(two),
                *final(two),
                32,
            )
            &&& hash matches Err(error) ==> error == StorageError::TruncatedPayload
        }),
{
    model::lemma_spans();
    let data = old(one).data();
    let pos = old(one).pos();
    if pos + 8 <= data.len() {
        model::lemma_le_of_un_le(data.subrange(pos, pos + 8));
    }
}

/// A command is encoded as its format version and what is written of it, wherever that can be
/// written, and decoded from nothing else.
pub proof fn law_command_payloads(
    command: &Command,
    encoded: Result<Vec<u8>, StorageError>,
    buffer: &mut Vec<u8>,
    appended: Result<(), StorageError>,
    bytes: &[u8],
    decoded: Result<Command, StorageError>,
)
    requires
        command@.valid(),
        call_ensures(codec::encode_command, (command,), encoded),
        call_ensures(codec::encode_command_into, (command, buffer), appended),
        call_ensures(codec::decode_command, (bytes,), decoded),
    ensures
        encoded is Ok <==> command@.enc().fail is None,
        encoded matches Ok(payload) ==> payload@ == seq![1u8] + command@.enc().bytes,
        encoded matches Err(error) ==> command@.enc().fail == Some(error),
        appended is Ok <==> command@.enc().fail is None,
        appended is Ok ==> final(buffer)@ == old(buffer)@ + (seq![1u8] + command@.enc().bytes),
        appended matches Err(error) ==> command@.enc().fail == Some(error),
        decoded matches Ok(found) ==> found@.valid() && found@.enc().fail is None && bytes@
            == seq![1u8] + found@.enc().bytes,
        encoded matches Ok(payload) ==> (payload@ == bytes@ ==> (decoded matches Ok(found)
            && found@ == command@)),
{
    layouts::law_payloads(command@, arbitrary());
    if let Ok(found) = decoded {
        layouts::law_payloads_are_read(bytes@, found@, arbitrary());
    }
    layouts::law_payloads_are_read(bytes@, command@, arbitrary());
}

/// A transition is encoded as its format version and what is written of it, wherever that can be
/// written, and decoded from nothing else. Where it cannot be written, nothing is appended.
pub proof fn law_transition_payloads(
    transition: &DurableTransition,
    encoded: Result<Vec<u8>, StorageError>,
    buffer: &mut Vec<u8>,
    appended: Result<(), StorageError>,
    bytes: &[u8],
    decoded: Result<DurableTransition, StorageError>,
)
    requires
        call_ensures(transition::encode_transition, (transition,), encoded),
        call_ensures(transition::encode_transition_into, (transition, buffer), appended),
        call_ensures(transition::decode_transition, (bytes,), decoded),
    ensures
        encoded is Ok <==> transition@.enc().fail is None,
        encoded matches Ok(payload) ==> payload@ == seq![1u8] + transition@.enc().bytes,
        encoded matches Err(error) ==> transition@.enc().fail == Some(error),
        appended is Ok <==> transition@.enc().fail is None,
        appended is Ok ==> final(buffer)@ == old(buffer)@ + (seq![1u8] + transition@.enc().bytes),
        appended matches Err(error) ==> transition@.enc().fail == Some(error) && final(buffer)@
            == old(buffer)@,
        decoded matches Ok(found) ==> found@.valid() && found@.enc().fail is None && bytes@
            == seq![1u8] + found@.enc().bytes,
        encoded matches Ok(payload) ==> (transition@.valid() && payload@ == bytes@ ==> (
        decoded matches Ok(found) && found@ == transition@)),
{
    layouts::law_payloads(arbitrary(), transition@);
    if let Ok(found) = decoded {
        layouts::law_payloads_are_read(bytes@, arbitrary(), found@);
    }
    layouts::law_payloads_are_read(bytes@, arbitrary(), transition@);
}

/// Responses are written and read like other values.
pub proof fn law_responses_are_written_and_read(
    response: &CommandResponse,
    one: &mut Writer,
    written: Result<(), StorageError>,
    two: &mut Reader,
    read: Result<CommandResponse, StorageError>,
)
    requires
        old(two).wf(),
        call_ensures(outcome::write_response, (response, one), written),
        call_ensures(outcome::read_response, (two,), read),
    ensures
        ({
            let enc = outcome::response_view(*response).enc();
            &&& final(one)@ == old(one)@ + enc.bytes
            &&& written is Ok <==> enc.fail is None
            &&& written matches Err(error) ==> enc.fail == Some(error)
        }),
        stays(*old(two), *final(two)),
        read matches Ok(found) ==> {
            let value = outcome::response_view(found);
            &&& value.valid()
            &&& value.fits(old(two).limits())
            &&& stands(*old(two), value.enc())
            &&& moved(*old(two), *final(two), value.enc().bytes.len() as int)
        },
        ({
            let value = outcome::response_view(*response);
            value.valid() && value.fits(old(two).limits()) && stands(*old(two), value.enc()) ==> (
            read matches Ok(found) && outcome::response_view(found) == value)
        }),
{
    reveal(writer::written);
    let data = old(two).data();
    let pos = old(two).pos();
    let value = outcome::response_view(*response);
    assert(0 <= pos <= data.len());
    layouts::law_values_are_read_where_they_stand(
        data,
        pos,
        old(two).limits(),
        value,
        pos + value.enc().bytes.len(),
    );
    if let Ok(found) = read {
        reveal(model::at);
        <Result<outcome::CommandResultView, crate::error::DomainError> as Wire>::lemma_parse(
            data,
            pos,
            old(two).limits(),
            pos,
        );
    }
}

/// Numbers are read from little-endian bytes, and signed numbers from the unsigned number with
/// the same bits.
pub proof fn law_numbers_are_read(digits: &[u8], value: u128, bits: u64, signed: i64)
    requires
        digits@.len() <= 16,
        call_ensures(reader::get_le, (digits,), value),
        call_ensures(reader::i64_of_bits, (bits,), signed),
    ensures
        model::le(value as nat, digits@.len()) == digits@,
        signed >= 0 ==> bits == signed,
        signed < 0 ==> bits == signed + 0x1_0000_0000_0000_0000,
{
    model::lemma_le_of_un_le(digits@);
}

/// Fields at fixed places.
pub proof fn law_fields(
    bytes: &[u8],
    from: usize,
    to: usize,
    field: u128,
    zero: bool,
    buffer: &mut Vec<u8>,
    count: usize,
    done: (),
    magic: [u8; 4],
    starts: bool,
    four: [u8; 4],
)
    requires
        from <= to <= bytes@.len(),
        to - from <= 16,
        bytes@.len() >= 4,
        call_ensures(layout::get_field, (bytes, from, to), field),
        call_ensures(layout::is_zero, (bytes, from, to), zero),
        call_ensures(layout::put_zeros, (buffer, count), done),
        call_ensures(layout::starts_with, (bytes, magic), starts),
        call_ensures(layout::get_four, (bytes,), four),
    ensures
        model::le(field as nat, (to - from) as nat) == bytes@.subrange(from as int, to as int),
        zero <==> forall|i: int| from <= i < to ==> (#[trigger] bytes@[i]) == 0,
        final(buffer)@.len() == old(buffer)@.len() + count,
        final(buffer)@.take(old(buffer)@.len() as int) == old(buffer)@,
        forall|i: int|
            old(buffer)@.len() <= i < final(buffer)@.len() ==> (#[trigger] final(buffer)@[i]) == 0,
        starts <==> bytes@[0] == magic@[0] && bytes@[1] == magic@[1] && bytes@[2] == magic@[2]
            && bytes@[3] == magic@[3],
        four@ == bytes@.subrange(0, 4),
{
    let part = bytes@.subrange(from as int, to as int);
    model::lemma_le_of_un_le(part);
    if zero {
        assert forall|i: int| from <= i < to implies (#[trigger] bytes@[i]) == 0 by {
            assert(part[i - from] == bytes@[i]);
        }
    }
    assert(final(buffer)@.take(old(buffer)@.len() as int) =~= old(buffer)@);
    let front = bytes@.subrange(0, 4);
    if bytes@[0] == magic@[0] && bytes@[1] == magic@[1] && bytes@[2] == magic@[2] && bytes@[3]
        == magic@[3] {
        assert(front =~= magic@);
    }
    if starts {
        assert(front[0] == magic@[0] && front[1] == magic@[1] && front[2] == magic@[2] && front[3]
            == magic@[3]);
    }
    assert(four@ =~= front);
}

} // verus!

//! Bounded, position-tracking decoder.

use crate::error::StorageError;
use crate::wire::model;
use crate::wire::model::{Keyed, Limits, Parsed, Wire};
use vstd::prelude::*;
use vstd::slice::*;
use vstd::utf8::*;

verus! {

/// [`String::from_utf8`] accepts exactly the valid UTF-8 byte sequences, and the string that it
/// makes has those bytes as its encoding.
#[verifier::external_body]
pub(crate) fn string_from_utf8(bytes: Vec<u8>) -> (out: Option<String>)
    ensures
        match out {
            Some(text) => valid_utf8(bytes@) && encode_utf8(text@) == bytes@,
            None => !valid_utf8(bytes@),
        },
{
    String::from_utf8(bytes).ok()
}

/// Larger widths span more values.
proof fn lemma_span_grows(small: nat, large: nat)
    requires
        small <= large,
    ensures
        1 <= model::span(small) <= model::span(large),
    decreases large,
{
    if large > 0 {
        if small < large {
            lemma_span_grows(small, (large - 1) as nat);
        } else {
            lemma_span_grows((small - 1) as nat, (large - 1) as nat);
        }
    }
}

/// The number whose base-256 digits are `digits`, least significant first.
pub fn get_le(digits: &[u8]) -> (value: u128)
    requires
        digits@.len() <= 16,
    ensures
        value == model::un_le(digits@),
        value < model::span(digits@.len()),
{
    let mut value: u128 = 0;
    let mut i: usize = digits.len();
    assert(digits@.subrange(i as int, digits@.len() as int) =~= seq![]);
    while i > 0
        invariant
            i <= digits@.len() <= 16,
            value == model::un_le(digits@.subrange(i as int, digits@.len() as int)),
            value < model::span((digits@.len() - i) as nat),
        decreases i,
    {
        i -= 1;
        let ghost tail = digits@.subrange(i as int, digits@.len() as int);
        proof {
            assert(tail.drop_first() =~= digits@.subrange(i + 1, digits@.len() as int));
            lemma_span_grows((digits@.len() - i) as nat, 16);
            model::lemma_spans();
            assert(value <= model::span((digits@.len() - i - 1) as nat) - 1);
        }
        value = value * 256 + digits[i] as u128;
    }
    assert(digits@.subrange(0, digits@.len() as int) =~= digits@);
    value
}

/// The signed integer with the given two's complement bits.
pub fn i64_of_bits(bits: u64) -> (value: i64)
    ensures
        value == model::bits_i64(bits as nat),
{
    if bits < 0x8000_0000_0000_0000 {
        bits as i64
    } else {
        (bits as i128 - 0x1_0000_0000_0000_0000) as i64
    }
}

/// The models of a result.
pub open spec fn viewed<T: View>(out: Result<T, StorageError>) -> Result<T::V, StorageError> {
    match out {
        Ok(value) => Ok(value@),
        Err(error) => Err(error),
    }
}

/// A decoder over a byte slice.
pub struct Reader<'a> {
    bytes: &'a [u8],
    offset: usize,
    max_list_items: usize,
    max_nested_items: usize,
    max_string_bytes: usize,
}

impl<'a> Reader<'a> {
    /// The position is within the data.
    pub closed spec fn wf(self) -> bool {
        self.offset <= self.bytes@.len()
    }

    /// Everything that is decoded.
    pub closed spec fn data(self) -> Seq<u8> {
        self.bytes@
    }

    /// The position of the next byte.
    pub closed spec fn pos(self) -> int {
        self.offset as int
    }

    /// The budgets for declared lengths.
    pub closed spec fn limits(self) -> Limits {
        Limits {
            lists: self.max_list_items as nat,
            items: self.max_nested_items as nat,
            strings: self.max_string_bytes as nat,
        }
    }

    /// `next` is this decoder, possibly moved forward.
    pub open spec fn advanced(self, next: Reader) -> bool {
        &&& next.wf()
        &&& next.data() == self.data()
        &&& next.limits() == self.limits()
        &&& 0 <= self.pos() <= next.pos() <= self.data().len()
    }

    /// `next` and `out` are what decoding `parsed` leaves and returns.
    pub open spec fn got<V>(
        self,
        next: Reader,
        parsed: Parsed<V>,
        out: Result<V, StorageError>,
    ) -> bool {
        &&& self.advanced(next)
        &&& match parsed {
            Ok((value, end)) => out == Ok::<V, StorageError>(value) && next.pos() == end,
            Err(error) => out == Err::<V, StorageError>(error),
        }
    }

    /// Creates a decoder without budgets.
    pub fn new(bytes: &'a [u8]) -> (out: Reader<'a>)
        ensures
            out.wf(),
            out.data() == bytes@,
            out.pos() == 0,
            out.limits() == unbounded(),
    {
        Reader::new_bounded(bytes, usize::MAX, usize::MAX, usize::MAX)
    }

    /// Creates a decoder that refuses larger length prefixes.
    pub fn new_bounded(
        bytes: &'a [u8],
        max_list_items: usize,
        max_nested_items: usize,
        max_string_bytes: usize,
    ) -> (out: Reader<'a>)
        ensures
            out.wf(),
            out.data() == bytes@,
            out.pos() == 0,
            out.limits() == (Limits {
                lists: max_list_items as nat,
                items: max_nested_items as nat,
                strings: max_string_bytes as nat,
            }),
    {
        Reader { bytes, offset: 0, max_list_items, max_nested_items, max_string_bytes }
    }

    /// Returns whether everything was decoded.
    pub fn is_empty(&self) -> (out: bool)
        requires
            self.wf(),
        ensures
            out == (self.pos() == self.data().len()),
    {
        self.offset == self.bytes.len()
    }

    /// Bounds an initial allocation for `count` entries by the bytes that are left.
    pub fn safe_capacity(&self, count: usize) -> (out: usize)
        requires
            self.wf(),
        ensures
            0 <= self.pos() <= self.data().len(),
            out == if count <= self.data().len() - self.pos() {
                count as int
            } else {
                self.data().len() - self.pos()
            },
    {
        let left = self.bytes.len() - self.offset;
        if count <= left {
            count
        } else {
            left
        }
    }

    /// Takes the next `length` bytes.
    pub fn take(&mut self, length: usize) -> (out: Result<&'a [u8], StorageError>)
        requires
            old(self).wf(),
        ensures
            old(self).got(
                *final(self),
                model::parse_raw(old(self).data(), old(self).pos(), length as nat),
                viewed(out),
            ),
    {
        if length > self.bytes.len() - self.offset {
            return Err(StorageError::TruncatedPayload);
        }
        let end = self.offset + length;
        let value = slice_subrange(self.bytes, self.offset, end);
        self.offset = end;
        Ok(value)
    }

    /// Decodes one byte.
    pub fn u8(&mut self) -> (out: Result<u8, StorageError>)
        requires
            old(self).wf(),
        ensures
            old(self).got(
                *final(self),
                u8::parse(old(self).data(), old(self).pos(), old(self).limits()),
                out,
            ),
    {
        proof {
            model::lemma_spans();
        }
        let digits = self.take(1)?;
        Ok(get_le(digits) as u8)
    }

    /// Decodes a little-endian `u32`.
    pub fn u32(&mut self) -> (out: Result<u32, StorageError>)
        requires
            old(self).wf(),
        ensures
            old(self).got(
                *final(self),
                u32::parse(old(self).data(), old(self).pos(), old(self).limits()),
                out,
            ),
    {
        proof {
            model::lemma_spans();
        }
        let digits = self.take(4)?;
        Ok(get_le(digits) as u32)
    }

    /// Decodes a little-endian `u64`.
    pub fn u64(&mut self) -> (out: Result<u64, StorageError>)
        requires
            old(self).wf(),
        ensures
            old(self).got(
                *final(self),
                u64::parse(old(self).data(), old(self).pos(), old(self).limits()),
                out,
            ),
    {
        proof {
            model::lemma_spans();
        }
        let digits = self.take(8)?;
        Ok(get_le(digits) as u64)
    }

    /// Decodes a little-endian `u128`.
    pub fn u128(&mut self) -> (out: Result<u128, StorageError>)
        requires
            old(self).wf(),
        ensures
            old(self).got(
                *final(self),
                u128::parse(old(self).data(), old(self).pos(), old(self).limits()),
                out,
            ),
    {
        let digits = self.take(16)?;
        Ok(get_le(digits))
    }

    /// Decodes a little-endian `i64`.
    pub fn i64(&mut self) -> (out: Result<i64, StorageError>)
        requires
            old(self).wf(),
        ensures
            old(self).got(
                *final(self),
                i64::parse(old(self).data(), old(self).pos(), old(self).limits()),
                out,
            ),
    {
        proof {
            model::lemma_spans();
        }
        let digits = self.take(8)?;
        Ok(i64_of_bits(get_le(digits) as u64))
    }

    /// Decodes the length prefix of `field` and requires that it is at most `maximum`.
    pub fn length(&mut self, field: &'static str, maximum: usize) -> (out: Result<
        usize,
        StorageError,
    >)
        requires
            old(self).wf(),
        ensures
            old(self).got(
                *final(self),
                model::parse_length(old(self).data(), old(self).pos(), maximum as nat, field),
                counted(out),
            ),
    {
        proof {
            model::lemma_spans();
        }
        let digits = self.take(4)?;
        let count = get_le(digits) as usize;
        if count > maximum {
            return Err(StorageError::InvalidLength { field, length: count as u64 });
        }
        Ok(count)
    }

    /// Decodes the length prefix of the nested list `field`.
    pub fn count(&mut self, field: &'static str) -> (out: Result<usize, StorageError>)
        requires
            old(self).wf(),
        ensures
            old(self).got(
                *final(self),
                model::parse_count(old(self).data(), old(self).pos(), old(self).limits(), field),
                counted(out),
            ),
    {
        let maximum = self.max_nested_items;
        self.length(field, maximum)
    }

    /// Decodes the length prefix of the top-level list `field`. A prefix that is neither within
    /// the budget for top-level lists nor within that for nested lists is refused.
    pub fn top_count(&mut self, field: &'static str) -> (out: Result<usize, StorageError>)
        requires
            old(self).wf(),
        ensures
            old(self).got(
                *final(self),
                model::parse_length(
                    old(self).data(),
                    old(self).pos(),
                    old(self).limits().ceiling(),
                    field,
                ),
                counted(out),
            ),
    {
        let maximum = if self.max_nested_items < self.max_list_items {
            self.max_list_items
        } else {
            self.max_nested_items
        };
        self.length(field, maximum)
    }

    /// Decodes the position `field` in a list. It is bounded like the length of a top-level list.
    pub fn index(&mut self, field: &'static str) -> (out: Result<usize, StorageError>)
        requires
            old(self).wf(),
        ensures
            old(self).got(
                *final(self),
                model::parse_index(old(self).data(), old(self).pos(), old(self).limits(), field),
                counted(out),
            ),
    {
        self.top_count(field)
    }

    /// Decodes a length-prefixed byte string.
    pub fn bytes(&mut self, field: &'static str) -> (out: Result<&'a [u8], StorageError>)
        requires
            old(self).wf(),
        ensures
            old(self).got(
                *final(self),
                parse_bytes(old(self).data(), old(self).pos(), old(self).limits(), field),
                viewed(out),
            ),
    {
        let length = self.count(field)?;
        self.take(length)
    }

    /// Decodes a length-prefixed UTF-8 string.
    pub fn string(&mut self, field: &'static str) -> (out: Result<String, StorageError>)
        requires
            old(self).wf(),
        ensures
            old(self).got(
                *final(self),
                model::parse_string(old(self).data(), old(self).pos(), old(self).limits(), field),
                viewed(out),
            ),
    {
        let maximum = self.max_string_bytes;
        let length = self.length(field, maximum)?;
        let bytes = self.take(length)?;
        match string_from_utf8(slice_to_vec(bytes)) {
            Some(text) => {
                proof {
                    encode_utf8_decode_utf8(text@);
                }
                Ok(text)
            },
            None => Err(StorageError::InvalidUtf8),
        }
    }

    /// Decodes a length-prefixed list.
    pub fn list<T: Decode>(&mut self, field: &'static str) -> (out: Result<Vec<T>, StorageError>) where
        T::V: Wire,

        requires
            old(self).wf(),
        ensures
            old(self).got(
                *final(self),
                model::parse_list::<T::V>(old(self).data(), old(self).pos(), old(self).limits(), field),
                listed(out),
            ),
    {
        let count = self.count(field)?;
        self.items(count)
    }

    /// Decodes `count` items that stand one after the other.
    pub fn items<T: Decode>(&mut self, count: usize) -> (out: Result<Vec<T>, StorageError>) where
        T::V: Wire,

        requires
            old(self).wf(),
        ensures
            old(self).got(
                *final(self),
                model::parse_items::<T::V>(
                    old(self).data(),
                    old(self).pos(),
                    old(self).limits(),
                    count as nat,
                ),
                listed(out),
            ),
    {
        let capacity = self.safe_capacity(count);
        self.items_into(Vec::with_capacity(capacity), count)
    }

    /// Decodes `count` items that stand one after the other into an empty list.
    pub fn items_into<T: Decode>(&mut self, list: Vec<T>, count: usize) -> (out: Result<
        Vec<T>,
        StorageError,
    >) where T::V: Wire
        requires
            old(self).wf(),
            list@.len() == 0,
        ensures
            old(self).got(
                *final(self),
                model::parse_items::<T::V>(
                    old(self).data(),
                    old(self).pos(),
                    old(self).limits(),
                    count as nat,
                ),
                listed(out),
            ),
    {
        let mut items = list;
        let mut i: usize = 0;
        assert(model::views(items@) =~= seq![]);
        while i < count
            invariant
                i <= count,
                old(self).wf(),
                old(self).got(
                    *self,
                    model::parse_items::<T::V>(
                        old(self).data(),
                        old(self).pos(),
                        old(self).limits(),
                        i as nat,
                    ),
                    Ok(model::views(items@)),
                ),
            decreases count - i,
        {
            broadcast use model::lemma_views_push;

            match T::decode(self) {
                Ok(item) => {
                    items.push(item);
                },
                Err(error) => {
                    proof {
                        lemma_items_stop::<T::V>(
                            old(self).data(),
                            old(self).pos(),
                            old(self).limits(),
                            i as nat + 1,
                            count as nat,
                        );
                    }
                    return Err(error);
                },
            }
            i += 1;
        }
        Ok(items)
    }

    /// Decodes a length-prefixed list whose keys rise by at least `gap`.
    pub fn ordered<T: Decode + Ranked>(
        &mut self,
        field: &'static str,
        gap: u8,
        reason: &'static str,
    ) -> (out: Result<Vec<T>, StorageError>) where <T as View>::V: Keyed
        requires
            old(self).wf(),
        ensures
            old(self).got(
                *final(self),
                model::parse_ordered::<T::V>(
                    old(self).data(),
                    old(self).pos(),
                    old(self).limits(),
                    field,
                    gap as nat,
                    reason,
                ),
                listed(out),
            ),
            out matches Ok(items) ==> model::ordered(model::views(items@), gap as nat),
    {
        let count = self.count(field)?;
        self.ordered_items(count, gap, reason)
    }

    /// Decodes `count` items whose keys rise by at least `gap`.
    pub fn ordered_items<T: Decode + Ranked>(
        &mut self,
        count: usize,
        gap: u8,
        reason: &'static str,
    ) -> (out: Result<Vec<T>, StorageError>) where <T as View>::V: Keyed
        requires
            old(self).wf(),
        ensures
            old(self).got(
                *final(self),
                model::parse_ordered_items::<T::V>(
                    old(self).data(),
                    old(self).pos(),
                    old(self).limits(),
                    count as nat,
                    gap as nat,
                    reason,
                ),
                listed(out),
            ),
            out matches Ok(items) ==> model::ordered(model::views(items@), gap as nat),
    {
        let capacity = self.safe_capacity(count);
        let mut items: Vec<T> = Vec::with_capacity(capacity);
        let mut i: usize = 0;
        assert(model::views(items@) =~= seq![]);
        while i < count
            invariant
                i <= count,
                items@.len() == i,
                old(self).wf(),
                old(self).got(
                    *self,
                    model::parse_ordered_items::<T::V>(
                        old(self).data(),
                        old(self).pos(),
                        old(self).limits(),
                        i as nat,
                        gap as nat,
                        reason,
                    ),
                    Ok(model::views(items@)),
                ),
            decreases count - i,
        {
            broadcast use model::lemma_views_push;

            proof {
                lemma_ordered_stop::<T::V>(
                    old(self).data(),
                    old(self).pos(),
                    old(self).limits(),
                    i as nat + 1,
                    count as nat,
                    gap as nat,
                    reason,
                );
            }
            let item = T::decode(self)?;
            if i > 0 {
                let last = items[i - 1].rank();
                let rank = item.rank();
                if rank < last || rank - last < gap as u128 {
                    return Err(StorageError::CorruptRecord(reason));
                }
            }
            items.push(item);
            i += 1;
        }
        proof {
            model::lemma_parse_ordered_items::<T::V>(
                old(self).data(),
                old(self).pos(),
                old(self).limits(),
                count as nat,
                gap as nat,
                reason,
                0,
            );
        }
        Ok(items)
    }
}

/// Budgets that no four-byte length prefix exceeds.
pub open spec fn unbounded() -> Limits {
    Limits { lists: usize::MAX as nat, items: usize::MAX as nat, strings: usize::MAX as nat }
}

/// The model of a decoded length.
pub open spec fn counted(out: Result<usize, StorageError>) -> Result<nat, StorageError> {
    match out {
        Ok(count) => Ok(count as nat),
        Err(error) => Err(error),
    }
}

/// The model of a decoded list.
pub open spec fn listed<T: View>(out: Result<Vec<T>, StorageError>) -> Result<
    Seq<T::V>,
    StorageError,
> {
    match out {
        Ok(items) => Ok(model::views(items@)),
        Err(error) => Err(error),
    }
}

/// A length-prefixed byte string.
pub open spec fn parse_bytes(
    data: Seq<u8>,
    pos: int,
    limits: Limits,
    field: &'static str,
) -> Parsed<Seq<u8>> {
    match model::parse_count(data, pos, limits, field) {
        Err(error) => Err(error),
        Ok((length, start)) => model::parse_raw(data, start, length),
    }
}

/// Decoding stops at the first item that fails.
proof fn lemma_items_stop<T: Wire>(
    data: Seq<u8>,
    pos: int,
    limits: Limits,
    count: nat,
    total: nat,
)
    requires
        count <= total,
        model::parse_items::<T>(data, pos, limits, count) is Err,
    ensures
        model::parse_items::<T>(data, pos, limits, total) == model::parse_items::<T>(data, pos, limits, count),
    decreases total,
{
    if count < total {
        lemma_items_stop::<T>(data, pos, limits, count, (total - 1) as nat);
    }
}

/// Decoding stops at the first item that fails.
proof fn lemma_ordered_stop<T: Keyed>(
    data: Seq<u8>,
    pos: int,
    limits: Limits,
    count: nat,
    total: nat,
    gap: nat,
    reason: &'static str,
)
    requires
        count <= total,
    ensures
        model::parse_ordered_items::<T>(data, pos, limits, count, gap, reason) is Err
            ==> model::parse_ordered_items::<T>(data, pos, limits, total, gap, reason)
            == model::parse_ordered_items::<T>(data, pos, limits, count, gap, reason),
    decreases total,
{
    if count < total {
        lemma_ordered_stop::<T>(data, pos, limits, count, (total - 1) as nat, gap, reason);
    }
}

/// Values with a number by which lists order them.
pub trait Ranked: View where Self::V: Keyed {
    /// Returns the ordering number.
    fn rank(&self) -> (out: u128)
        ensures
            out == self@.key(),
    ;
}

/// Values that can be decoded from a [`Reader`].
pub trait Decode: View + Sized where Self::V: Wire {
    /// Decodes one value.
    fn decode(reader: &mut Reader) -> (out: Result<Self, StorageError>)
        requires
            old(reader).wf(),
        ensures
            old(reader).got(
                *final(reader),
                Self::V::parse(old(reader).data(), old(reader).pos(), old(reader).limits()),
                viewed(out),
            ),
    ;
}

} // verus!

//! The mathematical model of encoded payloads.

use crate::error::StorageError;
use vstd::prelude::*;
use vstd::utf8::*;

verus! {

/// The `width` least significant base-256 digits of `value`, least significant first.
pub open spec fn le(value: nat, width: nat) -> Seq<u8>
    decreases width,
{
    if width == 0 {
        seq![]
    } else {
        seq![(value % 256) as u8] + le(value / 256, (width - 1) as nat)
    }
}

/// The number whose base-256 digits are `digits`, least significant first.
pub open spec fn un_le(digits: Seq<u8>) -> nat
    decreases digits.len(),
{
    if digits.len() == 0 {
        0
    } else {
        digits[0] as nat + 256 * un_le(digits.drop_first())
    }
}

/// The number of values that `width` bytes can hold.
pub open spec fn span(width: nat) -> nat
    decreases width,
{
    if width == 0 {
        1
    } else {
        256 * span((width - 1) as nat)
    }
}

/// The spans of the widths used on the wire.
pub proof fn lemma_spans()
    ensures
        span(1) == 0x100,
        span(2) == 0x1_0000,
        span(4) == 0x1_0000_0000,
        span(8) == 0x1_0000_0000_0000_0000,
        span(16) == 0x1_0000_0000_0000_0000_0000_0000_0000_0000,
{
    reveal_with_fuel(span, 17);
}

/// `le` yields exactly `width` bytes.
pub broadcast proof fn lemma_le_len(value: nat, width: nat)
    ensures
        (#[trigger] le(value, width)).len() == width,
    decreases width,
{
    if width > 0 {
        lemma_le_len(value / 256, (width - 1) as nat);
    }
}

/// Reading back what `le` wrote gives the written value.
pub proof fn lemma_un_le_of_le(value: nat, width: nat)
    requires
        value < span(width),
    ensures
        un_le(le(value, width)) == value,
    decreases width,
{
    if width > 0 {
        lemma_un_le_of_le(value / 256, (width - 1) as nat);
        assert(le(value, width).drop_first() =~= le(value / 256, (width - 1) as nat));
    }
}

/// Writing what `un_le` read gives the same bytes.
pub proof fn lemma_le_of_un_le(digits: Seq<u8>)
    ensures
        le(un_le(digits), digits.len()) == digits,
        un_le(digits) < span(digits.len()),
    decreases digits.len(),
{
    if digits.len() > 0 {
        let rest = digits.drop_first();
        lemma_le_of_un_le(rest);
        let value = un_le(digits);
        assert(value % 256 == digits[0] as nat && value / 256 == un_le(rest));
        assert(le(value, digits.len()) =~= digits);
    } else {
        assert(le(0, 0) =~= digits);
    }
}

/// The `width` least significant base-256 digits of `value`, most significant first.
pub open spec fn be(value: nat, width: nat) -> Seq<u8> {
    le(value, width).reverse()
}

/// The number whose base-256 digits are `digits`, most significant first.
pub open spec fn un_be(digits: Seq<u8>) -> nat {
    un_le(digits.reverse())
}

/// `part` stands in `data` at `pos`.
#[verifier::opaque]
pub open spec fn at(data: Seq<u8>, pos: int, part: Seq<u8>) -> bool {
    &&& 0 <= pos
    &&& pos + part.len() <= data.len()
    &&& data.subrange(pos, pos + part.len()) == part
}

/// A concatenation stands at a place when its halves stand one after the other.
pub broadcast proof fn lemma_at_add(data: Seq<u8>, pos: int, a: Seq<u8>, b: Seq<u8>)
    ensures
        #[trigger] at(data, pos, a + b) == (at(data, pos, a) && at(data, pos + a.len(), b)),
{
    reveal(at);
    if at(data, pos, a + b) {
        assert(data.subrange(pos, pos + a.len()) =~= (a + b).subrange(0, a.len() as int));
        assert((a + b).subrange(0, a.len() as int) =~= a);
        assert(data.subrange(pos + a.len(), pos + a.len() + b.len()) =~= (a + b).subrange(
            a.len() as int,
            (a + b).len() as int,
        ));
        assert((a + b).subrange(a.len() as int, (a + b).len() as int) =~= b);
    }
    if at(data, pos, a) && at(data, pos + a.len(), b) {
        assert(data.subrange(pos, pos + (a + b).len()) =~= data.subrange(pos, pos + a.len())
            + data.subrange(pos + a.len(), pos + a.len() + b.len()));
    }
}

/// Bytes written by an encoder, and the failure that stopped it, if any.
#[verifier::ext_equal]
pub struct Enc {
    /// Everything appended to the destination.
    pub bytes: Seq<u8>,
    /// The failure after which nothing more was appended.
    pub fail: Option<StorageError>,
}

impl Enc {
    /// An encoding that succeeds with `bytes`.
    pub open spec fn of(bytes: Seq<u8>) -> Enc {
        Enc { bytes, fail: None }
    }

    /// An encoding that fails before it writes anything.
    pub open spec fn failed(error: StorageError) -> Enc {
        Enc { bytes: seq![], fail: Some(error) }
    }

    /// This encoding followed, unless it fails, by `next`.
    pub open spec fn followed_by(self, next: Enc) -> Enc {
        if self.fail is Some {
            self
        } else {
            Enc { bytes: self.bytes + next.bytes, fail: next.fail }
        }
    }

    /// The encoding is complete.
    pub open spec fn ok(self) -> bool {
        self.fail is None
    }

    /// What the encoder returns.
    pub open spec fn status(self) -> Result<(), StorageError> {
        match self.fail {
            Some(error) => Err(error),
            None => Ok(()),
        }
    }
}

/// Budgets that a decoder applies to declared lengths.
pub struct Limits {
    /// Largest accepted length of a top-level list.
    pub lists: nat,
    /// Largest accepted length of a nested list or block of bytes.
    pub items: nat,
    /// Largest accepted string length in bytes.
    pub strings: nat,
}

impl Limits {
    /// The larger of the budgets for top-level and for nested lists.
    pub open spec fn ceiling(self) -> nat {
        if self.items < self.lists {
            self.lists
        } else {
            self.items
        }
    }
}

/// A decoded value with the position behind it, or the failure.
pub type Parsed<T> = Result<(T, int), StorageError>;

/// The next `count` bytes.
pub open spec fn parse_raw(data: Seq<u8>, pos: int, count: nat) -> Parsed<Seq<u8>> {
    if pos + count <= data.len() {
        Ok((data.subrange(pos, pos + count), pos + count))
    } else {
        Err(StorageError::TruncatedPayload)
    }
}

/// What decoding `data` cut off at `cut` must give, where the whole gives `parsed`.
pub open spec fn cut_off<T>(parsed: (T, int), cut: int) -> Parsed<T> {
    if parsed.1 <= cut {
        Ok(parsed)
    } else {
        Err(StorageError::TruncatedPayload)
    }
}

/// Values with a canonical encoding.
pub trait Wire: Sized {
    /// The value satisfies the rules of its type.
    spec fn valid(self) -> bool;

    /// Every length prefix of the encoding is within `limits`.
    spec fn fits(self, limits: Limits) -> bool;

    /// The canonical encoding.
    spec fn enc(self) -> Enc;

    /// The value encoded in `data` at `pos`.
    spec fn parse(data: Seq<u8>, pos: int, limits: Limits) -> Parsed<Self>;

    /// What is accepted is a valid value, was encoded canonically, and is reported as
    /// truncated as soon as one of its bytes is missing.
    proof fn lemma_parse(data: Seq<u8>, pos: int, limits: Limits, cut: int)
        requires
            0 <= pos <= data.len(),
        ensures
            Self::parse(data, pos, limits) matches Ok((value, end)) ==> {
                &&& pos <= end <= data.len()
                &&& value.valid()
                &&& value.fits(limits)
                &&& value.enc().ok()
                &&& end == pos + value.enc().bytes.len()
                &&& at(data, pos, value.enc().bytes)
                &&& pos <= cut <= data.len() ==> Self::parse(data.take(cut), pos, limits)
                    == cut_off((value, end), cut)
            },
    ;

    /// A canonical encoding decodes to the value it was made from.
    proof fn lemma_enc(self, data: Seq<u8>, pos: int, limits: Limits)
        requires
            self.valid(),
            self.fits(limits),
            self.enc().ok(),
            at(data, pos, self.enc().bytes),
        ensures
            Self::parse(data, pos, limits) == Ok::<(Self, int), StorageError>(
                (self, pos + self.enc().bytes.len()),
            ),
    ;

    /// Budgets that no length prefix exceeds admit every value that can be encoded.
    proof fn lemma_fits(self, limits: Limits)
        requires
            self.enc().ok(),
            limits.items >= u32::MAX,
            limits.strings >= u32::MAX,
        ensures
            self.fits(limits),
    ;
}

/// `count` bytes taken at `pos` are those that stand there.
pub proof fn lemma_parse_raw(data: Seq<u8>, pos: int, count: nat, cut: int)
    requires
        0 <= pos <= data.len(),
    ensures
        parse_raw(data, pos, count) matches Ok((value, end)) ==> {
            &&& pos <= end <= data.len()
            &&& value.len() == count
            &&& end == pos + count
            &&& at(data, pos, value)
            &&& pos <= cut <= data.len() ==> parse_raw(data.take(cut), pos, count) == cut_off(
                (value, end),
                cut,
            )
        },
{
    reveal(at);
    if pos + count <= data.len() {
        if pos + count <= cut <= data.len() {
            assert(data.take(cut).subrange(pos, pos + count) =~= data.subrange(pos, pos + count));
        }
    }
}

/// What stands at `pos` is what is taken there.
pub proof fn lemma_raw_enc(part: Seq<u8>, data: Seq<u8>, pos: int)
    requires
        at(data, pos, part),
    ensures
        parse_raw(data, pos, part.len()) == Ok::<(Seq<u8>, int), StorageError>(
            (part, pos + part.len()),
        ),
{
    reveal(at);
}

/// An unsigned integer of `width` bytes.
pub open spec fn parse_uint(data: Seq<u8>, pos: int, width: nat) -> Parsed<nat> {
    match parse_raw(data, pos, width) {
        Ok((digits, end)) => Ok((un_le(digits), end)),
        Err(error) => Err(error),
    }
}

proof fn lemma_parse_uint(data: Seq<u8>, pos: int, width: nat, cut: int)
    requires
        0 <= pos <= data.len(),
    ensures
        parse_uint(data, pos, width) matches Ok((value, end)) ==> {
            &&& pos <= end <= data.len()
            &&& value < span(width)
            &&& end == pos + width
            &&& at(data, pos, le(value, width))
            &&& pos <= cut <= data.len() ==> parse_uint(data.take(cut), pos, width) == cut_off(
                (value, end),
                cut,
            )
        },
{
    lemma_parse_raw(data, pos, width, cut);
    if let Ok((digits, _)) = parse_raw(data, pos, width) {
        lemma_le_of_un_le(digits);
    }
}

/// An integer of `width` bytes is below the span of that width.
pub proof fn lemma_uint_range(data: Seq<u8>, pos: int, width: nat)
    requires
        0 <= pos <= data.len(),
    ensures
        parse_uint(data, pos, width) matches Ok((value, _)) ==> value < span(width),
{
    lemma_parse_uint(data, pos, width, pos);
}

proof fn lemma_uint_enc(value: nat, width: nat, data: Seq<u8>, pos: int)
    requires
        value < span(width),
        at(data, pos, le(value, width)),
    ensures
        parse_uint(data, pos, width) == Ok::<(nat, int), StorageError>((value, pos + width as int)),
{
    lemma_le_len(value, width);
    lemma_raw_enc(le(value, width), data, pos);
    lemma_un_le_of_le(value, width);
}

impl Wire for u8 {
    open spec fn valid(self) -> bool {
        true
    }

    open spec fn fits(self, limits: Limits) -> bool {
        true
    }

    open spec fn enc(self) -> Enc {
        Enc::of(le(self as nat, 1))
    }

    open spec fn parse(data: Seq<u8>, pos: int, limits: Limits) -> Parsed<u8> {
        match parse_uint(data, pos, 1) {
            Ok((value, end)) => Ok((value as u8, end)),
            Err(error) => Err(error),
        }
    }

    proof fn lemma_parse(data: Seq<u8>, pos: int, limits: Limits, cut: int) {
        broadcast use lemma_le_len;

        lemma_spans();
        lemma_parse_uint(data, pos, 1, cut);
    }

    proof fn lemma_enc(self, data: Seq<u8>, pos: int, limits: Limits) {
        broadcast use lemma_le_len;

        lemma_spans();
        lemma_uint_enc(self as nat, 1, data, pos);
    }

    proof fn lemma_fits(self, limits: Limits) {
    }
}

impl Wire for u32 {
    open spec fn valid(self) -> bool {
        true
    }

    open spec fn fits(self, limits: Limits) -> bool {
        true
    }

    open spec fn enc(self) -> Enc {
        Enc::of(le(self as nat, 4))
    }

    open spec fn parse(data: Seq<u8>, pos: int, limits: Limits) -> Parsed<u32> {
        match parse_uint(data, pos, 4) {
            Ok((value, end)) => Ok((value as u32, end)),
            Err(error) => Err(error),
        }
    }

    proof fn lemma_parse(data: Seq<u8>, pos: int, limits: Limits, cut: int) {
        broadcast use lemma_le_len;

        lemma_spans();
        lemma_parse_uint(data, pos, 4, cut);
    }

    proof fn lemma_enc(self, data: Seq<u8>, pos: int, limits: Limits) {
        broadcast use lemma_le_len;

        lemma_spans();
        lemma_uint_enc(self as nat, 4, data, pos);
    }

    proof fn lemma_fits(self, limits: Limits) {
    }
}

impl Wire for u64 {
    open spec fn valid(self) -> bool {
        true
    }

    open spec fn fits(self, limits: Limits) -> bool {
        true
    }

    open spec fn enc(self) -> Enc {
        Enc::of(le(self as nat, 8))
    }

    open spec fn parse(data: Seq<u8>, pos: int, limits: Limits) -> Parsed<u64> {
        match parse_uint(data, pos, 8) {
            Ok((value, end)) => Ok((value as u64, end)),
            Err(error) => Err(error),
        }
    }

    proof fn lemma_parse(data: Seq<u8>, pos: int, limits: Limits, cut: int) {
        broadcast use lemma_le_len;

        lemma_spans();
        lemma_parse_uint(data, pos, 8, cut);
    }

    proof fn lemma_enc(self, data: Seq<u8>, pos: int, limits: Limits) {
        broadcast use lemma_le_len;

        lemma_spans();
        lemma_uint_enc(self as nat, 8, data, pos);
    }

    proof fn lemma_fits(self, limits: Limits) {
    }
}

impl Wire for u128 {
    open spec fn valid(self) -> bool {
        true
    }

    open spec fn fits(self, limits: Limits) -> bool {
        true
    }

    open spec fn enc(self) -> Enc {
        Enc::of(le(self as nat, 16))
    }

    open spec fn parse(data: Seq<u8>, pos: int, limits: Limits) -> Parsed<u128> {
        match parse_uint(data, pos, 16) {
            Ok((value, end)) => Ok((value as u128, end)),
            Err(error) => Err(error),
        }
    }

    proof fn lemma_parse(data: Seq<u8>, pos: int, limits: Limits, cut: int) {
        broadcast use lemma_le_len;

        lemma_spans();
        lemma_parse_uint(data, pos, 16, cut);
    }

    proof fn lemma_enc(self, data: Seq<u8>, pos: int, limits: Limits) {
        broadcast use lemma_le_len;

        lemma_spans();
        lemma_uint_enc(self as nat, 16, data, pos);
    }

    proof fn lemma_fits(self, limits: Limits) {
    }
}

/// The two's complement bits of `value`, read as an unsigned number.
pub open spec fn i64_bits(value: i64) -> nat {
    if value >= 0 {
        value as nat
    } else {
        (value + 0x1_0000_0000_0000_0000) as nat
    }
}

/// The number with the two's complement bits `bits`.
pub open spec fn bits_i64(bits: nat) -> i64 {
    if bits < 0x8000_0000_0000_0000 {
        bits as i64
    } else {
        (bits - 0x1_0000_0000_0000_0000) as i64
    }
}

impl Wire for i64 {
    open spec fn valid(self) -> bool {
        true
    }

    open spec fn fits(self, limits: Limits) -> bool {
        true
    }

    open spec fn enc(self) -> Enc {
        Enc::of(le(i64_bits(self), 8))
    }

    open spec fn parse(data: Seq<u8>, pos: int, limits: Limits) -> Parsed<i64> {
        match parse_uint(data, pos, 8) {
            Ok((bits, end)) => Ok((bits_i64(bits), end)),
            Err(error) => Err(error),
        }
    }

    proof fn lemma_parse(data: Seq<u8>, pos: int, limits: Limits, cut: int) {
        broadcast use lemma_le_len;

        lemma_spans();
        lemma_parse_uint(data, pos, 8, cut);
    }

    proof fn lemma_enc(self, data: Seq<u8>, pos: int, limits: Limits) {
        broadcast use lemma_le_len;

        lemma_spans();
        lemma_uint_enc(i64_bits(self), 8, data, pos);
    }

    proof fn lemma_fits(self, limits: Limits) {
    }
}

/// A four-byte length prefix for `field`.
pub open spec fn enc_len(field: &'static str, count: nat) -> Enc {
    if count <= u32::MAX {
        Enc::of(le(count, 4))
    } else {
        Enc::failed(StorageError::InvalidLength { field, length: count as u64 })
    }
}

/// A length prefix, checked against `maximum`.
pub open spec fn parse_length(
    data: Seq<u8>,
    pos: int,
    maximum: nat,
    field: &'static str,
) -> Parsed<nat> {
    match parse_uint(data, pos, 4) {
        Err(error) => Err(error),
        Ok((count, end)) => if count > maximum {
            Err(StorageError::InvalidLength { field, length: count as u64 })
        } else {
            Ok((count, end))
        },
    }
}

/// The length prefix of a nested list, checked against `limits`.
pub open spec fn parse_count(
    data: Seq<u8>,
    pos: int,
    limits: Limits,
    field: &'static str,
) -> Parsed<nat> {
    parse_length(data, pos, limits.items, field)
}

/// A position in a list, checked against the larger of the budgets for lists.
pub open spec fn parse_index(
    data: Seq<u8>,
    pos: int,
    limits: Limits,
    field: &'static str,
) -> Parsed<nat> {
    parse_length(data, pos, limits.ceiling(), field)
}

pub proof fn lemma_parse_length(
    data: Seq<u8>,
    pos: int,
    maximum: nat,
    field: &'static str,
    cut: int,
)
    requires
        0 <= pos <= data.len(),
    ensures
        parse_length(data, pos, maximum, field) matches Ok((count, end)) ==> {
            &&& pos <= end <= data.len()
            &&& count <= maximum
            &&& count <= u32::MAX
            &&& enc_len(field, count).ok()
            &&& enc_len(field, count).bytes.len() == 4
            &&& end == pos + 4
            &&& at(data, pos, enc_len(field, count).bytes)
            &&& pos <= cut <= data.len() ==> parse_length(data.take(cut), pos, maximum, field)
                == cut_off((count, end), cut)
        },
{
    broadcast use lemma_le_len;

    lemma_spans();
    lemma_parse_uint(data, pos, 4, cut);
}

pub proof fn lemma_length_enc(
    count: nat,
    data: Seq<u8>,
    pos: int,
    maximum: nat,
    field: &'static str,
)
    requires
        count <= maximum,
        enc_len(field, count).ok(),
        at(data, pos, enc_len(field, count).bytes),
    ensures
        enc_len(field, count).bytes.len() == 4,
        parse_length(data, pos, maximum, field) == Ok::<(nat, int), StorageError>((count, pos + 4)),
{
    broadcast use lemma_le_len;

    lemma_spans();
    lemma_uint_enc(count, 4, data, pos);
}

pub proof fn lemma_parse_count(
    data: Seq<u8>,
    pos: int,
    limits: Limits,
    field: &'static str,
    cut: int,
)
    requires
        0 <= pos <= data.len(),
    ensures
        parse_count(data, pos, limits, field) matches Ok((count, end)) ==> {
            &&& pos <= end <= data.len()
            &&& count <= limits.items
            &&& count <= u32::MAX
            &&& enc_len(field, count).ok()
            &&& enc_len(field, count).bytes.len() == 4
            &&& end == pos + 4
            &&& at(data, pos, enc_len(field, count).bytes)
            &&& pos <= cut <= data.len() ==> parse_count(data.take(cut), pos, limits, field)
                == cut_off((count, end), cut)
        },
{
    lemma_parse_length(data, pos, limits.items, field, cut);
}

pub proof fn lemma_count_enc(
    count: nat,
    data: Seq<u8>,
    pos: int,
    limits: Limits,
    field: &'static str,
)
    requires
        count <= limits.items,
        enc_len(field, count).ok(),
        at(data, pos, enc_len(field, count).bytes),
    ensures
        enc_len(field, count).bytes.len() == 4,
        parse_count(data, pos, limits, field) == Ok::<(nat, int), StorageError>((count, pos + 4)),
{
    lemma_length_enc(count, data, pos, limits.items, field);
}

pub proof fn lemma_parse_index(
    data: Seq<u8>,
    pos: int,
    limits: Limits,
    field: &'static str,
    cut: int,
)
    requires
        0 <= pos <= data.len(),
    ensures
        parse_index(data, pos, limits, field) matches Ok((index, end)) ==> {
            &&& pos <= end <= data.len()
            &&& index <= limits.ceiling()
            &&& index <= u32::MAX
            &&& enc_len(field, index).ok()
            &&& enc_len(field, index).bytes.len() == 4
            &&& end == pos + 4
            &&& at(data, pos, enc_len(field, index).bytes)
            &&& pos <= cut <= data.len() ==> parse_index(data.take(cut), pos, limits, field)
                == cut_off((index, end), cut)
        },
{
    lemma_parse_length(data, pos, limits.ceiling(), field, cut);
}

pub proof fn lemma_index_enc(
    index: nat,
    data: Seq<u8>,
    pos: int,
    limits: Limits,
    field: &'static str,
)
    requires
        index <= limits.ceiling(),
        enc_len(field, index).ok(),
        at(data, pos, enc_len(field, index).bytes),
    ensures
        enc_len(field, index).bytes.len() == 4,
        parse_index(data, pos, limits, field) == Ok::<(nat, int), StorageError>((index, pos + 4)),
{
    lemma_length_enc(index, data, pos, limits.ceiling(), field);
}

/// A length-prefixed UTF-8 string.
pub open spec fn enc_string(field: &'static str, chars: Seq<char>) -> Enc {
    enc_len(field, encode_utf8(chars).len()).followed_by(Enc::of(encode_utf8(chars)))
}

/// The length prefix of a string is within `limits`.
pub open spec fn string_fits(chars: Seq<char>, limits: Limits) -> bool {
    encode_utf8(chars).len() <= limits.strings
}

/// A length-prefixed UTF-8 string, checked against `limits`.
pub open spec fn parse_string(
    data: Seq<u8>,
    pos: int,
    limits: Limits,
    field: &'static str,
) -> Parsed<Seq<char>> {
    match parse_length(data, pos, limits.strings, field) {
        Err(error) => Err(error),
        Ok((length, start)) => match parse_raw(data, start, length) {
            Err(error) => Err(error),
            Ok((bytes, end)) => if valid_utf8(bytes) {
                Ok((decode_utf8(bytes), end))
            } else {
                Err(StorageError::InvalidUtf8)
            },
        },
    }
}

pub proof fn lemma_parse_string(
    data: Seq<u8>,
    pos: int,
    limits: Limits,
    field: &'static str,
    cut: int,
)
    requires
        0 <= pos <= data.len(),
    ensures
        parse_string(data, pos, limits, field) matches Ok((chars, end)) ==> {
            &&& pos <= end <= data.len()
            &&& string_fits(chars, limits)
            &&& enc_string(field, chars).ok()
            &&& end == pos + enc_string(field, chars).bytes.len()
            &&& at(data, pos, enc_string(field, chars).bytes)
            &&& pos <= cut <= data.len() ==> parse_string(data.take(cut), pos, limits, field)
                == cut_off((chars, end), cut)
        },
{
    broadcast use lemma_at_add;

    lemma_parse_length(data, pos, limits.strings, field, cut);
    if let Ok((length, start)) = parse_length(data, pos, limits.strings, field) {
        lemma_parse_raw(data, start, length, cut);
        if let Ok((bytes, end)) = parse_raw(data, start, length) {
            if valid_utf8(bytes) {
                decode_utf8_encode_utf8(bytes);
            }
        }
    }
}

pub proof fn lemma_string_enc(
    chars: Seq<char>,
    data: Seq<u8>,
    pos: int,
    limits: Limits,
    field: &'static str,
)
    requires
        string_fits(chars, limits),
        enc_string(field, chars).ok(),
        at(data, pos, enc_string(field, chars).bytes),
    ensures
        parse_string(data, pos, limits, field) == Ok::<(Seq<char>, int), StorageError>(
            (chars, pos + enc_string(field, chars).bytes.len()),
        ),
{
    broadcast use lemma_at_add;

    let bytes = encode_utf8(chars);
    lemma_length_enc(bytes.len(), data, pos, limits.strings, field);
    lemma_raw_enc(bytes, data, pos + 4);
    encode_utf8_valid_utf8(chars);
    encode_utf8_decode_utf8(chars);
}

/// The models of a sequence of values.
pub open spec fn views<T: View>(items: Seq<T>) -> Seq<T::V> {
    Seq::new(items.len(), |i: int| items[i]@)
}

/// The models of a prefix grow by the next item's model.
pub proof fn lemma_views_next<T: View>(items: Seq<T>, count: int)
    requires
        0 <= count < items.len(),
    ensures
        views(items).take(count + 1).drop_last() == views(items).take(count),
        views(items).take(count + 1).last() == items[count]@,
        views(items).take(count + 1) == views(items).take(count).push(items[count]@),
{
    assert(views(items).take(count + 1).drop_last() =~= views(items).take(count));
    assert(views(items).take(count + 1) =~= views(items).take(count).push(items[count]@));
}

/// The model of an extended sequence.
pub broadcast proof fn lemma_views_push<T: View>(items: Seq<T>, item: T)
    ensures
        #[trigger] views(items.push(item)) == views(items).push(item@),
{
    assert(views(items.push(item)) =~= views(items).push(item@));
}

/// Items encoded one after the other.
pub open spec fn enc_items<T: Wire>(items: Seq<T>) -> Enc
    decreases items.len(),
{
    if items.len() == 0 {
        Enc::of(seq![])
    } else {
        enc_items(items.drop_last()).followed_by(items.last().enc())
    }
}

/// Items behind a length prefix.
pub open spec fn enc_list<T: Wire>(field: &'static str, items: Seq<T>) -> Enc {
    enc_len(field, items.len()).followed_by(enc_items(items))
}

/// Every item satisfies the rules of its type.
pub open spec fn all_valid<T: Wire>(items: Seq<T>) -> bool {
    forall|i: int| 0 <= i < items.len() ==> (#[trigger] items[i]).valid()
}

/// The list and every item of it are within `limits`.
pub open spec fn list_fits<T: Wire>(items: Seq<T>, limits: Limits) -> bool {
    &&& items.len() <= limits.items
    &&& all_fit(items, limits)
}

/// Every item is within `limits`.
pub open spec fn all_fit<T: Wire>(items: Seq<T>, limits: Limits) -> bool {
    forall|i: int| 0 <= i < items.len() ==> (#[trigger] items[i]).fits(limits)
}

/// `count` items that stand one after the other.
pub open spec fn parse_items<T: Wire>(
    data: Seq<u8>,
    pos: int,
    limits: Limits,
    count: nat,
) -> Parsed<Seq<T>>
    decreases count,
{
    if count == 0 {
        Ok((seq![], pos))
    } else {
        match parse_items::<T>(data, pos, limits, (count - 1) as nat) {
            Err(error) => Err(error),
            Ok((items, start)) => match T::parse(data, start, limits) {
                Err(error) => Err(error),
                Ok((item, end)) => Ok((items.push(item), end)),
            },
        }
    }
}

/// Items behind a length prefix, checked against `limits`.
pub open spec fn parse_list<T: Wire>(
    data: Seq<u8>,
    pos: int,
    limits: Limits,
    field: &'static str,
) -> Parsed<Seq<T>> {
    match parse_count(data, pos, limits, field) {
        Err(error) => Err(error),
        Ok((count, start)) => parse_items(data, start, limits, count),
    }
}

pub proof fn lemma_parse_items<T: Wire>(
    data: Seq<u8>,
    pos: int,
    limits: Limits,
    count: nat,
    cut: int,
)
    requires
        0 <= pos <= data.len(),
    ensures
        parse_items::<T>(data, pos, limits, count) matches Ok((items, end)) ==> {
            &&& pos <= end <= data.len()
            &&& items.len() == count
            &&& all_valid(items)
            &&& all_fit(items, limits)
            &&& enc_items(items).ok()
            &&& end == pos + enc_items(items).bytes.len()
            &&& at(data, pos, enc_items(items).bytes)
            &&& pos <= cut <= data.len() ==> parse_items::<T>(data.take(cut), pos, limits, count)
                == cut_off((items, end), cut)
        },
    decreases count,
{
    broadcast use lemma_at_add;

    if count == 0 {
        reveal(at);
        assert(data.subrange(pos, pos) =~= seq![]);
    } else {
        lemma_parse_items::<T>(data, pos, limits, (count - 1) as nat, cut);
        if let Ok((items, start)) = parse_items::<T>(data, pos, limits, (count - 1) as nat) {
            T::lemma_parse(data, start, limits, cut);
            if let Ok((item, end)) = T::parse(data, start, limits) {
                assert(items.push(item).drop_last() =~= items);
                assert(items.push(item).last() == item);
            }
        }
    }
}

pub proof fn lemma_items_enc<T: Wire>(items: Seq<T>, data: Seq<u8>, pos: int, limits: Limits)
    requires
        all_valid(items),
        all_fit(items, limits),
        enc_items(items).ok(),
        at(data, pos, enc_items(items).bytes),
    ensures
        parse_items::<T>(data, pos, limits, items.len()) == Ok::<(Seq<T>, int), StorageError>(
            (items, pos + enc_items(items).bytes.len()),
        ),
    decreases items.len(),
{
    broadcast use lemma_at_add;

    if items.len() == 0 {
        assert(items =~= seq![]);
    } else {
        let front = items.drop_last();
        lemma_items_enc(front, data, pos, limits);
        items.last().lemma_enc(data, pos + enc_items(front).bytes.len(), limits);
        assert(front.push(items.last()) =~= items);
    }
}

pub proof fn lemma_parse_list<T: Wire>(
    data: Seq<u8>,
    pos: int,
    limits: Limits,
    field: &'static str,
    cut: int,
)
    requires
        0 <= pos <= data.len(),
    ensures
        parse_list::<T>(data, pos, limits, field) matches Ok((items, end)) ==> {
            &&& pos <= end <= data.len()
            &&& all_valid(items)
            &&& list_fits(items, limits)
            &&& enc_list(field, items).ok()
            &&& end == pos + enc_list(field, items).bytes.len()
            &&& at(data, pos, enc_list(field, items).bytes)
            &&& pos <= cut <= data.len() ==> parse_list::<T>(data.take(cut), pos, limits, field)
                == cut_off((items, end), cut)
        },
{
    broadcast use lemma_at_add;

    lemma_parse_count(data, pos, limits, field, cut);
    if let Ok((count, start)) = parse_count(data, pos, limits, field) {
        lemma_parse_items::<T>(data, start, limits, count, cut);
    }
}

pub proof fn lemma_list_enc<T: Wire>(
    items: Seq<T>,
    data: Seq<u8>,
    pos: int,
    limits: Limits,
    field: &'static str,
)
    requires
        all_valid(items),
        list_fits(items, limits),
        enc_list(field, items).ok(),
        at(data, pos, enc_list(field, items).bytes),
    ensures
        parse_list::<T>(data, pos, limits, field) == Ok::<(Seq<T>, int), StorageError>(
            (items, pos + enc_list(field, items).bytes.len()),
        ),
{
    broadcast use lemma_at_add;

    lemma_count_enc(items.len(), data, pos, limits, field);
    lemma_items_enc(items, data, pos + 4, limits);
}

/// Lists that can be encoded are within budgets that no length prefix exceeds.
pub proof fn lemma_list_fits<T: Wire>(items: Seq<T>, limits: Limits, field: &'static str)
    requires
        enc_list(field, items).ok(),
        limits.items >= u32::MAX,
        limits.strings >= u32::MAX,
    ensures
        list_fits(items, limits),
{
    lemma_items_fit(items, limits);
}

proof fn lemma_items_fit<T: Wire>(items: Seq<T>, limits: Limits)
    requires
        enc_items(items).ok(),
        limits.items >= u32::MAX,
        limits.strings >= u32::MAX,
    ensures
        all_fit(items, limits),
    decreases items.len(),
{
    if items.len() > 0 {
        lemma_items_fit(items.drop_last(), limits);
        items.last().lemma_fits(limits);
        assert forall|i: int| 0 <= i < items.len() implies (#[trigger] items[i]).fits(limits) by {
            if i < items.len() - 1 {
                assert(items.drop_last()[i] == items[i]);
            }
        }
    }
}

/// Values that lists keep in order.
pub trait Keyed: Wire {
    /// The number by which the value is ordered.
    spec fn key(self) -> nat;
}

/// Each key is at least `gap` above every key before it.
pub open spec fn ordered<T: Keyed>(items: Seq<T>, gap: nat) -> bool {
    forall|i: int, j: int|
        0 <= i < j < items.len() ==> (#[trigger] items[i]).key()
            + gap <= (#[trigger] items[j]).key()
}

/// `item` may follow `items`.
pub open spec fn in_order<T: Keyed>(items: Seq<T>, item: T, gap: nat) -> bool {
    items.len() > 0 ==> items.last().key() + gap <= item.key()
}

/// `count` items that stand one after the other in order.
pub open spec fn parse_ordered_items<T: Keyed>(
    data: Seq<u8>,
    pos: int,
    limits: Limits,
    count: nat,
    gap: nat,
    reason: &'static str,
) -> Parsed<Seq<T>>
    decreases count,
{
    if count == 0 {
        Ok((seq![], pos))
    } else {
        match parse_ordered_items::<T>(data, pos, limits, (count - 1) as nat, gap, reason) {
            Err(error) => Err(error),
            Ok((items, start)) => match T::parse(data, start, limits) {
                Err(error) => Err(error),
                Ok((item, end)) => if in_order(items, item, gap) {
                    Ok((items.push(item), end))
                } else {
                    Err(StorageError::CorruptRecord(reason))
                },
            },
        }
    }
}

/// An ordered list behind a length prefix, checked against `limits`.
pub open spec fn parse_ordered<T: Keyed>(
    data: Seq<u8>,
    pos: int,
    limits: Limits,
    field: &'static str,
    gap: nat,
    reason: &'static str,
) -> Parsed<Seq<T>> {
    match parse_count(data, pos, limits, field) {
        Err(error) => Err(error),
        Ok((count, start)) => parse_ordered_items(data, start, limits, count, gap, reason),
    }
}

proof fn lemma_ordered_push<T: Keyed>(items: Seq<T>, item: T, gap: nat)
    requires
        ordered(items, gap),
        in_order(items, item, gap),
    ensures
        ordered(items.push(item), gap),
{
    let longer = items.push(item);
    assert forall|i: int, j: int| 0 <= i < j < longer.len() implies (#[trigger] longer[i]).key()
        + gap <= (#[trigger] longer[j]).key() by {
        if j < items.len() {
            assert(items[i].key() + gap <= items[j].key());
        } else if i < items.len() - 1 {
            assert(items[i].key() + gap <= items[items.len() - 1].key());
        }
    }
}

pub proof fn lemma_parse_ordered_items<T: Keyed>(
    data: Seq<u8>,
    pos: int,
    limits: Limits,
    count: nat,
    gap: nat,
    reason: &'static str,
    cut: int,
)
    requires
        0 <= pos <= data.len(),
    ensures
        parse_ordered_items::<T>(data, pos, limits, count, gap, reason) matches Ok((items, end))
            ==> {
            &&& pos <= end <= data.len()
            &&& items.len() == count
            &&& all_valid(items)
            &&& all_fit(items, limits)
            &&& ordered(items, gap)
            &&& enc_items(items).ok()
            &&& end == pos + enc_items(items).bytes.len()
            &&& at(data, pos, enc_items(items).bytes)
            &&& pos <= cut <= data.len() ==> parse_ordered_items::<T>(
                data.take(cut),
                pos,
                limits,
                count,
                gap,
                reason,
            ) == cut_off((items, end), cut)
        },
    decreases count,
{
    broadcast use lemma_at_add;

    if count == 0 {
        reveal(at);
        assert(data.subrange(pos, pos) =~= seq![]);
    } else {
        let before = (count - 1) as nat;
        lemma_parse_ordered_items::<T>(data, pos, limits, before, gap, reason, cut);
        if let Ok((items, start)) = parse_ordered_items::<T>(
            data,
            pos,
            limits,
            before,
            gap,
            reason,
        ) {
            T::lemma_parse(data, start, limits, cut);
            if let Ok((item, end)) = T::parse(data, start, limits) {
                if in_order(items, item, gap) {
                    lemma_ordered_push(items, item, gap);
                }
                assert(items.push(item).drop_last() =~= items);
                assert(items.push(item).last() == item);
            }
        }
    }
}

proof fn lemma_ordered_items_enc<T: Keyed>(
    items: Seq<T>,
    data: Seq<u8>,
    pos: int,
    limits: Limits,
    gap: nat,
    reason: &'static str,
)
    requires
        all_valid(items),
        all_fit(items, limits),
        ordered(items, gap),
        enc_items(items).ok(),
        at(data, pos, enc_items(items).bytes),
    ensures
        parse_ordered_items::<T>(data, pos, limits, items.len(), gap, reason) == Ok::<
            (Seq<T>, int),
            StorageError,
        >((items, pos + enc_items(items).bytes.len())),
    decreases items.len(),
{
    broadcast use lemma_at_add;

    if items.len() == 0 {
        assert(items =~= seq![]);
    } else {
        let front = items.drop_last();
        lemma_ordered_items_enc(front, data, pos, limits, gap, reason);
        items.last().lemma_enc(data, pos + enc_items(front).bytes.len(), limits);
        assert(front.push(items.last()) =~= items);
        if front.len() > 0 {
            assert(items[front.len() - 1].key() + gap <= items[items.len() - 1].key());
        }
    }
}

pub proof fn lemma_parse_ordered<T: Keyed>(
    data: Seq<u8>,
    pos: int,
    limits: Limits,
    field: &'static str,
    gap: nat,
    reason: &'static str,
    cut: int,
)
    requires
        0 <= pos <= data.len(),
    ensures
        parse_ordered::<T>(data, pos, limits, field, gap, reason) matches Ok((items, end)) ==> {
            &&& pos <= end <= data.len()
            &&& all_valid(items)
            &&& list_fits(items, limits)
            &&& ordered(items, gap)
            &&& enc_list(field, items).ok()
            &&& end == pos + enc_list(field, items).bytes.len()
            &&& at(data, pos, enc_list(field, items).bytes)
            &&& pos <= cut <= data.len() ==> parse_ordered::<T>(
                data.take(cut),
                pos,
                limits,
                field,
                gap,
                reason,
            ) == cut_off((items, end), cut)
        },
{
    broadcast use lemma_at_add;

    lemma_parse_count(data, pos, limits, field, cut);
    if let Ok((count, start)) = parse_count(data, pos, limits, field) {
        lemma_parse_ordered_items::<T>(data, start, limits, count, gap, reason, cut);
    }
}

pub proof fn lemma_ordered_enc<T: Keyed>(
    items: Seq<T>,
    data: Seq<u8>,
    pos: int,
    limits: Limits,
    field: &'static str,
    gap: nat,
    reason: &'static str,
)
    requires
        all_valid(items),
        list_fits(items, limits),
        ordered(items, gap),
        enc_list(field, items).ok(),
        at(data, pos, enc_list(field, items).bytes),
    ensures
        parse_ordered::<T>(data, pos, limits, field, gap, reason) == Ok::<
            (Seq<T>, int),
            StorageError,
        >((items, pos + enc_list(field, items).bytes.len())),
{
    broadcast use lemma_at_add;

    lemma_count_enc(items.len(), data, pos, limits, field);
    lemma_ordered_items_enc(items, data, pos + 4, limits, gap, reason);
}

/// A non-zero version number.
pub open spec fn parse_version(data: Seq<u8>, pos: int, reason: &'static str) -> Parsed<u64> {
    match parse_uint(data, pos, 8) {
        Err(error) => Err(error),
        Ok((value, end)) => if value == 0 {
            Err(StorageError::CorruptRecord(reason))
        } else {
            Ok((value as u64, end))
        },
    }
}

pub proof fn lemma_parse_version(data: Seq<u8>, pos: int, reason: &'static str, cut: int)
    requires
        0 <= pos <= data.len(),
    ensures
        parse_version(data, pos, reason) matches Ok((value, end)) ==> {
            &&& pos <= end <= data.len()
            &&& value != 0
            &&& end == pos + value.enc().bytes.len()
            &&& at(data, pos, value.enc().bytes)
            &&& pos <= cut <= data.len() ==> parse_version(data.take(cut), pos, reason) == cut_off(
                (value, end),
                cut,
            )
        },
{
    broadcast use lemma_le_len;

    lemma_spans();
    lemma_parse_uint(data, pos, 8, cut);
}

pub proof fn lemma_version_enc(value: u64, data: Seq<u8>, pos: int, reason: &'static str)
    requires
        value != 0,
        at(data, pos, value.enc().bytes),
    ensures
        parse_version(data, pos, reason) == Ok::<(u64, int), StorageError>(
            (value, pos + value.enc().bytes.len()),
        ),
{
    broadcast use lemma_le_len;

    lemma_spans();
    lemma_uint_enc(value as nat, 8, data, pos);
}

} // verus!

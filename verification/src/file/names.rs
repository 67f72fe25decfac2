//! Canonical file names of segments and snapshots.

use crate::bytes::same_bytes;
use crate::record::RecordSequence;
use crate::wire::reader::string_from_utf8;
use vstd::prelude::*;
use vstd::slice::*;
use vstd::string::*;
use vstd::utf8::*;

verus! {

/// The `width` least significant decimal digits of `value`, most significant first.
pub open spec fn decimal(value: nat, width: nat) -> Seq<u8>
    decreases width,
{
    if width == 0 {
        seq![]
    } else {
        decimal(value / 10, (width - 1) as nat).push((48 + value % 10) as u8)
    }
}

/// The number that decimal digits spell, most significant first.
pub open spec fn digits_value(digits: Seq<u8>) -> nat
    decreases digits.len(),
{
    if digits.len() == 0 {
        0
    } else {
        10 * digits_value(digits.drop_last()) + (digits.last() - 48) as nat
    }
}

/// Every byte is a decimal digit.
pub open spec fn all_digits(bytes: Seq<u8>) -> bool {
    forall|i: int| 0 <= i < bytes.len() ==> 48 <= #[trigger] bytes[i] <= 57
}

/// The characters with the given ASCII codes.
pub open spec fn ascii(bytes: Seq<u8>) -> Seq<char> {
    Seq::new(bytes.len(), |i: int| bytes[i] as char)
}

/// Twenty decimal digits of `value` followed by `suffix`.
pub open spec fn padded_name(value: u64, suffix: Seq<u8>) -> Seq<char> {
    ascii(decimal(value as nat, 20) + suffix)
}

/// `.wal`
pub open spec fn segment_suffix() -> Seq<u8> {
    seq![0x2eu8, 0x77, 0x61, 0x6c]
}

/// `.snapshot`
pub open spec fn snapshot_suffix() -> Seq<u8> {
    seq![0x2eu8, 0x73, 0x6e, 0x61, 0x70, 0x73, 0x68, 0x6f, 0x74]
}

/// `.tmp`
pub open spec fn temp_suffix() -> Seq<u8> {
    seq![0x2eu8, 0x74, 0x6d, 0x70]
}

/// The bytes are ASCII codes.
pub open spec fn is_ascii_bytes(bytes: Seq<u8>) -> bool {
    forall|i: int| 0 <= i < bytes.len() ==> #[trigger] bytes[i] < 128
}

pub proof fn lemma_decimal(value: nat, width: nat)
    ensures
        decimal(value, width).len() == width,
        all_digits(decimal(value, width)),
    decreases width,
{
    if width > 0 {
        lemma_decimal(value / 10, (width - 1) as nat);
    }
}

/// Ten to the power of `width`.
pub open spec fn decimal_span(width: nat) -> nat
    decreases width,
{
    if width == 0 {
        1
    } else {
        10 * decimal_span((width - 1) as nat)
    }
}

proof fn lemma_value_of_decimal(value: nat, width: nat)
    requires
        value < decimal_span(width),
    ensures
        digits_value(decimal(value, width)) == value,
    decreases width,
{
    if width > 0 {
        lemma_value_of_decimal(value / 10, (width - 1) as nat);
        assert(decimal(value, width).drop_last() =~= decimal(value / 10, (width - 1) as nat));
    }
}

proof fn lemma_decimal_of_value(digits: Seq<u8>)
    requires
        all_digits(digits),
    ensures
        decimal(digits_value(digits), digits.len()) == digits,
        digits_value(digits) < decimal_span(digits.len()),
    decreases digits.len(),
{
    if digits.len() > 0 {
        let front = digits.drop_last();
        lemma_decimal_of_value(front);
        let value = digits_value(digits);
        assert(value / 10 == digits_value(front) && value % 10 == (digits.last() - 48) as nat);
        assert(decimal(value, digits.len()) =~= digits);
    } else {
        assert(decimal(0, 0) =~= digits);
    }
}

proof fn lemma_span_of_names()
    ensures
        decimal_span(20) == 100_000_000_000_000_000_000,
{
    reveal_with_fuel(decimal_span, 21);
}

/// The encoding of ASCII characters is their codes, and no other text has that encoding.
proof fn lemma_ascii(bytes: Seq<u8>, text: Seq<char>)
    requires
        is_ascii_bytes(bytes),
    ensures
        encode_utf8(ascii(bytes)) == bytes,
        valid_utf8(bytes),
        encode_utf8(text) == bytes <==> text == ascii(bytes),
{
    let chars = ascii(bytes);
    assert(is_ascii_chars(chars));
    is_ascii_chars_encode_utf8(chars);
    assert forall|i: int| 0 <= i < bytes.len() implies chars[i] as u8 == bytes[i] by {
        char_code(bytes[i]);
    }
    assert(encode_utf8(chars) =~= bytes);
    encode_utf8_valid_utf8(chars);
    encode_utf8_decode_utf8(chars);
    encode_utf8_decode_utf8(text);
}

proof fn char_code(byte: u8)
    requires
        byte < 128,
    ensures
        (byte as char) as u8 == byte,
        (byte as char) as u32 == byte,
{
}

/// Different numbers have different names.
pub proof fn law_names_are_unique(a: u64, b: u64, suffix: Seq<u8>)
    requires
        padded_name(a, suffix) == padded_name(b, suffix),
        is_ascii_bytes(suffix),
    ensures
        a == b,
{
    let left = decimal(a as nat, 20) + suffix;
    let right = decimal(b as nat, 20) + suffix;
    lemma_decimal(a as nat, 20);
    lemma_decimal(b as nat, 20);
    lemma_ascii(left, ascii(left));
    lemma_ascii(right, ascii(right));
    assert(left == right);
    assert(decimal(a as nat, 20) =~= left.take(20));
    assert(decimal(b as nat, 20) =~= right.take(20));
    lemma_span_of_names();
    lemma_value_of_decimal(a as nat, 20);
    lemma_value_of_decimal(b as nat, 20);
}

/// Returns twenty decimal digits.
fn put_decimal(value: u64) -> (out: Vec<u8>)
    ensures
        out@ == decimal(value as nat, 20),
{
    let mut digits: Vec<u8> = Vec::new();
    let mut i: usize = 0;
    while i < 20
        invariant
            i <= 20,
            digits@.len() == i,
        decreases 20 - i,
    {
        digits.push(48);
        i += 1;
    }
    let mut rest: u64 = value;
    let mut left: usize = 20;
    proof {
        lemma_decimal(value as nat, 20);
    }
    while left > 0
        invariant
            left <= 20,
            digits@.len() == 20,
            decimal(value as nat, 20).len() == 20,
            decimal(value as nat, 20).take(left as int) == decimal(rest as nat, left as nat),
            forall|k: int| left <= k < 20 ==> digits@[k] == decimal(value as nat, 20)[k],
        decreases left,
    {
        let digit: u8 = (48 + rest % 10) as u8;
        proof {
            let whole = decimal(value as nat, 20);
            lemma_decimal(rest as nat, left as nat);
            assert(whole.take(left as int)[left - 1] == whole[left - 1]);
            assert(whole.take(left - 1) =~= whole.take(left as int).drop_last());
            assert(decimal(rest as nat, left as nat).drop_last() =~= decimal(
                rest as nat / 10,
                (left - 1) as nat,
            ));
        }
        left -= 1;
        digits.set(left, digit);
        rest = rest / 10;
    }
    assert(digits@ =~= decimal(value as nat, 20));
    digits
}

/// Returns twenty decimal digits of `value` followed by `suffix`.
pub fn make_name(value: u64, suffix: &[u8]) -> (out: String)
    requires
        is_ascii_bytes(suffix@),
    ensures
        out@ == padded_name(value, suffix@),
{
    let mut bytes = put_decimal(value);
    bytes.extend_from_slice(suffix);
    let ghost codes = decimal(value as nat, 20) + suffix@;
    proof {
        lemma_decimal(value as nat, 20);
        assert(bytes@ =~= codes);
        lemma_ascii(codes, ascii(codes));
    }
    match string_from_utf8(bytes) {
        Some(name) => {
            proof {
                lemma_ascii(codes, name@);
            }
            name
        },
        None => String::new(),
    }
}

/// Returns the number in a name that consists of twenty decimal digits and `suffix`.
pub fn read_name(name: &str, suffix: &[u8]) -> (out: Option<u64>)
    requires
        is_ascii_bytes(suffix@),
        20 + suffix@.len() <= usize::MAX,
    ensures
        match out {
            Some(value) => name@ == padded_name(value, suffix@),
            None => forall|value: u64| name@ != #[trigger] padded_name(value, suffix@),
        },
{
    let bytes = name.as_bytes();
    proof {
        assert forall|value: u64| name@ == #[trigger] padded_name(value, suffix@) implies bytes@
            == decimal(value as nat, 20) + suffix@ by {
            lemma_decimal(value as nat, 20);
            lemma_ascii(decimal(value as nat, 20) + suffix@, name@);
        }
        assert forall|value: u64| bytes@ == #[trigger] (
            decimal(value as nat, 20) + suffix@
        ) implies {
            &&& bytes@.len() == 20 + suffix@.len()
            &&& bytes@.skip(20) == suffix@
            &&& bytes@.take(20) == decimal(value as nat, 20)
            &&& all_digits(bytes@.take(20))
            &&& digits_value(bytes@.take(20)) == value
        } by {
            lemma_decimal(value as nat, 20);
            assert(bytes@.skip(20) =~= suffix@);
            assert(bytes@.take(20) =~= decimal(value as nat, 20));
            lemma_span_of_names();
            lemma_value_of_decimal(value as nat, 20);
        }
    }
    if bytes.len() != 20 + suffix.len() {
        return None;
    }
    let tail = slice_subrange(bytes, 20, bytes.len());
    assert(tail@ =~= bytes@.skip(20));
    if !same_bytes(tail, suffix) {
        return None;
    }
    let ghost digits = bytes@.take(20);
    let mut value: u128 = 0;
    let mut i: usize = 0;
    assert(digits.take(0) =~= seq![]);
    proof {
        lemma_span_of_names();
    }
    while i < 20
        invariant
            i <= 20,
            bytes@.len() >= 20,
            digits == bytes@.take(20),
            all_digits(digits.take(i as int)),
            value == digits_value(digits.take(i as int)),
            decimal_span(20) == 100_000_000_000_000_000_000,
            forall|number: u64| name@ == #[trigger] padded_name(number, suffix@) ==> all_digits(
                digits,
            ),
        decreases 20 - i,
    {
        let digit = bytes[i];
        assert(digits[i as int] == digit);
        if digit < 48 || digit > 57 {
            return None;
        }
        proof {
            let longer = digits.take(i as int + 1);
            assert(longer.drop_last() =~= digits.take(i as int));
            assert(longer.last() == digit);
            lemma_decimal_of_value(digits.take(i as int));
            lemma_decimal_span_grows(i as nat, 20);
            assert forall|k: int| 0 <= k < longer.len() implies 48 <= #[trigger] longer[k] <= 57 by {
                if k < i {
                    assert(longer[k] == digits.take(i as int)[k]);
                }
            }
        }
        value = value * 10 + (digit - 48) as u128;
        i += 1;
    }
    assert(digits.take(20) =~= digits);
    if value > u64::MAX as u128 {
        return None;
    }
    proof {
        lemma_decimal_of_value(digits);
        assert(bytes@ =~= digits + suffix@) by {
            assert(bytes@ =~= bytes@.take(20) + bytes@.skip(20));
        }
        lemma_ascii(digits + suffix@, name@);
    }
    Some(value as u64)
}

proof fn lemma_decimal_span_grows(small: nat, large: nat)
    requires
        small <= large,
    ensures
        1 <= decimal_span(small) <= decimal_span(large),
    decreases large,
{
    if large > 0 {
        if small < large {
            lemma_decimal_span_grows(small, (large - 1) as nat);
        } else {
            lemma_decimal_span_grows((small - 1) as nat, (large - 1) as nat);
        }
    }
}

/// The suffix of segment file names.
pub const SEGMENT_SUFFIX: [u8; 4] = [0x2e, 0x77, 0x61, 0x6c];

/// The suffix of snapshot file names.
pub const SNAPSHOT_SUFFIX: [u8; 9] = [0x2e, 0x73, 0x6e, 0x61, 0x70, 0x73, 0x68, 0x6f, 0x74];

/// The suffix of segment files that were not installed, `.wal.tmp`.
pub const SEGMENT_TEMP_SUFFIX: [u8; 8] = [0x2e, 0x77, 0x61, 0x6c, 0x2e, 0x74, 0x6d, 0x70];

/// Returns the canonical name of the segment that starts at `sequence`.
pub fn segment_name(sequence: RecordSequence) -> (out: String)
    ensures
        out@ == padded_name(sequence@, segment_suffix()),
{
    let suffix = SEGMENT_SUFFIX;
    assert(suffix@ =~= segment_suffix());
    make_name(sequence.get(), suffix.as_slice())
}

/// Returns the name under which the segment that starts at `sequence` is prepared.
pub fn segment_temp_name(sequence: RecordSequence) -> (out: String)
    ensures
        out@ == padded_name(sequence@, segment_suffix() + temp_suffix()),
{
    let suffix = SEGMENT_TEMP_SUFFIX;
    assert(suffix@ =~= segment_suffix() + temp_suffix());
    make_name(sequence.get(), suffix.as_slice())
}

/// Returns the first sequence of the segment with the given canonical name.
pub fn parse_segment_name(name: &str) -> (out: Option<RecordSequence>)
    ensures
        match out {
            Some(sequence) => sequence@ != 0 && name@ == padded_name(
                sequence@,
                segment_suffix(),
            ),
            None => forall|value: u64|
                value != 0 ==> name@ != #[trigger] padded_name(value, segment_suffix()),
        },
{
    let suffix = SEGMENT_SUFFIX;
    assert(suffix@ =~= segment_suffix());
    match read_name(name, suffix.as_slice()) {
        Some(value) => {
            proof {
                assert forall|other: u64| name@ == #[trigger] padded_name(other, segment_suffix())
                    implies other == value by {
                    law_names_are_unique(other, value, segment_suffix());
                }
            }
            RecordSequence::new(value)
        },
        None => None,
    }
}

/// Returns the canonical name of the snapshot at `watermark`.
pub fn snapshot_name(watermark: u64) -> (out: String)
    ensures
        out@ == padded_name(watermark, snapshot_suffix()),
{
    let suffix = SNAPSHOT_SUFFIX;
    assert(suffix@ =~= snapshot_suffix());
    make_name(watermark, suffix.as_slice())
}

/// Returns the watermark of the snapshot with the given canonical name.
pub fn parse_snapshot_name(name: &str) -> (out: Option<u64>)
    ensures
        match out {
            Some(watermark) => name@ == padded_name(watermark, snapshot_suffix()),
            None => forall|value: u64| name@ != #[trigger] padded_name(value, snapshot_suffix()),
        },
{
    let suffix = SNAPSHOT_SUFFIX;
    assert(suffix@ =~= snapshot_suffix());
    read_name(name, suffix.as_slice())
}

/// The bytes end with `suffix`.
pub open spec fn ends_with(bytes: Seq<u8>, suffix: Seq<u8>) -> bool {
    bytes.len() >= suffix.len() && bytes.skip(bytes.len() - suffix.len()) == suffix
}

/// Returns whether the name is one under which a segment is prepared: it ends in `.wal.tmp`.
pub fn is_segment_temp(name: &str) -> (out: bool)
    ensures
        out == ends_with(encode_utf8(name@), segment_suffix() + temp_suffix()),
{
    let suffix = SEGMENT_TEMP_SUFFIX;
    assert(suffix@ =~= segment_suffix() + temp_suffix());
    let bytes = name.as_bytes();
    if bytes.len() < 8 {
        return false;
    }
    let tail = slice_subrange(bytes, bytes.len() - 8, bytes.len());
    assert(tail@ =~= bytes@.skip(bytes@.len() - 8));
    same_bytes(tail, suffix.as_slice())
}

} // verus!

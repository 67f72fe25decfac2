//! Segments, names and manifests.

use crate::backend::Durability;
use crate::database::DatabaseOptions;
use crate::digest;
use crate::engine::Engine;
use crate::error::{RecordCorruption, StorageError};
use crate::file::compaction;
use crate::file::compaction::Compaction;
use crate::file::identity::DatabaseUuid;
use crate::file::manifest;
use crate::file::manifest::{Manifest, ManifestError};
use crate::file::manifest_v1;
use crate::file::names;
use crate::file::opening;
use crate::file::opening::{FeedDecision, SegmentEntry, SegmentInfo, SnapshotPlan};
use crate::file::options::{FileDatabaseError, FileDatabaseOptions, SnapshotOutcome};
use crate::file::segment;
use crate::file::segment::SegmentHeaderError;
use crate::file::segmented;
use crate::file::segmented::{ActiveSegment, ActiveSegmentView, AppendPlan};
use crate::file::walk::SegmentWalk;
use crate::layout;
use crate::laws::replays;
use crate::laws::snapshots;
use crate::record::frame::{ReaderView, RecordView};
use crate::record::{RecordLimits, RecordSequence};
use crate::replay::{EngineRecovery, RecoveryError, RecoveryOutcome};
use crate::snapshot::limits::{SnapshotError, SnapshotLimits};
use crate::wire::model;
use std::path::PathBuf;
use vstd::arithmetic::div_mod::*;
use vstd::arithmetic::power::*;
use vstd::prelude::*;
use vstd::string::*;
use vstd::utf8::*;

verus! {

/// The bytes are records, one behind the other from the expected position on, and there is at
/// least one. The first has the first sequence, and the next one behind the last has the next.
pub open spec fn group_scanned(
    segment: ActiveSegmentView,
    bytes: Seq<u8>,
    grants: Seq<bool>,
    first: u64,
    next: Option<u64>,
    readers: Seq<ReaderView>,
    records: Seq<RecordView>,
) -> bool {
    &&& replays::scan_verdict(
        ReaderView { rest: bytes, offset: 0, expected: segment.expected, max: segment.max },
        readers,
        records,
        grants,
        0,
        Ok(records),
    )
    &&& segment.expected is Some
    &&& records.len() > 0
    &&& first == records[0].sequence
    &&& records[records.len() - 1].sequence < u64::MAX ==> next == Some(
        (records[records.len() - 1].sequence + 1) as u64,
    )
    &&& records[records.len() - 1].sequence == u64::MAX ==> next is None
}

/// Why the bytes are no group: there is no position left, they hold no record, or a record cannot
/// be read.
pub open spec fn group_refused(
    segment: ActiveSegmentView,
    bytes: Seq<u8>,
    grants: Seq<bool>,
    error: StorageError,
    readers: Seq<ReaderView>,
    records: Seq<RecordView>,
) -> bool {
    let start = ReaderView {
        rest: bytes,
        offset: 0,
        expected: segment.expected,
        max: segment.max,
    };
    match segment.expected {
        None => error == (StorageError::CorruptWalRecord {
            offset: 0,
            reason: RecordCorruption::SequenceOverflow,
        }),
        Some(_) => {
            ||| replays::scan_verdict(start, readers, records, grants, 0, Err(error))
            ||| bytes.len() == 0 && error == (StorageError::InvalidLength {
                field: "WAL append batch",
                length: 0,
            })
        },
    }
}

/// The model of inspection tells groups from other bytes.
pub proof fn law_groups_are_inspected(
    segment: ActiveSegmentView,
    bytes: Seq<u8>,
    grants: Seq<bool>,
)
    ensures
        match segmented::inspected(segment, bytes, grants) {
            Ok((first, next)) => exists|readers: Seq<ReaderView>, records: Seq<RecordView>|
             #[trigger] group_scanned(segment, bytes, grants, first, next, readers, records),
            Err(error) => exists|readers: Seq<ReaderView>, records: Seq<RecordView>| #[trigger]
                group_refused(segment, bytes, grants, error, readers, records),
        },
{
    if let Some(expected) = segment.expected {
        let start = ReaderView { rest: bytes, offset: 0, expected: Some(expected), max: segment.max };
        replays::law_scans(start, grants, 0);
        let all = crate::record::frame::recovered_with(start, grants, 0);
        let (readers, records) = choose|readers: Seq<ReaderView>, records: Seq<RecordView>|
         #[trigger] replays::scan_verdict(start, readers, records, grants, 0, all);
        match segmented::inspected(segment, bytes, grants) {
            Ok((first, next)) => {
                assert(group_scanned(segment, bytes, grants, first, next, readers, records));
            },
            Err(error) => {
                assert(group_refused(segment, bytes, grants, error, readers, records));
            },
        }
    } else {
        let error = segmented::inspected(segment, bytes, grants)->Err_0;
        assert(group_refused(segment, bytes, grants, error, seq![], seq![]));
    }
}

/// Inspection tells groups from other bytes.
pub proof fn law_inspect_granted(
    segment: &ActiveSegment,
    bytes: &[u8],
    grants: &[bool],
    out: Result<(RecordSequence, Option<RecordSequence>), StorageError>,
)
    requires
        call_ensures(ActiveSegment::inspect_granted, (segment, bytes, grants), out),
    ensures
        match out {
            Ok((first, next)) => exists|
                behind: Option<u64>,
                readers: Seq<ReaderView>,
                records: Seq<RecordView>,
            |
                (next is None <==> behind is None) && (next matches Some(sequence) ==> behind
                    == Some(sequence@)) && #[trigger] group_scanned(
                    segment@,
                    bytes@,
                    grants@,
                    first@,
                    behind,
                    readers,
                    records,
                ),
            Err(error) => exists|readers: Seq<ReaderView>, records: Seq<RecordView>| #[trigger]
                group_refused(segment@, bytes@, grants@, error, readers, records),
        },
{
    law_groups_are_inspected(segment@, bytes@, grants@);
}

/// Where a group of records goes: into a fresh segment exactly if the active one holds records
/// and would exceed its target. The lengths that this gives must be numbers.
pub open spec fn plan_verdict(
    segment: ActiveSegmentView,
    length: int,
    first: u64,
    next: Option<u64>,
    out: Result<AppendPlan, StorageError>,
) -> bool {
    match out {
        Ok(plan) => {
            &&& segment.len + length <= u64::MAX
            &&& plan.rotate_to is Some <==> segment.has_records && segment.len + length
                > segment.target
            &&& plan.rotate_to matches Some(sequence) ==> sequence@ == first && plan.resulting_len
                == 64 + length
            &&& plan.rotate_to is None ==> plan.resulting_len == segment.len + length
            &&& plan.next_sequence is None <==> next is None
            &&& plan.next_sequence matches Some(sequence) ==> next == Some(sequence@)
        },
        Err(error) => {
            ||| segment.len + length > u64::MAX && error == (StorageError::SegmentLengthOverflow {
                current: segment.len,
                append: length as usize,
            })
            ||| segment.len + length <= u64::MAX && 64 + length > u64::MAX && error == (
            StorageError::SegmentLengthOverflow { current: 64, append: length as usize })
        },
    }
}

/// A group is planned like this, and other bytes are refused.
pub proof fn law_plan_granted(
    segment: &ActiveSegment,
    bytes: &[u8],
    grants: &[bool],
    out: Result<AppendPlan, StorageError>,
)
    requires
        bytes@.len() <= usize::MAX,
        call_ensures(ActiveSegment::plan_granted, (segment, bytes, grants), out),
    ensures
        ({
            ||| exists|
                first: u64,
                next: Option<u64>,
                readers: Seq<ReaderView>,
                records: Seq<RecordView>,
            |
                plan_verdict(segment@, bytes@.len() as int, first, next, out)
                    && #[trigger] group_scanned(
                    segment@,
                    bytes@,
                    grants@,
                    first,
                    next,
                    readers,
                    records,
                )
            ||| out matches Err(error) && exists|
                readers: Seq<ReaderView>,
                records: Seq<RecordView>,
            | #[trigger] group_refused(segment@, bytes@, grants@, error, readers, records)
        }),
        out matches Ok(plan) ==> (plan.rotate_to is Some <==> segment@.has_records && segment@.len
            + bytes@.len() > segment@.target),
{
    law_groups_are_inspected(segment@, bytes@, grants@);
    if let Ok((first, next)) = segmented::inspected(segment@, bytes@, grants@) {
        assert(plan_verdict(segment@, bytes@.len() as int, first, next, out));
    }
}

/// The same holds where memory is asked for.
pub proof fn law_plan_append(
    segment: &ActiveSegment,
    bytes: &[u8],
    out: Result<AppendPlan, StorageError>,
)
    requires
        bytes@.len() <= usize::MAX,
        call_ensures(ActiveSegment::plan_append, (segment, bytes), out),
    ensures
        ({
            ||| exists|
                grants: Seq<bool>,
                first: u64,
                next: Option<u64>,
                readers: Seq<ReaderView>,
                records: Seq<RecordView>,
            |
                plan_verdict(segment@, bytes@.len() as int, first, next, out)
                    && #[trigger] group_scanned(
                    segment@,
                    bytes@,
                    grants,
                    first,
                    next,
                    readers,
                    records,
                )
            ||| out matches Err(error) && exists|
                grants: Seq<bool>,
                readers: Seq<ReaderView>,
                records: Seq<RecordView>,
            | #[trigger] group_refused(segment@, bytes@, grants, error, readers, records)
        }),
        out matches Ok(plan) ==> (plan.rotate_to is Some <==> segment@.has_records && segment@.len
            + bytes@.len() > segment@.target),
        out matches Ok(plan) ==> (plan.rotate_to is None ==> plan.resulting_len == segment@.len
            + bytes@.len()),
        out matches Ok(plan) ==> (plan.rotate_to is Some ==> plan.resulting_len == 64
            + bytes@.len()),
{
    let grants = choose|grants: Seq<bool>| #[trigger]
        segmented::planned(segment@, bytes@, bytes@.len() as usize, grants, out);
    law_groups_are_inspected(segment@, bytes@, grants);
    if let Ok((first, next)) = segmented::inspected(segment@, bytes@, grants) {
        assert(plan_verdict(segment@, bytes@.len() as int, first, next, out));
    }
}

/// What is known of a segment is what was said of it. A first segment holds a header alone, and
/// a segment behind recovery holds records exactly if it is longer than that.
pub proof fn law_segments_are_known(
    len: u64,
    has_records: bool,
    target: u64,
    limits: RecordLimits,
    expected: Option<RecordSequence>,
    made: ActiveSegment,
    fresh: ActiveSegment,
    resumed: ActiveSegment,
    shown_len: u64,
    shown_records: bool,
    shown_target: u64,
    shown_expected: Option<RecordSequence>,
)
    requires
        call_ensures(ActiveSegment::new, (len, has_records, target, limits, expected), made),
        call_ensures(ActiveSegment::fresh, (target, limits), fresh),
        call_ensures(ActiveSegment::resumed, (len, target, limits, expected), resumed),
        call_ensures(ActiveSegment::len, (&made,), shown_len),
        call_ensures(ActiveSegment::has_records, (&made,), shown_records),
        call_ensures(ActiveSegment::segment_target, (&made,), shown_target),
        call_ensures(ActiveSegment::expected_sequence, (&made,), shown_expected),
    ensures
        shown_len == len,
        shown_records == has_records,
        shown_target == target,
        shown_expected is None <==> expected is None,
        shown_expected matches Some(sequence) ==> sequence@ == expected->0@,
        made@.max == limits@,
        made@.len == len,
        made@.has_records == has_records,
        made@.target == target,
        expected matches Some(sequence) ==> made@.expected == Some(sequence@),
        expected is None ==> made@.expected is None,
        fresh@.len == 64,
        !fresh@.has_records,
        fresh@.target == target,
        fresh@.max == limits@,
        fresh@.expected == Some(1u64),
        resumed@.len == len,
        resumed@.has_records <==> len > 64,
        resumed@.target == target,
        resumed@.max == limits@,
        resumed@.expected == made@.expected,
{
}

/// A fresh segment holds a header alone. A written group is behind what stood there.
pub proof fn law_segments_advance(
    rotated: &mut ActiveSegment,
    done: (),
    appended: &mut ActiveSegment,
    plan: AppendPlan,
    written: (),
)
    requires
        call_ensures(ActiveSegment::rotated, (rotated,), done),
        call_ensures(ActiveSegment::appended, (appended, plan), written),
    ensures
        final(rotated)@.len == 64,
        !final(rotated)@.has_records,
        final(rotated)@.target == old(rotated)@.target,
        final(rotated)@.max == old(rotated)@.max,
        final(rotated)@.expected == old(rotated)@.expected,
        final(appended)@.len == plan.resulting_len,
        final(appended)@.has_records,
        final(appended)@.target == old(appended)@.target,
        final(appended)@.max == old(appended)@.max,
        plan.next_sequence is None ==> final(appended)@.expected is None,
        plan.next_sequence matches Some(sequence) ==> final(appended)@.expected == Some(sequence@),
{
}

/// Twenty decimal digits and a suffix.
pub open spec fn is_name(name: Seq<char>, value: u64, suffix: Seq<char>) -> bool {
    &&& name.len() == 20 + suffix.len()
    &&& forall|i: int|
        0 <= i < 20 ==> (#[trigger] name[i]) as int == 48 + (value as int / pow(
            10,
            (19 - i) as nat,
        )) % 10
    &&& name.skip(20) == suffix
}

/// Digit `i` of a decimal number.
proof fn lemma_decimal_digits(value: nat, width: nat, i: int)
    requires
        0 <= i < width,
    ensures
        names::decimal(value, width).len() == width,
        names::decimal(value, width)[i] == 48 + (value as int / pow(10, (width - 1 - i) as nat))
            % 10,
    decreases width,
{
    names::lemma_decimal(value, width);
    names::lemma_decimal(value / 10, (width - 1) as nat);
    if i == width - 1 {
        lemma_pow0(10);
        assert(value as int / 1 == value);
    } else {
        let k = (width - 2 - i) as nat;
        lemma_decimal_digits(value / 10, (width - 1) as nat, i);
        lemma_pow_positive(10, k);
        lemma_div_denominator(value as int, 10, pow(10, k));
        reveal(pow);
        assert(pow(10, (k + 1) as nat) == 10 * pow(10, k));
        assert((width - 1 - i) as nat == k + 1);
    }
}

/// Characters with small codes have those codes.
proof fn lemma_code(byte: u8)
    requires
        byte < 128,
    ensures
        (byte as char) as int == byte,
{
}

/// The model of names is twenty decimal digits and the suffix, and nothing else.
proof fn lemma_name(name: Seq<char>, value: u64, suffix: Seq<u8>, text: Seq<char>)
    requires
        names::is_ascii_bytes(suffix),
        text == names::ascii(suffix),
    ensures
        name == names::padded_name(value, suffix) <==> is_name(name, value, text),
{
    let model = names::padded_name(value, suffix);
    let digits = names::decimal(value as nat, 20);
    names::lemma_decimal(value as nat, 20);
    assert forall|i: int| 0 <= i < 20 implies (#[trigger] model[i]) as int == 48 + (value as int
        / pow(10, (19 - i) as nat)) % 10 by {
        lemma_decimal_digits(value as nat, 20, i);
        lemma_code(digits[i]);
        assert(model[i] == digits[i] as char);
    }
    assert(model.skip(20) =~= text);
    if is_name(name, value, text) {
        assert forall|i: int| 0 <= i < name.len() implies name[i] == model[i] by {
            if i < 20 {
                assert(name[i] as int == model[i] as int);
            } else {
                assert(name.skip(20)[i - 20] == text[i - 20]);
                assert(model.skip(20)[i - 20] == text[i - 20]);
            }
        }
        assert(name =~= model);
    }
}

/// The suffixes are these texts.
proof fn lemma_suffixes()
    ensures
        names::is_ascii_bytes(names::segment_suffix()),
        names::is_ascii_bytes(names::snapshot_suffix()),
        names::is_ascii_bytes(names::segment_suffix() + names::temp_suffix()),
        names::ascii(names::segment_suffix()) == ".wal"@,
        names::ascii(names::snapshot_suffix()) == ".snapshot"@,
        names::ascii(names::segment_suffix() + names::temp_suffix()) == ".wal.tmp"@,
{
    reveal_strlit(".wal");
    reveal_strlit(".snapshot");
    reveal_strlit(".wal.tmp");
    assert(names::ascii(names::segment_suffix()) =~= ".wal"@);
    assert(names::ascii(names::snapshot_suffix()) =~= ".snapshot"@);
    assert(names::ascii(names::segment_suffix() + names::temp_suffix()) =~= ".wal.tmp"@);
}

/// Names of segments and snapshots are twenty decimal digits and a suffix.
pub proof fn law_names(
    sequence: RecordSequence,
    watermark: u64,
    segment: String,
    temporary: String,
    snapshot: String,
)
    requires
        call_ensures(names::segment_name, (sequence,), segment),
        call_ensures(names::segment_temp_name, (sequence,), temporary),
        call_ensures(names::snapshot_name, (watermark,), snapshot),
    ensures
        is_name(segment@, sequence@, ".wal"@),
        is_name(temporary@, sequence@, ".wal.tmp"@),
        is_name(snapshot@, watermark, ".snapshot"@),
{
    lemma_suffixes();
    lemma_name(segment@, sequence@, names::segment_suffix(), ".wal"@);
    lemma_name(
        temporary@,
        sequence@,
        names::segment_suffix() + names::temp_suffix(),
        ".wal.tmp"@,
    );
    lemma_name(snapshot@, watermark, names::snapshot_suffix(), ".snapshot"@);
}

/// A name is read exactly if it is one, and gives the number in it.
pub proof fn law_names_are_read(
    name: &str,
    sequence: Option<RecordSequence>,
    watermark: Option<u64>,
    temporary: bool,
)
    requires
        call_ensures(names::parse_segment_name, (name,), sequence),
        call_ensures(names::parse_snapshot_name, (name,), watermark),
        call_ensures(names::is_segment_temp, (name,), temporary),
    ensures
        match sequence {
            Some(found) => found@ != 0 && is_name(name@, found@, ".wal"@),
            None => forall|value: u64| value != 0 ==> !#[trigger] is_name(name@, value, ".wal"@),
        },
        match watermark {
            Some(found) => is_name(name@, found, ".snapshot"@),
            None => forall|value: u64| !#[trigger] is_name(name@, value, ".snapshot"@),
        },
        ({
            let bytes = encode_utf8(name@);
            let tail = seq![0x2eu8, 0x77, 0x61, 0x6c, 0x2e, 0x74, 0x6d, 0x70];
            temporary <==> bytes.len() >= 8 && bytes.skip(bytes.len() - 8) == tail
        }),
{
    lemma_suffixes();
    assert forall|value: u64| #[trigger] is_name(name@, value, ".wal"@) implies name@
        == names::padded_name(value, names::segment_suffix()) by {
        lemma_name(name@, value, names::segment_suffix(), ".wal"@);
    }
    assert forall|value: u64| #[trigger] is_name(name@, value, ".snapshot"@) implies name@
        == names::padded_name(value, names::snapshot_suffix()) by {
        lemma_name(name@, value, names::snapshot_suffix(), ".snapshot"@);
    }
    if let Some(found) = sequence {
        lemma_name(name@, found@, names::segment_suffix(), ".wal"@);
    }
    if let Some(found) = watermark {
        lemma_name(name@, found, names::snapshot_suffix(), ".snapshot"@);
    }
    assert(names::segment_suffix() + names::temp_suffix() =~= seq![
        0x2eu8,
        0x77,
        0x61,
        0x6c,
        0x2e,
        0x74,
        0x6d,
        0x70,
    ]);
}

/// The header of a segment.
pub open spec fn is_segment_header(bytes: Seq<u8>, uuid: Seq<u8>, first: u64) -> bool {
    &&& bytes.len() == 64
    &&& bytes.subrange(0, 6) == seq![0x50u8, 0x44, 0x42, 0x53, 1, 0]
    &&& bytes.subrange(6, 8) == model::le(64, 2)
    &&& bytes.subrange(8, 24) == uuid
    &&& bytes.subrange(24, 32) == model::le(first as nat, 8)
    &&& forall|i: int| 32 <= i < 48 ==> (#[trigger] bytes[i]) == 0
    &&& forall|i: int|
        0 <= i < 16 ==> (#[trigger] bytes[48 + i]) == digest::blake3_hash(bytes.take(48))[i]
}

/// Headers of segments are laid out like this.
pub proof fn law_segment_headers_are_laid_out(uuid: Seq<u8>, first: u64)
    requires
        uuid.len() == 16,
    ensures
        is_segment_header(segment::header_enc(uuid, first), uuid, first),
{
    let bytes = segment::header_enc(uuid, first);
    let fields = segment::header_fields(uuid, first);
    segment::lemma_header_layout(uuid, first);
    assert(bytes.subrange(0, 6) =~= fields.subrange(0, 6));
    assert(bytes.subrange(6, 8) =~= fields.subrange(6, 8));
    assert(bytes.subrange(8, 24) =~= fields.subrange(8, 24));
    assert(bytes.subrange(24, 32) =~= fields.subrange(24, 32));
    assert forall|i: int| 32 <= i < 48 implies (#[trigger] bytes[i]) == 0 by {
        assert(bytes[i] == fields.subrange(32, 48)[i - 32]);
    }
    assert(bytes.take(48) =~= fields);
    assert forall|i: int| 0 <= i < 16 implies (#[trigger] bytes[48 + i]) == digest::blake3_hash(
        bytes.take(48),
    )[i] by {
        assert(bytes[48 + i] == digest::short_hash(fields)[i]);
    }
}

/// Headers of segments are written like this, and read exactly where they stand. What is wrong
/// with other bytes is reported.
pub proof fn law_segment_headers(
    uuid: DatabaseUuid,
    first: RecordSequence,
    written: Vec<u8>,
    bytes: &[u8],
    read: Result<RecordSequence, SegmentHeaderError>,
)
    requires
        first@ != 0,
        call_ensures(segment::segment_header, (uuid, first), written),
        call_ensures(segment::parse_segment_header, (bytes, uuid), read),
    ensures
        is_segment_header(written@, uuid@, first@),
        bytes@.len() >= 64 && bytes@.take(64) == written@ ==> (read matches Ok(sequence)
            && sequence@ == first@),
        match read {
            Ok(sequence) => {
                &&& bytes@.len() >= 64
                &&& sequence@ != 0
                &&& is_segment_header(bytes@.take(64), uuid@, sequence@)
            },
            Err(SegmentHeaderError::Truncated { expected, actual }) => {
                &&& bytes@.len() < 64
                &&& expected == 64
                &&& actual == bytes@.len()
            },
            Err(SegmentHeaderError::InvalidMagic(found)) => {
                &&& bytes@.len() >= 64
                &&& found@ == bytes@.subrange(0, 4)
                &&& found@ != seq![0x50u8, 0x44, 0x42, 0x53]
            },
            Err(SegmentHeaderError::UnsupportedVersion(found)) => {
                &&& bytes@.len() >= 64
                &&& found == bytes@[4] && found != 1
            },
            Err(SegmentHeaderError::UnsupportedFlags(found)) => {
                &&& bytes@.len() >= 64
                &&& bytes@[4] == 1
                &&& found == bytes@[5] && found != 0
            },
            Err(SegmentHeaderError::InvalidHeaderLength(found)) => {
                &&& bytes@.len() >= 64
                &&& bytes@[5] == 0
                &&& found == model::un_le(bytes@.subrange(6, 8)) && found != 64
            },
            Err(SegmentHeaderError::NonZeroReserved) => {
                &&& bytes@.len() >= 64
                &&& exists|i: int| 32 <= i < 48 && (#[trigger] bytes@[i]) != 0
            },
            Err(SegmentHeaderError::ChecksumMismatch) => {
                &&& bytes@.len() >= 64
                &&& exists|i: int|
                    0 <= i < 16 && (#[trigger] bytes@[48 + i]) != digest::blake3_hash(
                        bytes@.take(48),
                    )[i]
            },
            Err(SegmentHeaderError::DatabaseUuidMismatch { expected, actual }) => {
                &&& bytes@.len() >= 64
                &&& expected@ == uuid@
                &&& actual@ == bytes@.subrange(8, 24)
                &&& expected@ != actual@
            },
            Err(SegmentHeaderError::InvalidFirstSequence(found)) => {
                &&& bytes@.len() >= 64
                &&& found == 0
                &&& model::un_le(bytes@.subrange(24, 32)) == 0
            },
        },
{
    law_segment_headers_are_laid_out(uuid@, first@);
    if bytes@.len() >= 64 {
        model::lemma_spans();
        model::lemma_le_of_un_le(bytes@.subrange(6, 8));
        model::lemma_le_of_un_le(bytes@.subrange(24, 32));
        assert(segment::SEGMENT_MAGIC@ =~= seq![0x50u8, 0x44, 0x42, 0x53]);
        assert(layout::first_four(bytes@)@ =~= bytes@.subrange(0, 4));
        assert(crate::file::identity::identity_at(bytes@, 8)@ =~= bytes@.subrange(8, 24));
        let zeros = bytes@.subrange(32, 48);
        if !layout::all_zero(zeros) {
            let k = choose|k: int| 0 <= k < zeros.len() && #[trigger] zeros[k] != 0;
            assert(bytes@[32 + k] != 0);
        }
        let stored = bytes@.subrange(48, 64);
        let hash = digest::short_hash(bytes@.take(48));
        if stored != hash {
            assert(exists|i: int| 0 <= i < 16 && stored[i] != hash[i]) by {
                if forall|i: int| 0 <= i < 16 ==> stored[i] == hash[i] {
                    assert(stored =~= hash);
                }
            }
            let i = choose|i: int| 0 <= i < 16 && stored[i] != hash[i];
            assert(bytes@[48 + i] != digest::blake3_hash(bytes@.take(48))[i]);
        }
        segment::law_segment_header_is_canonical(bytes@, uuid);
        if let Ok(sequence) = read {
            law_segment_headers_are_laid_out(uuid@, sequence@);
        }
        if bytes@.take(64) == written@ {
            segment::law_segment_header_round_trip(uuid, first@, bytes@.skip(64));
            assert(bytes@ =~= written@ + bytes@.skip(64));
        }
    }
}

/// An identity that a database can have: not all zero, and of version 4.
pub open spec fn is_identity(uuid: Seq<u8>) -> bool {
    &&& exists|i: int| 0 <= i < 16 && (#[trigger] uuid[i]) != 0
    &&& 64 <= uuid[6] < 80
}

/// Identities keep their bytes, and are valid exactly if a database can have them.
pub proof fn law_identities(
    generated: DatabaseUuid,
    bytes: [u8; 16],
    made: DatabaseUuid,
    shown: &[u8; 16],
    data: &[u8],
    from: usize,
    cut: DatabaseUuid,
    same: bool,
    valid: bool,
)
    requires
        call_ensures(DatabaseUuid::generate, (), generated),
        call_ensures(DatabaseUuid::from_bytes, (bytes,), made),
        call_ensures(DatabaseUuid::as_bytes, (&made,), shown),
        from + 16 <= data@.len(),
        call_ensures(DatabaseUuid::from_slice, (data, from), cut),
        call_ensures(DatabaseUuid::same, (&made, &cut), same),
        call_ensures(DatabaseUuid::is_valid, (&made,), valid),
    ensures
        is_identity(generated@),
        128 <= generated@[8] < 192,
        shown@ == bytes@,
        made@ == bytes@,
        cut@ == data@.subrange(from as int, from + 16),
        same <==> bytes@ == cut@,
        valid <==> is_identity(bytes@),
{
    assert(generated@[6] != 0);
}

/// A manifest with snapshot budgets.
pub open spec fn is_manifest(bytes: Seq<u8>, content: manifest::ManifestView) -> bool {
    &&& bytes.len() == 96
    &&& bytes.subrange(0, 6) == seq![0x50u8, 0x44, 0x42, 0x4d, 2, 0]
    &&& bytes.subrange(6, 8) == model::le(96, 2)
    &&& bytes.subrange(8, 24) == content.uuid
    &&& bytes.subrange(24, 28) == model::le(content.max_record_len as nat, 4)
    &&& bytes.subrange(28, 32) == model::le(1, 4)
    &&& bytes.subrange(32, 40) == model::le(content.limits.max_total_bytes as nat, 8)
    &&& bytes.subrange(40, 44) == model::le(content.limits.max_collection_items as nat, 4)
    &&& bytes.subrange(44, 48) == model::le(content.limits.max_string_bytes as nat, 4)
    &&& bytes.subrange(48, 52) == model::le(content.limits.max_nested_items as nat, 4)
    &&& forall|i: int| 52 <= i < 64 ==> (#[trigger] bytes[i]) == 0
    &&& forall|i: int|
        0 <= i < 32 ==> (#[trigger] bytes[64 + i]) == digest::blake3_hash(bytes.take(64))[i]
}

/// A manifest that a database can have.
pub open spec fn is_usable(content: manifest::ManifestView) -> bool {
    &&& content.uuid.len() == 16
    &&& is_identity(content.uuid)
    &&& 48 <= content.max_record_len <= 0xffff_fff8
    &&& content.max_record_len % 8 == 0
    &&& snapshots::usable(content.limits)
}

/// Manifests are laid out like this.
proof fn lemma_manifest(content: manifest::ManifestView)
    requires
        content.uuid.len() == 16,
    ensures
        is_manifest(manifest::manifest_enc(content), content),
        content.valid() <==> is_usable(content),
{
    let bytes = manifest::manifest_enc(content);
    let fields = manifest::manifest_fields(content);
    manifest::lemma_manifest_layout(content);
    assert(bytes.subrange(0, 6) =~= fields.subrange(0, 6));
    assert(bytes.subrange(6, 8) =~= fields.subrange(6, 8));
    assert(bytes.subrange(8, 24) =~= fields.subrange(8, 24));
    assert(bytes.subrange(24, 28) =~= fields.subrange(24, 28));
    assert(bytes.subrange(28, 32) =~= fields.subrange(28, 32));
    assert(bytes.subrange(32, 40) =~= fields.subrange(32, 40));
    assert(bytes.subrange(40, 44) =~= fields.subrange(40, 44));
    assert(bytes.subrange(44, 48) =~= fields.subrange(44, 48));
    assert(bytes.subrange(48, 52) =~= fields.subrange(48, 52));
    assert forall|i: int| 52 <= i < 64 implies (#[trigger] bytes[i]) == 0 by {
        assert(bytes[i] == fields.subrange(52, 64)[i - 52]);
    }
    assert(bytes.take(64) =~= fields);
    assert forall|i: int| 0 <= i < 32 implies (#[trigger] bytes[64 + i]) == digest::blake3_hash(
        bytes.take(64),
    )[i] by {
        assert(bytes[64 + i] == digest::full_hash(fields)[i]);
    }
}

/// Manifests are written like this and read back. Only manifests that a database can have are
/// accepted, and what is wrong with other bytes is reported.
pub proof fn law_manifests(
    content: Manifest,
    written: Vec<u8>,
    bytes: &[u8],
    read: Result<Manifest, ManifestError>,
)
    requires
        call_ensures(manifest::manifest_bytes, (content,), written),
        call_ensures(manifest::parse_manifest, (bytes,), read),
    ensures
        is_manifest(written@, content@),
        bytes@ == written@ && is_usable(content@) ==> (read matches Ok(found) && found@
            == content@),
        match read {
            Ok(found) => is_manifest(bytes@, found@) && is_usable(found@),
            Err(ManifestError::InvalidLength(found)) => bytes@.len() != 96 && found
                == bytes@.len() as u64,
            Err(error) => bytes@.len() == 96 && match error {
                ManifestError::InvalidLength(_) => false,
                ManifestError::InvalidMagic(found) => found@ == bytes@.subrange(0, 4) && found@
                    != seq![0x50u8, 0x44, 0x42, 0x4d],
                ManifestError::UnsupportedVersion(found) => found == bytes@[4] && found != 2,
                ManifestError::InvalidHeaderLength(found) => bytes@[4] == 2 && found
                    == model::un_le(bytes@.subrange(6, 8)) && found != 96,
                ManifestError::NonZeroReserved => bytes@[5] != 0 || exists|i: int|
                    52 <= i < 64 && (#[trigger] bytes@[i]) != 0,
                ManifestError::ChecksumMismatch => exists|i: int|
                    0 <= i < 32 && (#[trigger] bytes@[64 + i]) != digest::blake3_hash(
                        bytes@.take(64),
                    )[i],
                ManifestError::InvalidDatabaseUuid => !is_identity(bytes@.subrange(8, 24)),
                ManifestError::UnsupportedSemanticsVersion(found) => found == model::un_le(
                    bytes@.subrange(28, 32),
                ) && found != 1,
                ManifestError::InvalidRecordLimit(found) => found == model::un_le(
                    bytes@.subrange(24, 28),
                ) && !(48 <= found <= 0xffff_fff8 && found % 8 == 0),
                ManifestError::InvalidSnapshotLimits => !snapshots::usable(
                    SnapshotLimits {
                        max_total_bytes: model::un_le(bytes@.subrange(32, 40)) as u64,
                        max_collection_items: model::un_le(bytes@.subrange(40, 44)) as u32,
                        max_string_bytes: model::un_le(bytes@.subrange(44, 48)) as u32,
                        max_nested_items: model::un_le(bytes@.subrange(48, 52)) as u32,
                    },
                ),
            },
        },
{
    lemma_manifest(content@);
    manifest::law_manifest_is_canonical(bytes@);
    if bytes@ == written@ && is_usable(content@) {
        manifest::law_manifest_round_trip(content@);
    }
    if let Ok(found) = read {
        lemma_manifest(found@);
    } else if bytes@.len() == 96 {
        model::lemma_spans();
        model::lemma_le_of_un_le(bytes@.subrange(6, 8));
        model::lemma_le_of_un_le(bytes@.subrange(24, 28));
        model::lemma_le_of_un_le(bytes@.subrange(28, 32));
        assert(manifest::MANIFEST_MAGIC@ =~= seq![0x50u8, 0x44, 0x42, 0x4d]);
        assert(layout::first_four(bytes@)@ =~= bytes@.subrange(0, 4));
        let zeros = bytes@.subrange(52, 64);
        if !layout::all_zero(zeros) {
            let k = choose|k: int| 0 <= k < zeros.len() && #[trigger] zeros[k] != 0;
            assert(bytes@[52 + k] != 0);
        }
        let stored = bytes@.subrange(64, 96);
        let hash = digest::full_hash(bytes@.take(64));
        if stored != hash {
            assert(exists|i: int| 0 <= i < 32 && stored[i] != hash[i]) by {
                if forall|i: int| 0 <= i < 32 ==> stored[i] == hash[i] {
                    assert(stored =~= hash);
                }
            }
            let i = choose|i: int| 0 <= i < 32 && stored[i] != hash[i];
            assert(bytes@[64 + i] != digest::blake3_hash(bytes@.take(64))[i]);
        }
    }
}

/// A manifest without snapshot budgets.
pub open spec fn is_manifest_v1(bytes: Seq<u8>, content: manifest_v1::ManifestView) -> bool {
    &&& bytes.len() == 64
    &&& bytes.subrange(0, 6) == seq![0x50u8, 0x44, 0x42, 0x4d, 1, 0]
    &&& bytes.subrange(6, 8) == model::le(64, 2)
    &&& bytes.subrange(8, 24) == content.uuid
    &&& bytes.subrange(24, 28) == model::le(content.max_record_len as nat, 4)
    &&& bytes.subrange(28, 32) == model::le(1, 4)
    &&& forall|i: int| 32 <= i < 48 ==> (#[trigger] bytes[i]) == 0
    &&& forall|i: int|
        0 <= i < 16 ==> (#[trigger] bytes[48 + i]) == digest::blake3_hash(bytes.take(48))[i]
}

/// A manifest without snapshot budgets that a database can have.
pub open spec fn is_usable_v1(content: manifest_v1::ManifestView) -> bool {
    &&& content.uuid.len() == 16
    &&& is_identity(content.uuid)
    &&& 48 <= content.max_record_len <= 0xffff_fff8
    &&& content.max_record_len % 8 == 0
}

/// Manifests without snapshot budgets are laid out like this.
proof fn lemma_manifest_v1(content: manifest_v1::ManifestView)
    requires
        content.uuid.len() == 16,
    ensures
        is_manifest_v1(manifest_v1::manifest_enc(content), content),
        content.valid() <==> is_usable_v1(content),
{
    let bytes = manifest_v1::manifest_enc(content);
    let fields = manifest_v1::manifest_fields(content);
    manifest_v1::lemma_manifest_layout(content);
    assert(bytes.subrange(0, 6) =~= fields.subrange(0, 6));
    assert(bytes.subrange(6, 8) =~= fields.subrange(6, 8));
    assert(bytes.subrange(8, 24) =~= fields.subrange(8, 24));
    assert(bytes.subrange(24, 28) =~= fields.subrange(24, 28));
    assert(bytes.subrange(28, 32) =~= fields.subrange(28, 32));
    assert forall|i: int| 32 <= i < 48 implies (#[trigger] bytes[i]) == 0 by {
        assert(bytes[i] == fields.subrange(32, 48)[i - 32]);
    }
    assert(bytes.take(48) =~= fields);
    assert forall|i: int| 0 <= i < 16 implies (#[trigger] bytes[48 + i]) == digest::blake3_hash(
        bytes.take(48),
    )[i] by {
        assert(bytes[48 + i] == digest::short_hash(fields)[i]);
    }
}

/// Manifests without snapshot budgets are written like this and read back. Only manifests that a
/// database can have are accepted, and what is wrong with other bytes is reported.
pub proof fn law_manifests_v1(
    content: manifest_v1::Manifest,
    written: Vec<u8>,
    bytes: &[u8],
    read: Result<manifest_v1::Manifest, ManifestError>,
)
    requires
        call_ensures(manifest_v1::manifest_bytes, (content,), written),
        call_ensures(manifest_v1::parse_manifest, (bytes,), read),
    ensures
        is_manifest_v1(written@, content@),
        bytes@ == written@ && is_usable_v1(content@) ==> (read matches Ok(found) && found@
            == content@),
        match read {
            Ok(found) => is_manifest_v1(bytes@, found@) && is_usable_v1(found@),
            Err(ManifestError::InvalidLength(found)) => bytes@.len() != 64 && found
                == bytes@.len() as u64,
            Err(error) => bytes@.len() == 64 && match error {
                ManifestError::InvalidMagic(found) => found@ == bytes@.subrange(0, 4) && found@
                    != seq![0x50u8, 0x44, 0x42, 0x4d],
                ManifestError::UnsupportedVersion(found) => found == bytes@[4] && found != 1,
                ManifestError::InvalidHeaderLength(found) => bytes@[4] == 1 && found
                    == model::un_le(bytes@.subrange(6, 8)) && found != 64,
                ManifestError::NonZeroReserved => bytes@[5] != 0 || exists|i: int|
                    32 <= i < 48 && (#[trigger] bytes@[i]) != 0,
                ManifestError::ChecksumMismatch => exists|i: int|
                    0 <= i < 16 && (#[trigger] bytes@[48 + i]) != digest::blake3_hash(
                        bytes@.take(48),
                    )[i],
                ManifestError::InvalidDatabaseUuid => !is_identity(bytes@.subrange(8, 24)),
                ManifestError::UnsupportedSemanticsVersion(found) => found == model::un_le(
                    bytes@.subrange(28, 32),
                ) && found != 1,
                ManifestError::InvalidRecordLimit(found) => found == model::un_le(
                    bytes@.subrange(24, 28),
                ) && !(48 <= found <= 0xffff_fff8 && found % 8 == 0),
                _ => false,
            },
        },
{
    lemma_manifest_v1(content@);
    manifest_v1::law_manifest_is_canonical(bytes@);
    if bytes@ == written@ && is_usable_v1(content@) {
        manifest_v1::law_manifest_round_trip(content@);
    }
    if let Ok(found) = read {
        lemma_manifest_v1(found@);
    } else if bytes@.len() == 64 {
        model::lemma_spans();
        model::lemma_le_of_un_le(bytes@.subrange(6, 8));
        model::lemma_le_of_un_le(bytes@.subrange(24, 28));
        model::lemma_le_of_un_le(bytes@.subrange(28, 32));
        assert(manifest::MANIFEST_MAGIC@ =~= seq![0x50u8, 0x44, 0x42, 0x4d]);
        assert(layout::first_four(bytes@)@ =~= bytes@.subrange(0, 4));
        let zeros = bytes@.subrange(32, 48);
        if !layout::all_zero(zeros) {
            let k = choose|k: int| 0 <= k < zeros.len() && #[trigger] zeros[k] != 0;
            assert(bytes@[32 + k] != 0);
        }
        let stored = bytes@.subrange(48, 64);
        let hash = digest::short_hash(bytes@.take(48));
        if stored != hash {
            assert(exists|i: int| 0 <= i < 16 && stored[i] != hash[i]) by {
                if forall|i: int| 0 <= i < 16 ==> stored[i] == hash[i] {
                    assert(stored =~= hash);
                }
            }
            let i = choose|i: int| 0 <= i < 16 && stored[i] != hash[i];
            assert(bytes@[48 + i] != digest::blake3_hash(bytes@.take(48))[i]);
        }
    }
}

/// Options are accepted exactly if their limits can be used and a segment can hold a record.
pub proof fn law_options(
    options: FileDatabaseOptions,
    out: Result<FileDatabaseOptions, FileDatabaseError>,
    defaults: FileDatabaseOptions,
    inner: DatabaseOptions,
    content: &Manifest,
    opened: Result<(), FileDatabaseError>,
)
    requires
        call_ensures(FileDatabaseOptions::validate, (options,), out),
        call_ensures(<FileDatabaseOptions as Default>::default, (), defaults),
        call_ensures(FileDatabaseOptions::database_options, (options,), inner),
        call_ensures(opening::check_limits, (content, &options), opened),
    ensures
        snapshots::usable(options.snapshot_limits) && options.segment_target >= 112 <==> out
            == Ok::<FileDatabaseOptions, FileDatabaseError>(options),
        !snapshots::usable(options.snapshot_limits) ==> out == Err::<
            FileDatabaseOptions,
            FileDatabaseError,
        >(FileDatabaseError::Manifest(ManifestError::InvalidSnapshotLimits)),
        snapshots::usable(options.snapshot_limits) && options.segment_target < 112 ==> out == Err::<
            FileDatabaseOptions,
            FileDatabaseError,
        >(
            FileDatabaseError::InvalidSegmentTarget {
                target: options.segment_target,
                minimum: 112,
            },
        ),
        defaults.durability == Durability::Sync,
        defaults.record_limits@ == 0x0400_0000,
        defaults.segment_target == 0x1000_0000,
        defaults.snapshot_limits.max_total_bytes == 0x2000_0000,
        defaults.snapshot_limits.max_collection_items == 4_000_000,
        defaults.snapshot_limits.max_string_bytes == 0x100_0000,
        defaults.snapshot_limits.max_nested_items == 4_000_000,
        inner.durability == options.durability,
        inner.record_limits == options.record_limits,
        opened is Ok <==> content.record_limits@ == options.record_limits@
            && content.snapshot_limits == options.snapshot_limits,
        opened matches Err(FileDatabaseError::RecordLimitsMismatch { persisted, requested })
            ==> persisted == content.record_limits@ && requested == options.record_limits@
            && persisted != requested,
        opened matches Err(FileDatabaseError::SnapshotLimitsMismatch { persisted, requested })
            ==> persisted == content.snapshot_limits && requested == options.snapshot_limits
            && content.record_limits@ == options.record_limits@,
        opened matches Err(error) ==> error is RecordLimitsMismatch || error
            is SnapshotLimitsMismatch,
{
}

/// Recovery behind a snapshot goes on at the position behind its watermark, and needs the segments
/// from there on. Behind the last possible watermark there is no position.
pub proof fn law_recovery_behind_a_snapshot<E: Engine>(
    watermark: Option<u64>,
    minimum: u64,
    loaded: Option<(u64, E)>,
    start: EngineRecovery<E>,
)
    requires
        call_ensures(opening::minimum_sequence, (watermark,), minimum),
        call_ensures(opening::start_recovery::<E>, (loaded,), start),
    ensures
        watermark is None ==> minimum == 1,
        watermark matches Some(number) ==> (number < u64::MAX ==> minimum == number + 1),
        watermark == Some(u64::MAX) ==> minimum == 1,
        loaded is None ==> start.state().starts() && start.next() == Some(1u64),
        loaded matches Some((number, engine)) ==> start.state() == engine && (number < u64::MAX
            ==> start.next() == Some((number + 1) as u64)) && (number == u64::MAX ==> start.next()
            is None),
{
}

/// An entry is a live segment if it is a file with the name of a segment that is needed, obsolete
/// if that segment is not needed, and foreign otherwise.
pub proof fn law_segment_entries(
    name: Option<&str>,
    is_file: bool,
    minimum: u64,
    out: SegmentEntry,
)
    requires
        call_ensures(opening::classify_segment, (name, is_file, minimum), out),
    ensures
        match out {
            SegmentEntry::Live(sequence) => {
                &&& is_file
                &&& name matches Some(text)
                &&& sequence@ != 0
                &&& sequence@ >= minimum
                &&& is_name(text@, sequence@, ".wal"@)
            },
            SegmentEntry::Obsolete => {
                &&& is_file
                &&& name matches Some(text)
                &&& exists|value: u64|
                    0 < value < minimum && #[trigger] is_name(text@, value, ".wal"@)
            },
            SegmentEntry::Foreign => is_file ==> (name matches Some(text) ==> forall|value: u64|
                value != 0 ==> !#[trigger] is_name(text@, value, ".wal"@)),
        },
{
    lemma_suffixes();
    if let Some(text) = name {
        assert forall|value: u64| #[trigger] is_name(text@, value, ".wal"@) implies text@
            == names::padded_name(value, names::segment_suffix()) by {
            lemma_name(text@, value, names::segment_suffix(), ".wal"@);
        }
        match out {
            SegmentEntry::Live(sequence) => {
                lemma_name(text@, sequence@, names::segment_suffix(), ".wal"@);
            },
            SegmentEntry::Obsolete => {
                let value = choose|value: u64|
                    0 < value < minimum && text@ == #[trigger] names::padded_name(
                        value,
                        names::segment_suffix(),
                    );
                lemma_name(text@, value, names::segment_suffix(), ".wal"@);
                assert(is_name(text@, value, ".wal"@));
            },
            SegmentEntry::Foreign => {},
        }
    }
}

/// A segment is accepted exactly if its header is valid and says what its name says.
pub proof fn law_segments_are_checked(
    path: PathBuf,
    named: RecordSequence,
    header: Result<RecordSequence, SegmentHeaderError>,
    out: Result<SegmentInfo, FileDatabaseError>,
    expected: Option<RecordSequence>,
    actual: RecordSequence,
    follows: Result<(), FileDatabaseError>,
)
    requires
        call_ensures(opening::check_segment, (path, named, header), out),
        call_ensures(opening::check_segment_sequence, (path, expected, actual), follows),
    ensures
        out is Ok <==> (header matches Ok(sequence) && sequence@ == named@),
        out matches Ok(info) ==> info.path == path && info.first_sequence@ == named@,
        header matches Err(source) ==> out == Err::<SegmentInfo, FileDatabaseError>(
            FileDatabaseError::SegmentHeader { path, source },
        ),
        header matches Ok(sequence) ==> (sequence@ != named@ ==> out == Err::<
            SegmentInfo,
            FileDatabaseError,
        >(
            FileDatabaseError::SegmentNameSequence {
                path,
                filename_sequence: named@,
                header_sequence: sequence@,
            },
        )),
        follows is Ok <==> (expected matches Some(sequence) && sequence@ == actual@),
        follows matches Err(error) ==> error == (FileDatabaseError::SegmentSequence {
            path,
            expected: match expected {
                Some(sequence) => Some(sequence@),
                None => None,
            },
            actual: actual@,
        }),
{
    if let Ok(done) = follows {
        assert(done == ());
    }
}

/// Segments are put into ascending order, and none is lost or added.
pub proof fn law_segments_are_ordered(
    directory: PathBuf,
    segments: Vec<SegmentInfo>,
    out: Result<Vec<SegmentInfo>, FileDatabaseError>,
)
    requires
        call_ensures(opening::order_segments, (directory, segments), out),
    ensures
        segments@.len() == 0 ==> out == Err::<Vec<SegmentInfo>, FileDatabaseError>(
            FileDatabaseError::MissingSegments(directory),
        ),
        segments@.len() > 0 ==> out is Ok,
        out matches Ok(ordered) ==> ordered@.to_multiset() == segments@.to_multiset()
            && forall|i: int, j: int|
            0 <= i < j < ordered@.len() ==> (#[trigger] ordered@[i]).first_sequence@ <= (
            #[trigger] ordered@[j]).first_sequence@,
{
}

/// A segment that was read to its end is left. One that ends in a record that is cut off is cut
/// back to its complete records if it is the last. Everything else ends recovery.
pub proof fn law_after_feed(
    path: PathBuf,
    sealed: bool,
    fed: Result<u64, RecoveryError>,
    out: FeedDecision,
)
    requires
        fed matches Err(error) ==> error.valid_through() <= u64::MAX - 64 && error.found_at()
            <= u64::MAX - 64,
        call_ensures(opening::after_feed, (path, sealed, fed), out),
    ensures
        match fed {
            Ok(offset) => out == FeedDecision::Advance(offset),
            Err(RecoveryError::Storage {
                last_valid_offset,
                source: StorageError::PartialTail { offset, expected, actual },
            }) => if sealed {
                out == FeedDecision::Fail(
                    FileDatabaseError::SegmentRecovery {
                        path,
                        physical_offset: (64 + offset) as u64,
                        sealed,
                        source: fed->Err_0,
                    },
                )
            } else {
                out == (FeedDecision::Repair {
                    valid_offset: last_valid_offset,
                    physical_length: (64 + last_valid_offset) as u64,
                })
            },
            Err(error) => out == FeedDecision::Fail(
                FileDatabaseError::SegmentRecovery {
                    path,
                    physical_offset: (64 + error.found_at()) as u64,
                    sealed,
                    source: error,
                },
            ),
        },
{
}

/// A later snapshot takes the place of an earlier one. Entries that are no snapshots are refused.
pub proof fn law_snapshots_are_chosen(
    latest: Option<u64>,
    watermark: u64,
    later: bool,
    name: Option<&str>,
    is_file: bool,
    out: Result<Option<u64>, ()>,
    length: u64,
    limits: SnapshotLimits,
    checked: Result<usize, SnapshotError>,
)
    requires
        call_ensures(opening::is_later_snapshot, (latest, watermark), later),
        call_ensures(opening::note_snapshot, (latest, name, is_file), out),
        call_ensures(opening::check_snapshot_length, (length, limits), checked),
    ensures
        later <==> (latest matches Some(current) ==> watermark > current),
        match out {
            Ok(now) => {
                &&& is_file
                &&& name matches Some(text)
                &&& exists|found: u64| #[trigger]
                    is_name(text@, found, ".snapshot"@) && (latest is None ==> now == Some(found))
                        && (latest matches Some(current) ==> now == Some(
                        if found > current {
                            found
                        } else {
                            current
                        },
                    ))
            },
            Err(_) => is_file ==> (name matches Some(text) ==> forall|value: u64|
                !#[trigger] is_name(text@, value, ".snapshot"@)),
        },
        length <= limits.max_total_bytes && length <= usize::MAX <==> checked is Ok,
        checked matches Ok(found) ==> found == length,
        length > limits.max_total_bytes ==> checked == Err::<usize, SnapshotError>(
            SnapshotError::Limit {
                field: "total bytes",
                value: length,
                maximum: limits.max_total_bytes,
            },
        ),
        length <= limits.max_total_bytes && length > usize::MAX ==> checked == Err::<
            usize,
            SnapshotError,
        >(
            SnapshotError::Limit {
                field: "total bytes",
                value: length,
                maximum: usize::MAX as u64,
            },
        ),
{
    lemma_suffixes();
    if let Some(text) = name {
        assert forall|value: u64| #[trigger] is_name(text@, value, ".snapshot"@) implies text@
            == names::padded_name(value, names::snapshot_suffix()) by {
            lemma_name(text@, value, names::snapshot_suffix(), ".snapshot"@);
        }
        if let Ok(now) = out {
            let found = choose|found: u64|
                text@ == #[trigger] names::padded_name(found, names::snapshot_suffix()) && now
                    == Some(opening::latest_of(latest, found));
            lemma_name(text@, found, names::snapshot_suffix(), ".snapshot"@);
            assert(is_name(text@, found, ".snapshot"@));
        }
    }
}

/// A snapshot represents the records in front of the next one. Where the active segment holds
/// records, a fresh one is installed first.
pub proof fn law_snapshots_are_planned(
    poisoned: bool,
    next: Option<RecordSequence>,
    has_records: bool,
    out: Result<SnapshotPlan, FileDatabaseError>,
)
    requires
        next matches Some(sequence) ==> sequence@ != 0,
        call_ensures(opening::plan_snapshot, (poisoned, next, has_records), out),
    ensures
        poisoned <==> out == Err::<SnapshotPlan, FileDatabaseError>(
            FileDatabaseError::SnapshotPoisoned,
        ),
        !poisoned ==> out is Ok,
        out matches Ok(plan) ==> {
            &&& next matches Some(sequence) ==> plan.watermark == sequence@ - 1
            &&& next is None ==> plan.watermark == u64::MAX
            &&& has_records ==> plan.rotate_to == next
            &&& !has_records ==> plan.rotate_to is None
        },
{
}

/// A walk over segments starts in front of the first one, or behind the last one where there is
/// nothing to recover.
pub proof fn law_walks_begin<E: Engine>(
    loaded: Option<(u64, E)>,
    segments: Vec<SegmentInfo>,
    out: SegmentWalk<E>,
)
    requires
        segments@.len() > 0,
        call_ensures(SegmentWalk::<E>::begin, (loaded, segments), out),
    ensures
        out.wf(),
        out.all() == segments@,
        out.through() == 0,
        loaded is None ==> out.state().state().starts() && out.state().next() == Some(1u64)
            && out.done() == 0,
        loaded matches Some((number, engine)) ==> out.state().state() == engine && (number
            < u64::MAX ==> out.state().next() == Some((number + 1) as u64) && out.done() == 0) && (
        number == u64::MAX ==> out.state().next() is None && out.done() == segments@.len()),
{
}

/// A walk goes over the segments in order. Each must start at the next position.
pub proof fn law_walks_go_on<E: Engine>(
    walk: &SegmentWalk<E>,
    out: Result<Option<&SegmentInfo>, FileDatabaseError>,
)
    requires
        walk.wf(),
        call_ensures(SegmentWalk::<E>::next_segment, (walk,), out),
    ensures
        walk.done() == walk.all().len() ==> out == Ok::<Option<&SegmentInfo>, FileDatabaseError>(
            None,
        ),
        walk.done() != walk.all().len() && walk.state().next() == Some(
            walk.all()[walk.done() as int].first_sequence@,
        ) ==> out == Ok::<Option<&SegmentInfo>, FileDatabaseError>(
            Some(&walk.all()[walk.done() as int]),
        ),
        walk.done() != walk.all().len() && walk.state().next() != Some(
            walk.all()[walk.done() as int].first_sequence@,
        ) ==> out == Err::<Option<&SegmentInfo>, FileDatabaseError>(
            FileDatabaseError::SegmentSequence {
                path: walk.all()[walk.done() as int].path,
                expected: walk.state().next(),
                actual: walk.all()[walk.done() as int].first_sequence@,
            },
        ),
{
}

/// A walk that is told how a segment ended goes on behind it, or ends there. Only the last segment
/// may end in a record that is cut off, and has to be cut back to its complete records then.
pub proof fn law_walks_conclude<E: Engine>(
    walk: &mut SegmentWalk<E>,
    fed: Result<u64, RecoveryError>,
    out: Result<Option<u64>, FileDatabaseError>,
)
    requires
        old(walk).wf(),
        old(walk).done() < old(walk).all().len(),
        fed matches Ok(offset) ==> offset <= u64::MAX - 64,
        fed matches Err(error) ==> error.valid_through() <= u64::MAX - 64 && error.found_at()
            <= u64::MAX - 64,
        call_ensures(SegmentWalk::<E>::conclude, (walk, fed), out),
    ensures
        final(walk).wf(),
        final(walk).all() == old(walk).all(),
        final(walk).state() == old(walk).state(),
        match fed {
            Ok(offset) => {
                &&& out == Ok::<Option<u64>, FileDatabaseError>(None)
                &&& final(walk).done() == old(walk).done() + 1
                &&& final(walk).through() == offset
            },
            Err(error) => {
                let cut = error matches RecoveryError::Storage {
                    source: StorageError::PartialTail { .. },
                    ..
                };
                let last = old(walk).done() + 1 == old(walk).all().len();
                if cut && last {
                    &&& out == Ok::<Option<u64>, FileDatabaseError>(
                        Some((64 + error.valid_through()) as u64),
                    )
                    &&& final(walk).done() == old(walk).done() + 1
                    &&& final(walk).through() == error.valid_through()
                } else {
                    &&& out == Err::<Option<u64>, FileDatabaseError>(
                        FileDatabaseError::SegmentRecovery {
                            path: old(walk).all()[old(walk).done() as int].path,
                            physical_offset: (64 + error.found_at()) as u64,
                            sealed: !last,
                            source: error,
                        },
                    )
                    &&& *final(walk) == *old(walk)
                }
            },
        },
{
}

/// A walk ends with the last segment as the active one and with what the end of recovery gives.
pub proof fn law_walks_finish<E: Engine>(
    walk: SegmentWalk<E>,
    out: Result<(RecoveryOutcome<E>, SegmentInfo), FileDatabaseError>,
    changed: &mut SegmentWalk<E>,
    handle: &mut EngineRecovery<E>,
)
    requires
        walk.wf(),
        call_ensures(SegmentWalk::<E>::finish, (walk,), out),
        call_ensures(SegmentWalk::<E>::recovery_mut, (changed,), handle),
    ensures
        match out {
            Ok((outcome, active)) => {
                &&& active == walk.all()[walk.all().len() - 1]
                &&& replays::finish_verdict(walk.state(), walk.through(), Ok(outcome))
            },
            Err(FileDatabaseError::SegmentRecovery { path, physical_offset, sealed, source }) => {
                &&& path == walk.all()[walk.all().len() - 1].path
                &&& physical_offset == 64 + walk.through()
                &&& !sealed
                &&& replays::finish_verdict(walk.state(), walk.through(), Err(source))
            },
            Err(_) => false,
        },
        *old(handle) == old(changed).state(),
        final(changed).state() == *final(handle),
        final(changed).all() == old(changed).all(),
        final(changed).done() == old(changed).done(),
        final(changed).through() == old(changed).through(),
{
}

/// After a snapshot was installed, everything but it and the active segment goes and is counted.
pub proof fn law_compaction(
    active: RecordSequence,
    watermark: u64,
    made: Compaction,
    segments: &mut Compaction,
    snapshots: &mut Compaction,
    name: &str,
    goes: bool,
    superseded: bool,
    nameless: &mut Compaction,
    unnamed: bool,
    path: PathBuf,
    bytes: u64,
    report: SnapshotOutcome,
)
    requires
        call_ensures(Compaction::new, (active, watermark), made),
        old(segments)@.segments_removed < usize::MAX,
        old(snapshots)@.older_snapshots_removed < usize::MAX,
        old(nameless)@.segments_removed < usize::MAX,
        call_ensures(Compaction::removes_segment, (segments, Some(name)), goes),
        call_ensures(Compaction::removes_snapshot, (snapshots, Some(name)), superseded),
        call_ensures(Compaction::removes_segment, (nameless, None), unnamed),
        call_ensures(Compaction::outcome, (made, path, bytes), report),
    ensures
        made@.active == active@,
        made@.watermark == watermark,
        made@.segments_removed == 0,
        made@.older_snapshots_removed == 0,
        goes <==> !is_name(name@, old(segments)@.active, ".wal"@),
        final(segments)@.segments_removed == old(segments)@.segments_removed + if goes {
            1int
        } else {
            0
        },
        final(segments)@.active == old(segments)@.active,
        final(segments)@.watermark == old(segments)@.watermark,
        final(segments)@.older_snapshots_removed == old(segments)@.older_snapshots_removed,
        superseded <==> !is_name(name@, old(snapshots)@.watermark, ".snapshot"@),
        final(snapshots)@.older_snapshots_removed == old(snapshots)@.older_snapshots_removed
            + if superseded {
            1int
        } else {
            0
        },
        final(snapshots)@.active == old(snapshots)@.active,
        final(snapshots)@.watermark == old(snapshots)@.watermark,
        final(snapshots)@.segments_removed == old(snapshots)@.segments_removed,
        unnamed,
        final(nameless)@.segments_removed == old(nameless)@.segments_removed + 1,
        report.path == path,
        report.bytes == bytes,
        report.watermark == watermark,
        report.segments_removed == 0,
        report.older_snapshots_removed == 0,
{
    lemma_suffixes();
    lemma_name(name@, old(segments)@.active, names::segment_suffix(), ".wal"@);
    lemma_name(name@, old(snapshots)@.watermark, names::snapshot_suffix(), ".snapshot"@);
}

/// The counts of a compaction are what it reports.
pub proof fn law_compaction_reports_its_counts(
    compaction: Compaction,
    segments: usize,
    snapshots: usize,
    path: PathBuf,
    bytes: u64,
    report: SnapshotOutcome,
)
    requires
        call_ensures(Compaction::segments_removed, (&compaction,), segments),
        call_ensures(Compaction::older_snapshots_removed, (&compaction,), snapshots),
        call_ensures(Compaction::outcome, (compaction, path, bytes), report),
    ensures
        report.segments_removed == segments,
        report.older_snapshots_removed == snapshots,
        segments == compaction@.segments_removed,
        snapshots == compaction@.older_snapshots_removed,
        report.watermark == compaction@.watermark,
        report.path == path,
        report.bytes == bytes,
{
}

/// Inspection tells groups from other bytes, also where memory is asked for.
pub proof fn law_inspect_batch(
    segment: &ActiveSegment,
    bytes: &[u8],
    out: Result<(RecordSequence, Option<RecordSequence>), StorageError>,
)
    requires
        call_ensures(ActiveSegment::inspect_batch, (segment, bytes), out),
    ensures
        match out {
            Ok((first, next)) => exists|
                grants: Seq<bool>,
                behind: Option<u64>,
                readers: Seq<ReaderView>,
                records: Seq<RecordView>,
            |
                (next is None <==> behind is None) && (next matches Some(sequence) ==> behind
                    == Some(sequence@)) && #[trigger] group_scanned(
                    segment@,
                    bytes@,
                    grants,
                    first@,
                    behind,
                    readers,
                    records,
                ),
            Err(error) => exists|
                grants: Seq<bool>,
                readers: Seq<ReaderView>,
                records: Seq<RecordView>,
            | #[trigger] group_refused(segment@, bytes@, grants, error, readers, records),
        },
{
    let grants = choose|grants: Seq<bool>|
        segmented::sequences_view(out) == #[trigger] segmented::inspected(
            segment@,
            bytes@,
            grants,
        );
    law_groups_are_inspected(segment@, bytes@, grants);
}

/// Every entry but the active segment is covered, and every entry but the snapshot superseded.
pub proof fn law_superfluous_entries(
    name: &str,
    active: RecordSequence,
    watermark: u64,
    covered: bool,
    superseded: bool,
)
    requires
        call_ensures(compaction::is_covered, (name, active), covered),
        call_ensures(compaction::is_superseded, (name, watermark), superseded),
    ensures
        covered <==> !is_name(name@, active@, ".wal"@),
        superseded <==> !is_name(name@, watermark, ".snapshot"@),
{
    lemma_suffixes();
    lemma_name(name@, active@, names::segment_suffix(), ".wal"@);
    lemma_name(name@, watermark, names::snapshot_suffix(), ".snapshot"@);
}

/// A name is twenty decimal digits and the suffix.
pub proof fn law_any_names(value: u64, suffix: &[u8], made: String, text: Seq<char>)
    requires
        forall|i: int| 0 <= i < suffix@.len() ==> #[trigger] suffix@[i] < 128,
        text.len() == suffix@.len(),
        forall|i: int| 0 <= i < text.len() ==> (#[trigger] text[i]) as int == suffix@[i],
        call_ensures(names::make_name, (value, suffix), made),
    ensures
        is_name(made@, value, text),
{
    let codes = names::ascii(suffix@);
    assert forall|i: int| 0 <= i < text.len() implies text[i] == codes[i] by {
        lemma_code(suffix@[i]);
        assert(text[i] as int == codes[i] as int);
    }
    assert(text =~= codes);
    lemma_name(made@, value, suffix@, text);
}

} // verus!

//! What opening a database directory and installing snapshots decide.

use crate::engine::Engine;
use crate::error::StorageError;
use crate::file::manifest::Manifest;
use crate::file::names;
use crate::file::names::{parse_segment_name, parse_snapshot_name};
use crate::file::options::{FileDatabaseError, FileDatabaseOptions};
use crate::file::segment::{SegmentHeaderError, SEGMENT_HEADER_LEN};
use crate::record;
use crate::record::frame;
use crate::record::RecordSequence;
use crate::replay::{recovery_error_offset, EngineRecovery, RecoveryError};
use crate::snapshot::limits::{SnapshotError, SnapshotLimits};
use std::path::PathBuf;
use vstd::prelude::*;

verus! {

/// Requires that a database is opened with the limits that it was created with.
pub fn check_limits(manifest: &Manifest, options: &FileDatabaseOptions) -> (out: Result<
    (),
    FileDatabaseError,
>)
    ensures
        out == if manifest.record_limits@ != options.record_limits@ {
            Err(
                FileDatabaseError::RecordLimitsMismatch {
                    persisted: manifest.record_limits@,
                    requested: options.record_limits@,
                },
            )
        } else if manifest.snapshot_limits != options.snapshot_limits {
            Err(
                FileDatabaseError::SnapshotLimitsMismatch {
                    persisted: manifest.snapshot_limits,
                    requested: options.snapshot_limits,
                },
            )
        } else {
            Ok(())
        },
{
    let persisted = manifest.record_limits.max_record_len();
    let requested = options.record_limits.max_record_len();
    if persisted != requested {
        return Err(FileDatabaseError::RecordLimitsMismatch { persisted, requested });
    }
    if manifest.snapshot_limits != options.snapshot_limits {
        return Err(
            FileDatabaseError::SnapshotLimitsMismatch {
                persisted: manifest.snapshot_limits,
                requested: options.snapshot_limits,
            },
        );
    }
    Ok(())
}

/// The first sequence that is not represented by a snapshot at the given watermark. A snapshot
/// at the last possible watermark makes no segment obsolete.
pub open spec fn first_needed(watermark: Option<u64>) -> u64 {
    match watermark {
        Some(watermark) => if watermark == u64::MAX {
            1
        } else {
            (watermark + 1) as u64
        },
        None => 1,
    }
}

/// Returns the smallest first sequence of a segment that is needed next to a snapshot.
pub fn minimum_sequence(watermark: Option<u64>) -> (out: u64)
    ensures
        out == first_needed(watermark),
{
    match watermark {
        Some(watermark) => match watermark.checked_add(1) {
            Some(next) => next,
            None => 1,
        },
        None => 1,
    }
}

/// Starts recovery with what a snapshot restored, or with nothing.
pub fn start_recovery<E: Engine>(loaded: Option<(u64, E)>) -> (out: EngineRecovery<E>)
    ensures
        match loaded {
            Some((watermark, engine)) => out.state() == engine && out.next()
                == frame::next_sequence(watermark),
            None => out.state().starts() && out.next() == Some(1u64),
        },
{
    match loaded {
        Some((watermark, engine)) => {
            if watermark == u64::MAX {
                EngineRecovery::from_exhausted_snapshot(engine)
            } else {
                match RecordSequence::new(watermark + 1) {
                    Some(next) => EngineRecovery::with_expected(next, engine),
                    None => EngineRecovery::from_exhausted_snapshot(engine),
                }
            }
        },
        None => EngineRecovery::new(),
    }
}

/// What a directory entry among the segments is.
#[derive(Debug, Clone, Copy, PartialEq, Eq)]
pub enum SegmentEntry {
    /// Not a segment.
    Foreign,
    /// A segment that a snapshot represents.
    Obsolete,
    /// The segment that starts at the given sequence.
    Live(RecordSequence),
}

/// Decides what a directory entry among the segments is. A name that is not text is given as
/// `None`.
pub fn classify_segment(name: Option<&str>, is_file: bool, minimum_sequence: u64) -> (out:
    SegmentEntry)
    ensures
        match out {
            SegmentEntry::Live(sequence) => is_file && sequence@ != 0 && sequence@
                >= minimum_sequence && (name matches Some(name) && name@ == names::padded_name(
                sequence@,
                names::segment_suffix(),
            )),
            SegmentEntry::Obsolete => is_file && (name matches Some(name) && exists|value: u64|
                0 < value < minimum_sequence && name@ == #[trigger] names::padded_name(
                    value,
                    names::segment_suffix(),
                )),
            SegmentEntry::Foreign => is_file ==> (name matches Some(name) ==> forall|value: u64|
                value != 0 ==> name@ != #[trigger] names::padded_name(
                    value,
                    names::segment_suffix(),
                )),
        },
{
    let name = match name {
        Some(name) => name,
        None => {
            return SegmentEntry::Foreign;
        },
    };
    if !is_file {
        return SegmentEntry::Foreign;
    }
    match parse_segment_name(name) {
        None => SegmentEntry::Foreign,
        Some(sequence) => {
            if sequence.get() < minimum_sequence {
                SegmentEntry::Obsolete
            } else {
                SegmentEntry::Live(sequence)
            }
        },
    }
}

/// A segment that recovery reads.
#[derive(Debug, Clone, PartialEq, Eq)]
pub struct SegmentInfo {
    /// Where it is.
    pub path: PathBuf,
    /// Its first sequence.
    pub first_sequence: RecordSequence,
}

/// Requires that the header of a segment is valid and agrees with its name.
pub fn check_segment(
    path: PathBuf,
    filename_sequence: RecordSequence,
    header: Result<RecordSequence, SegmentHeaderError>,
) -> (out: Result<SegmentInfo, FileDatabaseError>)
    ensures
        match (header, out) {
            (Err(source), Err(error)) => error == (FileDatabaseError::SegmentHeader {
                path,
                source,
            }),
            (Ok(sequence), Ok(info)) => sequence@ == filename_sequence@ && info.path == path
                && info.first_sequence == sequence,
            (Ok(sequence), Err(error)) => sequence@ != filename_sequence@ && error == (
            FileDatabaseError::SegmentNameSequence {
                path,
                filename_sequence: filename_sequence@,
                header_sequence: sequence@,
            }),
            _ => false,
        },
{
    let first_sequence = match header {
        Ok(sequence) => sequence,
        Err(source) => {
            return Err(FileDatabaseError::SegmentHeader { path, source });
        },
    };
    if filename_sequence.get() != first_sequence.get() {
        return Err(
            FileDatabaseError::SegmentNameSequence {
                path,
                filename_sequence: filename_sequence.get(),
                header_sequence: first_sequence.get(),
            },
        );
    }
    Ok(SegmentInfo { path, first_sequence })
}

/// The segments are in ascending order of their first sequences.
pub open spec fn ascending(segments: Seq<SegmentInfo>) -> bool {
    forall|i: int, j: int|
        0 <= i < j < segments.len() ==> (#[trigger] segments[i]).first_sequence@ <= (
        #[trigger] segments[j]).first_sequence@
}

/// Sorts the segments by their first sequences, and requires that there is one.
pub fn order_segments(directory: PathBuf, segments: Vec<SegmentInfo>) -> (out: Result<
    Vec<SegmentInfo>,
    FileDatabaseError,
>)
    ensures
        match out {
            Ok(ordered) => segments@.len() > 0 && ascending(ordered@) && ordered@.to_multiset()
                == segments@.to_multiset(),
            Err(error) => segments@.len() == 0 && error == FileDatabaseError::MissingSegments(
                directory,
            ),
        },
{
    if segments.len() == 0 {
        return Err(FileDatabaseError::MissingSegments(directory));
    }
    let ghost all = segments@.to_multiset();
    let mut rest = segments;
    let mut ordered: Vec<SegmentInfo> = Vec::new();
    proof {
        broadcast use vstd::seq_lib::group_to_multiset_ensures;

        assert(ordered@ =~= seq![]);
        assert(ordered@.to_multiset() =~= vstd::multiset::Multiset::empty());
        assert(rest@.to_multiset().add(ordered@.to_multiset()) =~= all);
    }
    loop
        invariant
            segments@.len() > 0,
            all == segments@.to_multiset(),
            ascending(ordered@),
            rest@.to_multiset().add(ordered@.to_multiset()) == all,
        decreases rest@.len(),
    {
        broadcast use vstd::seq_lib::group_to_multiset_ensures;

        let ghost before = rest@;
        let segment = match rest.pop() {
            Some(segment) => segment,
            None => {
                proof {
                    assert(rest@ =~= seq![]);
                    assert(rest@.to_multiset() =~= vstd::multiset::Multiset::empty());
                    assert(ordered@.to_multiset() =~= all);
                }
                return Ok(ordered);
            },
        };
        let ghost placed = ordered@;
        proof {
            assert(before =~= rest@.push(segment));
            assert(before.to_multiset() =~= rest@.to_multiset().insert(segment));
        }
        let place = find_place(&ordered, &segment);
        ordered.insert(place, segment);
        proof {
            assert(ordered@ =~= placed.insert(place as int, segment));
            lemma_insert_multiset(placed, place as int, segment);
            assert(rest@.to_multiset().add(ordered@.to_multiset()) =~= all);
        }
    }
}

/// Inserting an element adds it to the multiset of the elements.
proof fn lemma_insert_multiset<A>(items: Seq<A>, place: int, item: A)
    requires
        0 <= place <= items.len(),
    ensures
        items.insert(place, item).to_multiset() == items.to_multiset().insert(item),
{
    broadcast use vstd::seq_lib::group_to_multiset_ensures;

    let longer = items.insert(place, item);
    assert(longer.remove(place) =~= items);
    assert(longer.to_multiset().remove(item) =~= items.to_multiset());
    assert(longer.to_multiset() =~= items.to_multiset().insert(item));
}

/// Returns where a segment belongs among ordered segments.
fn find_place(ordered: &Vec<SegmentInfo>, segment: &SegmentInfo) -> (out: usize)
    requires
        ascending(ordered@),
    ensures
        out <= ordered@.len(),
        forall|k: int|
            0 <= k < out ==> (#[trigger] ordered@[k]).first_sequence@ < segment.first_sequence@,
        forall|k: int|
            out <= k < ordered@.len() ==> segment.first_sequence@ <= (
            #[trigger] ordered@[k]).first_sequence@,
{
    let sequence = segment.first_sequence.get();
    let mut place: usize = 0;
    while place < ordered.len()
        invariant
            place <= ordered@.len(),
            ascending(ordered@),
            sequence == segment.first_sequence@,
            forall|k: int|
                0 <= k < place ==> (#[trigger] ordered@[k]).first_sequence@ < sequence,
        decreases ordered@.len() - place,
    {
        if ordered[place].first_sequence.get() >= sequence {
            return place;
        }
        place += 1;
    }
    place
}

/// Requires that a segment starts at the next sequence.
pub fn check_segment_sequence(
    path: PathBuf,
    expected: Option<RecordSequence>,
    actual: RecordSequence,
) -> (out: Result<(), FileDatabaseError>)
    ensures
        out == if record::sequence_view(expected) == Some(actual@) {
            Ok(())
        } else {
            Err(
                FileDatabaseError::SegmentSequence {
                    path,
                    expected: record::sequence_view(expected),
                    actual: actual@,
                },
            )
        },
{
    match expected {
        Some(sequence) => {
            if sequence.get() == actual.get() {
                return Ok(());
            }
            Err(
                FileDatabaseError::SegmentSequence {
                    path,
                    expected: Some(sequence.get()),
                    actual: actual.get(),
                },
            )
        },
        None => Err(
            FileDatabaseError::SegmentSequence { path, expected: None, actual: actual.get() },
        ),
    }
}

/// How to go on after a segment was fed to recovery.
#[derive(Debug, PartialEq, Eq)]
pub enum FeedDecision {
    /// Go on; the records of the segment end at the given offset behind its header.
    Advance(u64),
    /// Cut the file to the given physical length, then go on as if the records ended there.
    Repair {
        /// Where the complete records end behind the header.
        valid_offset: u64,
        /// Physical length of the complete records and the header.
        physical_length: u64,
    },
    /// Give up.
    Fail(FileDatabaseError),
}

/// The record that ends a log is cut off.
pub open spec fn is_partial_tail(error: RecoveryError) -> bool {
    error matches RecoveryError::Storage { source: StorageError::PartialTail { .. }, .. }
}

/// Decides how to go on after a segment was fed to recovery. Only the last segment, which is not
/// sealed, may end in a record that is cut off.
pub fn after_feed(path: PathBuf, sealed: bool, fed: Result<u64, RecoveryError>) -> (out:
    FeedDecision)
    requires
        fed matches Err(error) ==> error.valid_through() <= u64::MAX - SEGMENT_HEADER_LEN
            && error.found_at() <= u64::MAX - SEGMENT_HEADER_LEN,
    ensures
        out == match fed {
            Ok(offset) => FeedDecision::Advance(offset),
            Err(source) => if !sealed && is_partial_tail(source) {
                FeedDecision::Repair {
                    valid_offset: source.valid_through(),
                    physical_length: (SEGMENT_HEADER_LEN + source.valid_through()) as u64,
                }
            } else {
                FeedDecision::Fail(
                    FileDatabaseError::SegmentRecovery {
                        path,
                        physical_offset: (SEGMENT_HEADER_LEN + source.found_at()) as u64,
                        sealed,
                        source,
                    },
                )
            },
        },
{
    let source = match fed {
        Ok(offset) => {
            return FeedDecision::Advance(offset);
        },
        Err(source) => source,
    };
    let partial = match &source {
        RecoveryError::Storage { source: StorageError::PartialTail { .. }, .. } => true,
        _ => false,
    };
    if !sealed && partial {
        let valid_offset = source.last_valid_offset();
        return FeedDecision::Repair {
            valid_offset,
            physical_length: SEGMENT_HEADER_LEN + valid_offset,
        };
    }
    FeedDecision::Fail(
        FileDatabaseError::SegmentRecovery {
            path,
            physical_offset: SEGMENT_HEADER_LEN + recovery_error_offset(&source),
            sealed,
            source,
        },
    )
}

/// Returns whether a snapshot at `watermark` takes the place of the latest one so far.
pub fn is_later_snapshot(latest: Option<u64>, watermark: u64) -> (out: bool)
    ensures
        out == (latest matches Some(current) ==> watermark > current),
{
    match latest {
        Some(current) => watermark > current,
        None => true,
    }
}

/// The larger of the watermarks.
pub open spec fn latest_of(latest: Option<u64>, watermark: u64) -> u64 {
    match latest {
        Some(current) => if watermark > current {
            watermark
        } else {
            current
        },
        None => watermark,
    }
}

/// Notes an entry of the snapshot directory and returns the largest watermark so far. An entry
/// that is no file, or whose name is not that of a snapshot, is an error; a name that is no text
/// is `None`.
pub fn note_snapshot(latest: Option<u64>, name: Option<&str>, is_file: bool) -> (out: Result<
    Option<u64>,
    (),
>)
    ensures
        match out {
            Ok(now) => is_file && (name matches Some(name) && exists|watermark: u64|
                name@ == #[trigger] names::padded_name(watermark, names::snapshot_suffix()) && now
                    == Some(latest_of(latest, watermark))),
            Err(_) => !is_file || (name matches Some(name) ==> forall|value: u64|
                name@ != #[trigger] names::padded_name(value, names::snapshot_suffix())),
        },
{
    let watermark = match name {
        Some(name) => parse_snapshot_name(name),
        None => None,
    };
    match watermark {
        Some(watermark) if is_file => if is_later_snapshot(latest, watermark) {
            Ok(Some(watermark))
        } else {
            Ok(latest)
        },
        _ => Err(()),
    }
}

/// Requires that a snapshot file of the given length may be read, and returns that length.
pub fn check_snapshot_length(length: u64, limits: SnapshotLimits) -> (out: Result<
    usize,
    SnapshotError,
>)
    ensures
        out == if length > limits.max_total_bytes {
            Err(
                SnapshotError::Limit {
                    field: "total bytes",
                    value: length,
                    maximum: limits.max_total_bytes,
                },
            )
        } else if length > usize::MAX {
            Err(
                SnapshotError::Limit {
                    field: "total bytes",
                    value: length,
                    maximum: usize::MAX as u64,
                },
            )
        } else {
            Ok(length as usize)
        },
{
    if length > limits.max_total_bytes {
        return Err(
            SnapshotError::Limit {
                field: "total bytes",
                value: length,
                maximum: limits.max_total_bytes,
            },
        );
    }
    if length > usize::MAX as u64 {
        return Err(
            SnapshotError::Limit {
                field: "total bytes",
                value: length,
                maximum: usize::MAX as u64,
            },
        );
    }
    Ok(length as usize)
}

/// The last sequence in front of the next one.
pub open spec fn watermark_before(next: Option<u64>) -> u64 {
    match next {
        Some(sequence) => (sequence - 1) as u64,
        None => u64::MAX,
    }
}

/// What a snapshot of the current state needs.
#[derive(Debug, Clone, Copy, PartialEq, Eq)]
pub struct SnapshotPlan {
    /// Last record that the snapshot represents.
    pub watermark: u64,
    /// First sequence of the fresh segment that has to be installed before the snapshot, if one
    /// has to be: the segments in front of it are then represented by the snapshot.
    pub rotate_to: Option<RecordSequence>,
}

/// Decides what a snapshot of the current state needs. After an indeterminate write there is
/// none.
pub fn plan_snapshot(poisoned: bool, next: Option<RecordSequence>, has_records: bool) -> (out:
    Result<SnapshotPlan, FileDatabaseError>)
    ensures
        match out {
            Ok(plan) => {
                &&& !poisoned
                &&& plan.watermark == watermark_before(record::sequence_view(next))
                &&& plan.rotate_to == if has_records {
                    next
                } else {
                    None
                }
            },
            Err(error) => poisoned && error == FileDatabaseError::SnapshotPoisoned,
        },
{
    if poisoned {
        return Err(FileDatabaseError::SnapshotPoisoned);
    }
    let watermark = match next {
        Some(sequence) => sequence.get() - 1,
        None => u64::MAX,
    };
    let rotate_to = if has_records {
        next
    } else {
        None
    };
    Ok(SnapshotPlan { watermark, rotate_to })
}

/// A snapshot represents exactly the records in front of the next one. Recovery goes on there,
/// needs the segment that starts there, and needs none in front of it.
pub proof fn law_snapshot_represents_the_records_before_the_next(next: u64, sequence: u64)
    requires
        next != 0,
    ensures
        sequence <= watermark_before(Some(next)) <==> sequence < next,
        frame::next_sequence(watermark_before(Some(next))) == Some(next),
        first_needed(Some(watermark_before(Some(next)))) == next,
{
}

} // verus!

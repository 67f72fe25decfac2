//! How appended groups are spread over segments.

use crate::bytes::is_granted;
use crate::error::{RecordCorruption, StorageError};
use crate::file::segment::SEGMENT_HEADER_LEN;
use crate::record;
use crate::record::frame;
use crate::record::frame::{ReaderView, RecordView};
use crate::record::{RecordLimits, RecordReader, RecordSequence};
use crate::recovery;
use vstd::prelude::*;

verus! {

/// The model of an [`ActiveSegment`].
pub struct ActiveSegmentView {
    /// Physical length of the active segment.
    pub len: u64,
    /// The active segment holds records.
    pub has_records: bool,
    /// Length beyond which a segment that holds records is left.
    pub target: u64,
    /// Maximum record length.
    pub max: u32,
    /// The next record sequence, if there is one.
    pub expected: Option<u64>,
}

/// What is known of the segment that receives records.
#[derive(Debug, Clone, Copy, PartialEq, Eq)]
pub struct ActiveSegment {
    len: u64,
    has_records: bool,
    segment_target: u64,
    record_limits: RecordLimits,
    expected_sequence: Option<RecordSequence>,
}

impl View for ActiveSegment {
    type V = ActiveSegmentView;

    closed spec fn view(&self) -> ActiveSegmentView {
        ActiveSegmentView {
            len: self.len,
            has_records: self.has_records,
            target: self.segment_target,
            max: self.record_limits@,
            expected: record::sequence_view(self.expected_sequence),
        }
    }
}

/// Where a group goes and what the active segment is then.
#[derive(Debug, Clone, Copy, PartialEq, Eq)]
pub struct AppendPlan {
    /// First sequence of the fresh segment that the group needs, if it needs one.
    pub rotate_to: Option<RecordSequence>,
    /// Physical length of the segment that receives the group, after it.
    pub resulting_len: u64,
    /// The next record sequence after the group, if there is one.
    pub next_sequence: Option<RecordSequence>,
}

/// The first sequence of a group and the next sequence behind it, if memory for its records is
/// granted as listed.
pub open spec fn inspected(
    segment: ActiveSegmentView,
    bytes: Seq<u8>,
    grants: Seq<bool>,
) -> Result<(u64, Option<u64>), StorageError> {
    match segment.expected {
        None => Err(
            StorageError::CorruptWalRecord {
                offset: 0,
                reason: RecordCorruption::SequenceOverflow,
            },
        ),
        Some(expected) => match frame::recovered_with(
            ReaderView { rest: bytes, offset: 0, expected: Some(expected), max: segment.max },
            grants,
            0,
        ) {
            Err(error) => Err(error),
            Ok(records) => if records.len() == 0 {
                Err(StorageError::InvalidLength { field: "WAL append batch", length: 0 })
            } else {
                Ok((records[0].sequence, frame::expected_after(records, segment.expected)))
            },
        },
    }
}

/// The group does not fit behind the records of the active segment.
pub open spec fn must_rotate(segment: ActiveSegmentView, length: nat) -> bool {
    segment.has_records && segment.len + length > segment.target
}

/// Where a valid group of the given length goes.
pub open spec fn placed(segment: ActiveSegmentView, length: usize) -> Result<u64, StorageError> {
    if segment.len + length > u64::MAX {
        Err(StorageError::SegmentLengthOverflow { current: segment.len, append: length })
    } else if must_rotate(segment, length as nat) {
        if SEGMENT_HEADER_LEN + length > u64::MAX {
            Err(
                StorageError::SegmentLengthOverflow {
                    current: SEGMENT_HEADER_LEN,
                    append: length,
                },
            )
        } else {
            Ok((SEGMENT_HEADER_LEN + length) as u64)
        }
    } else {
        Ok((segment.len + length) as u64)
    }
}

/// What planning gives for a group, if memory for its records is granted as listed.
pub open spec fn planned(
    segment: ActiveSegmentView,
    bytes: Seq<u8>,
    length: usize,
    grants: Seq<bool>,
    out: Result<AppendPlan, StorageError>,
) -> bool {
    match inspected(segment, bytes, grants) {
        Err(error) => out == Err::<AppendPlan, StorageError>(error),
        Ok((first, next)) => match placed(segment, length) {
            Err(error) => out == Err::<AppendPlan, StorageError>(error),
            Ok(resulting_len) => out matches Ok(plan) && {
                &&& plan.resulting_len == resulting_len
                &&& record::sequence_view(plan.next_sequence) == next
                &&& record::sequence_view(plan.rotate_to) == if must_rotate(
                    segment,
                    length as nat,
                ) {
                    Some(first)
                } else {
                    None
                }
            },
        },
    }
}

/// The model of what inspection returned.
pub open spec fn sequences_view(
    out: Result<(RecordSequence, Option<RecordSequence>), StorageError>,
) -> Result<(u64, Option<u64>), StorageError> {
    match out {
        Ok((first, next)) => Ok((first@, record::sequence_view(next))),
        Err(error) => Err(error),
    }
}

/// A group that is placed whole keeps its segment within the target, or is the only one in it.
pub proof fn law_segments_exceed_the_target_only_for_one_group(
    segment: ActiveSegmentView,
    length: usize,
)
    ensures
        placed(segment, length) matches Ok(resulting_len) ==> {
            ||| resulting_len <= segment.target
            ||| must_rotate(segment, length as nat) && resulting_len == SEGMENT_HEADER_LEN + length
            ||| !segment.has_records && resulting_len == segment.len + length
        },
{
}

impl ActiveSegment {
    /// Creates what is known of a segment.
    pub fn new(
        len: u64,
        has_records: bool,
        segment_target: u64,
        record_limits: RecordLimits,
        expected_sequence: Option<RecordSequence>,
    ) -> (out: ActiveSegment)
        ensures
            out@ == (ActiveSegmentView {
                len,
                has_records,
                target: segment_target,
                max: record_limits@,
                expected: record::sequence_view(expected_sequence),
            }),
    {
        ActiveSegment { len, has_records, segment_target, record_limits, expected_sequence }
    }

    /// Returns the first segment of a database.
    pub fn fresh(segment_target: u64, record_limits: RecordLimits) -> (out: ActiveSegment)
        ensures
            out@ == (ActiveSegmentView {
                len: SEGMENT_HEADER_LEN,
                has_records: false,
                target: segment_target,
                max: record_limits@,
                expected: Some(1u64),
            }),
    {
        ActiveSegment::new(
            SEGMENT_HEADER_LEN,
            false,
            segment_target,
            record_limits,
            Some(RecordSequence::first()),
        )
    }

    /// Returns the segment with the given physical length behind recovery.
    pub fn resumed(
        len: u64,
        segment_target: u64,
        record_limits: RecordLimits,
        expected_sequence: Option<RecordSequence>,
    ) -> (out: ActiveSegment)
        ensures
            out@ == (ActiveSegmentView {
                len,
                has_records: len > SEGMENT_HEADER_LEN,
                target: segment_target,
                max: record_limits@,
                expected: record::sequence_view(expected_sequence),
            }),
    {
        ActiveSegment::new(
            len,
            len > SEGMENT_HEADER_LEN,
            segment_target,
            record_limits,
            expected_sequence,
        )
    }

    /// Returns the physical length.
    pub fn len(&self) -> (out: u64)
        ensures
            out == self@.len,
    {
        self.len
    }

    /// Returns whether the segment holds records.
    pub fn has_records(&self) -> (out: bool)
        ensures
            out == self@.has_records,
    {
        self.has_records
    }

    /// Returns the configured operational rotation target.
    pub fn segment_target(&self) -> (out: u64)
        ensures
            out == self@.target,
    {
        self.segment_target
    }

    /// Returns the next record sequence, or `None` after log exhaustion.
    pub fn expected_sequence(&self) -> (out: Option<RecordSequence>)
        ensures
            record::sequence_view(out) == self@.expected,
    {
        self.expected_sequence
    }

    /// Validates a group of records. Memory for them is granted as listed, or else asked for.
    /// What was granted is returned.
    fn inspect_with(&self, bytes: &[u8], grants: Option<&[bool]>) -> (out: (
        Result<(RecordSequence, Option<RecordSequence>), StorageError>,
        Ghost<Seq<bool>>,
    ))
        ensures
            sequences_view(out.0) == inspected(self@, bytes@, out.1@),
            grants matches Some(listed) ==> out.1@ == listed@,
    {
        let ghost mut listed = match grants {
            Some(listed) => listed@,
            None => seq![],
        };
        let expected = match self.expected_sequence {
            Some(expected) => expected,
            None => {
                return (
                    Err(
                        StorageError::CorruptWalRecord {
                            offset: 0,
                            reason: RecordCorruption::SequenceOverflow,
                        },
                    ),
                    Ghost(listed),
                );
            },
        };
        let mut reader = RecordReader::with_expected_sequence(bytes, self.record_limits, expected);
        let ghost start = reader@;
        let ghost whole = frame::recovered_with(start, listed, 0);
        let ghost mut records: Seq<RecordView> = seq![];
        let mut first = expected;
        let mut count: usize = 0;
        assert(bytes@.len() == bytes.len());
        proof {
            if let Ok(more) = whole {
                assert(records + more =~= more);
            }
        }
        loop
            invariant
                reader@.wf(),
                records.len() == count,
                count > 0 ==> records[0].sequence == first@,
                reader@.expected == frame::expected_after(records, Some(expected@)),
                start == (ReaderView {
                    rest: bytes@,
                    offset: 0,
                    expected: Some(expected@),
                    max: self@.max,
                }),
                self@.expected == Some(expected@),
                listed == match grants {
                    Some(listed) => listed@,
                    None => seq![],
                },
                count + reader@.rest.len() <= bytes@.len() <= usize::MAX,
                whole == frame::recovered_with(start, listed, 0),
                whole == recovery::preceded(
                    records,
                    frame::recovered_with(reader@, listed, count as nat),
                ),
                frame::read_through(start, count as nat),
                reader@ == frame::reader_behind(start, count as nat),
            decreases reader@.rest.len(),
        {
            let ghost before = reader@;
            proof {
                frame::lemma_step_consumes(before);
                frame::lemma_step_expects(before);
            }
            let told = match grants {
                Some(listed) => Some(is_granted(listed, count)),
                None => None,
            };
            let (out, granted) = reader.read_next_with(told);
            match out {
                Ok(Some(record)) => {
                    proof {
                        let rest = frame::recovered_with(reader@, listed, count as nat + 1);
                        if let Ok(more) = rest {
                            assert(records + (seq![record@] + more) =~= records.push(record@)
                                + more);
                        }
                        records = records.push(record@);
                    }
                    if count == 0 {
                        first = record.record_sequence();
                    }
                    count += 1;
                },
                Ok(None) => {
                    assert(records + seq![] =~= records);
                    if count == 0 {
                        return (
                            Err(
                                StorageError::InvalidLength {
                                    field: "WAL append batch",
                                    length: 0,
                                },
                            ),
                            Ghost(listed),
                        );
                    }
                    return (Ok((first, reader.expected_sequence())), Ghost(listed));
                },
                Err(error) => {
                    proof {
                        if grants is None && !granted@ && frame::asked(before) is Some {
                            listed = frame::refused_after(count as nat);
                            frame::lemma_recovered_refused(start, 0, count as nat);
                        }
                    }
                    return (Err(error), Ghost(listed));
                },
            }
        }
    }

    /// Validates a group of records and returns its first sequence and the next one behind it.
    /// It may also fail because the memory for a record cannot be had.
    pub fn inspect_batch(&self, bytes: &[u8]) -> (out: Result<
        (RecordSequence, Option<RecordSequence>),
        StorageError,
    >)
        ensures
            exists|grants: Seq<bool>|
                sequences_view(out) == #[trigger] inspected(self@, bytes@, grants),
    {
        let (out, _) = self.inspect_with(bytes, None);
        out
    }

    /// Validates a group of records as if memory for them were granted as listed.
    pub fn inspect_granted(&self, bytes: &[u8], grants: &[bool]) -> (out: Result<
        (RecordSequence, Option<RecordSequence>),
        StorageError,
    >)
        ensures
            sequences_view(out) == inspected(self@, bytes@, grants@),
    {
        let (out, _) = self.inspect_with(bytes, Some(grants));
        out
    }

    /// Decides where a group of the given length goes once its sequences are known.
    fn place(
        &self,
        length: usize,
        first_sequence: RecordSequence,
        next_sequence: Option<RecordSequence>,
    ) -> (out: Result<AppendPlan, StorageError>)
        ensures
            match placed(self@, length) {
                Err(error) => out == Err::<AppendPlan, StorageError>(error),
                Ok(resulting_len) => out == Ok::<AppendPlan, StorageError>(
                    AppendPlan {
                        rotate_to: if must_rotate(self@, length as nat) {
                            Some(first_sequence)
                        } else {
                            None
                        },
                        resulting_len,
                        next_sequence,
                    },
                ),
            },
    {
        let projected = match self.len.checked_add(length as u64) {
            Some(projected) => projected,
            None => {
                return Err(
                    StorageError::SegmentLengthOverflow { current: self.len, append: length },
                );
            },
        };
        if self.has_records && projected > self.segment_target {
            match SEGMENT_HEADER_LEN.checked_add(length as u64) {
                Some(resulting_len) => Ok(
                    AppendPlan { rotate_to: Some(first_sequence), resulting_len, next_sequence },
                ),
                None => Err(
                    StorageError::SegmentLengthOverflow {
                        current: SEGMENT_HEADER_LEN,
                        append: length,
                    },
                ),
            }
        } else {
            Ok(AppendPlan { rotate_to: None, resulting_len: projected, next_sequence })
        }
    }

    /// Decides where a group goes. Nothing changes. It may also fail because the memory for a
    /// record cannot be had.
    pub fn plan_append(&self, bytes: &[u8]) -> (out: Result<AppendPlan, StorageError>)
        ensures
            exists|grants: Seq<bool>| #[trigger]
                planned(self@, bytes@, bytes@.len() as usize, grants, out),
    {
        let (inspection, grants) = self.inspect_with(bytes, None);
        let out = match inspection {
            Ok((first_sequence, next_sequence)) => {
                self.place(bytes.len(), first_sequence, next_sequence)
            },
            Err(error) => Err(error),
        };
        assert(planned(self@, bytes@, bytes@.len() as usize, grants@, out));
        out
    }

    /// Decides where a group goes as if memory for its records were granted as listed.
    pub fn plan_granted(&self, bytes: &[u8], grants: &[bool]) -> (out: Result<
        AppendPlan,
        StorageError,
    >)
        ensures
            planned(self@, bytes@, bytes@.len() as usize, grants@, out),
    {
        match self.inspect_granted(bytes, grants) {
            Ok((first_sequence, next_sequence)) => {
                self.place(bytes.len(), first_sequence, next_sequence)
            },
            Err(error) => Err(error),
        }
    }

    /// Notes that a fresh segment was installed.
    pub fn rotated(&mut self)
        ensures
            final(self)@ == (ActiveSegmentView {
                len: SEGMENT_HEADER_LEN,
                has_records: false,
                ..old(self)@
            }),
    {
        self.len = SEGMENT_HEADER_LEN;
        self.has_records = false;
    }

    /// Notes that a planned group was written.
    pub fn appended(&mut self, plan: AppendPlan)
        ensures
            final(self)@ == (ActiveSegmentView {
                len: plan.resulting_len,
                has_records: true,
                expected: record::sequence_view(plan.next_sequence),
                ..old(self)@
            }),
    {
        self.len = plan.resulting_len;
        self.has_records = true;
        self.expected_sequence = plan.next_sequence;
    }
}

} // verus!

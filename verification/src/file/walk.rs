//! Recovery over the segments of a database directory, one segment after the other.

use crate::engine::Engine;
use crate::file::opening;
use crate::file::opening::{
    after_feed, check_segment_sequence, start_recovery, FeedDecision, SegmentInfo,
};
use crate::file::options::FileDatabaseError;
use crate::file::segment::SEGMENT_HEADER_LEN;
use crate::record::frame;
use crate::replay;
use crate::replay::{recovery_error_offset, EngineRecovery, RecoveryError, RecoveryOutcome};
use vstd::prelude::*;

verus! {

/// Recovery on its way over ordered segments.
pub struct SegmentWalk<E> {
    recovery: EngineRecovery<E>,
    segments: Vec<SegmentInfo>,
    position: usize,
    valid_offset: u64,
}

/// The offset of a failure in a segment leaves room for the header of the segment.
pub open spec fn placeable(fed: Result<u64, RecoveryError>) -> bool {
    match fed {
        Ok(offset) => offset <= u64::MAX - SEGMENT_HEADER_LEN,
        Err(error) => error.valid_through() <= u64::MAX - SEGMENT_HEADER_LEN && error.found_at()
            <= u64::MAX - SEGMENT_HEADER_LEN,
    }
}

impl<E: Engine> SegmentWalk<E> {
    /// There is a segment, and the position is among them or behind the last one.
    pub closed spec fn wf(self) -> bool {
        &&& self.segments@.len() > 0
        &&& self.position <= self.segments@.len()
        &&& self.valid_offset <= u64::MAX - SEGMENT_HEADER_LEN
    }

    /// Recovery so far.
    pub closed spec fn state(self) -> EngineRecovery<E> {
        self.recovery
    }

    /// All segments.
    pub closed spec fn all(self) -> Seq<SegmentInfo> {
        self.segments@
    }

    /// The number of segments that are done.
    pub closed spec fn done(self) -> nat {
        self.position as nat
    }

    /// Where the records of the last segment that is done end behind its header.
    pub closed spec fn through(self) -> u64 {
        self.valid_offset
    }

    /// Starts in front of the first segment with what a snapshot restored, or with nothing. Behind
    /// a snapshot at the last possible watermark there is nothing to recover.
    pub fn begin(loaded: Option<(u64, E)>, segments: Vec<SegmentInfo>) -> (out: SegmentWalk<E>)
        requires
            segments@.len() > 0,
        ensures
            out.wf(),
            out.all() == segments@,
            out.through() == 0,
            match loaded {
                Some((watermark, engine)) => {
                    &&& out.state().state() == engine
                    &&& out.state().next() == frame::next_sequence(watermark)
                    &&& out.done() == if watermark == u64::MAX {
                        segments@.len()
                    } else {
                        0
                    }
                },
                None => out.state().state().starts() && out.state().next() == Some(1u64)
                    && out.done() == 0,
            },
    {
        let exhausted = match &loaded {
            Some((watermark, _)) => *watermark == u64::MAX,
            None => false,
        };
        let position = if exhausted {
            segments.len()
        } else {
            0
        };
        let recovery = start_recovery(loaded);
        SegmentWalk { recovery, segments, position, valid_offset: 0 }
    }

    /// Returns the segment whose records are to be recovered next, if one is left. It must start
    /// at the next sequence.
    pub fn next_segment(&self) -> (out: Result<Option<&SegmentInfo>, FileDatabaseError>)
        requires
            self.wf(),
        ensures
            if self.done() == self.all().len() {
                out == Ok::<Option<&SegmentInfo>, FileDatabaseError>(None)
            } else {
                let segment = self.all()[self.done() as int];
                if self.state().next() == Some(segment.first_sequence@) {
                    out == Ok::<Option<&SegmentInfo>, FileDatabaseError>(Some(&segment))
                } else {
                    out == Err::<Option<&SegmentInfo>, FileDatabaseError>(
                        FileDatabaseError::SegmentSequence {
                            path: segment.path,
                            expected: self.state().next(),
                            actual: segment.first_sequence@,
                        },
                    )
                }
            },
    {
        if self.position == self.segments.len() {
            return Ok(None);
        }
        let segment = &self.segments[self.position];
        match check_segment_sequence(
            segment.path.clone(),
            self.recovery.next_record_sequence(),
            segment.first_sequence,
        ) {
            Ok(()) => Ok(Some(segment)),
            Err(error) => Err(error),
        }
    }

    /// Returns recovery, which is handed the records of the next segment.
    pub fn recovery_mut(&mut self) -> (out: &mut EngineRecovery<E>)
        ensures
            *out == old(self).state(),
            final(self).state() == *final(out),
            final(self).all() == old(self).all(),
            final(self).done() == old(self).done(),
            final(self).through() == old(self).through(),
            final(self).wf() == old(self).wf(),
    {
        &mut self.recovery
    }

    /// Notes what recovery made of the records of the next segment, and goes on behind it. Where
    /// the last segment ends in a record that is cut off, the result is the physical length to
    /// which the segment has to be cut first. Every other failure ends recovery.
    pub fn conclude(&mut self, fed: Result<u64, RecoveryError>) -> (out: Result<
        Option<u64>,
        FileDatabaseError,
    >)
        requires
            old(self).wf(),
            old(self).done() < old(self).all().len(),
            placeable(fed),
        ensures
            final(self).wf(),
            final(self).all() == old(self).all(),
            final(self).state() == old(self).state(),
            concluded(
                old(self).all()[old(self).done() as int],
                old(self).done() + 1 != old(self).all().len(),
                fed,
                out,
            ),
            out is Err ==> *final(self) == *old(self),
            out is Ok ==> final(self).done() == old(self).done() + 1 && final(self).through()
                == match fed {
                Ok(offset) => offset,
                Err(error) => error.valid_through(),
            },
    {
        let sealed = self.position != self.segments.len() - 1;
        let path = self.segments[self.position].path.clone();
        match after_feed(path, sealed, fed) {
            FeedDecision::Advance(offset) => {
                self.valid_offset = offset;
                self.position = self.position + 1;
                Ok(None)
            },
            FeedDecision::Repair { valid_offset, physical_length } => {
                self.valid_offset = valid_offset;
                self.position = self.position + 1;
                Ok(Some(physical_length))
            },
            FeedDecision::Fail(error) => Err(error),
        }
    }

    /// Rebuilds the indexes of the engine behind the last segment, and hands over what was
    /// recovered together with the segment that receives further records.
    pub fn finish(self) -> (out: Result<(RecoveryOutcome<E>, SegmentInfo), FileDatabaseError>)
        requires
            self.wf(),
        ensures
            match out {
                Ok((outcome, active)) => active == self.all().last() && replay::finished(
                    self.state(),
                    self.through(),
                    Ok(outcome),
                ),
                Err(FileDatabaseError::SegmentRecovery {
                    path,
                    physical_offset,
                    sealed,
                    source,
                }) => {
                    &&& path == self.all().last().path
                    &&& physical_offset == SEGMENT_HEADER_LEN + self.through()
                    &&& !sealed
                    &&& replay::finished(self.state(), self.through(), Err(source))
                },
                Err(_) => false,
            },
    {
        let active_at = self.segments.len() - 1;
        let mut segments = self.segments;
        let active = segments.swap_remove(active_at);
        match self.recovery.finish(self.valid_offset) {
            Ok(outcome) => Ok((outcome, active)),
            Err(source) => Err(
                FileDatabaseError::SegmentRecovery {
                    path: active.path,
                    physical_offset: SEGMENT_HEADER_LEN + recovery_error_offset(&source),
                    sealed: false,
                    source,
                },
            ),
        }
    }
}

/// What is decided about a segment after its records were handed to recovery.
pub open spec fn concluded(
    segment: SegmentInfo,
    sealed: bool,
    fed: Result<u64, RecoveryError>,
    out: Result<Option<u64>, FileDatabaseError>,
) -> bool {
    match fed {
        Ok(_) => out == Ok::<Option<u64>, FileDatabaseError>(None),
        Err(source) => if !sealed && opening::is_partial_tail(source) {
            out == Ok::<Option<u64>, FileDatabaseError>(
                Some((SEGMENT_HEADER_LEN + source.valid_through()) as u64),
            )
        } else {
            out == Err::<Option<u64>, FileDatabaseError>(
                FileDatabaseError::SegmentRecovery {
                    path: segment.path,
                    physical_offset: (SEGMENT_HEADER_LEN + source.found_at()) as u64,
                    sealed,
                    source,
                },
            )
        },
    }
}

} // verus!

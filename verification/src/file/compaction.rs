//! What an installed snapshot makes superfluous.

use crate::file::names;
use crate::file::names::{parse_segment_name, parse_snapshot_name};
use crate::file::opening;
use crate::file::options::SnapshotOutcome;
use crate::record::frame;
use crate::record::frame::RecordView;
use crate::record::RecordSequence;
use std::path::PathBuf;
use vstd::prelude::*;

verus! {

/// Returns whether an entry of the log directory is covered by a snapshot: whether it is anything
/// but the active segment.
pub fn is_covered(name: &str, active: RecordSequence) -> (out: bool)
    ensures
        out == (name@ != names::padded_name(active@, names::segment_suffix())),
{
    let number = active.get();
    match parse_segment_name(name) {
        Some(sequence) => {
            proof {
                if sequence@ != number {
                    if name@ == names::padded_name(number, names::segment_suffix()) {
                        names::law_names_are_unique(sequence@, number, names::segment_suffix());
                    }
                }
            }
            sequence.get() != number
        },
        None => true,
    }
}

/// Returns whether an entry of the snapshot directory is superseded by the snapshot with the
/// given watermark: whether it is anything but that snapshot.
pub fn is_superseded(name: &str, watermark: u64) -> (out: bool)
    ensures
        out == (name@ != names::padded_name(watermark, names::snapshot_suffix())),
{
    match parse_snapshot_name(name) {
        Some(found) => {
            proof {
                if found != watermark {
                    if name@ == names::padded_name(watermark, names::snapshot_suffix()) {
                        names::law_names_are_unique(found, watermark, names::snapshot_suffix());
                    }
                }
            }
            found != watermark
        },
        None => true,
    }
}

/// The name is anything but `kept`. A name that is no text is.
pub open spec fn is_other(name: Option<&str>, kept: Seq<char>) -> bool {
    match name {
        Some(name) => name@ != kept,
        None => true,
    }
}

/// The model of a [`Compaction`].
pub struct CompactionView {
    /// First sequence of the active segment.
    pub active: u64,
    /// Last record that the installed snapshot represents.
    pub watermark: u64,
    /// Number of entries of the log directory that go.
    pub segments_removed: nat,
    /// Number of entries of the snapshot directory that go.
    pub older_snapshots_removed: nat,
}

/// An entry of the log directory goes if it is anything but the active segment, and is counted
/// exactly if it goes.
pub open spec fn segment_noted(
    before: CompactionView,
    after: CompactionView,
    name: Option<&str>,
    goes: bool,
) -> bool {
    &&& goes == is_other(name, names::padded_name(before.active, names::segment_suffix()))
    &&& after == (CompactionView {
        segments_removed: before.segments_removed + if goes {
            1nat
        } else {
            0
        },
        ..before
    })
}

/// An entry of the snapshot directory goes if it is anything but the installed snapshot, and is
/// counted exactly if it goes.
pub open spec fn snapshot_noted(
    before: CompactionView,
    after: CompactionView,
    name: Option<&str>,
    goes: bool,
) -> bool {
    &&& goes == is_other(name, names::padded_name(before.watermark, names::snapshot_suffix()))
    &&& after == (CompactionView {
        older_snapshots_removed: before.older_snapshots_removed + if goes {
            1nat
        } else {
            0
        },
        ..before
    })
}

/// Decides, entry by entry, what goes after a snapshot was installed, and counts it.
#[derive(Debug, Clone, Copy, PartialEq, Eq)]
pub struct Compaction {
    active: RecordSequence,
    watermark: u64,
    segments_removed: usize,
    older_snapshots_removed: usize,
}

impl View for Compaction {
    type V = CompactionView;

    closed spec fn view(&self) -> CompactionView {
        CompactionView {
            active: self.active@,
            watermark: self.watermark,
            segments_removed: self.segments_removed as nat,
            older_snapshots_removed: self.older_snapshots_removed as nat,
        }
    }
}

impl Compaction {
    /// Starts after the snapshot with the given watermark was installed.
    pub fn new(active: RecordSequence, watermark: u64) -> (out: Compaction)
        ensures
            out@ == (CompactionView {
                active: active@,
                watermark,
                segments_removed: 0,
                older_snapshots_removed: 0,
            }),
    {
        Compaction { active, watermark, segments_removed: 0, older_snapshots_removed: 0 }
    }

    /// Returns the number of entries of the log directory that go so far.
    pub fn segments_removed(&self) -> (out: usize)
        ensures
            out == self@.segments_removed,
    {
        self.segments_removed
    }

    /// Returns the number of entries of the snapshot directory that go so far.
    pub fn older_snapshots_removed(&self) -> (out: usize)
        ensures
            out == self@.older_snapshots_removed,
    {
        self.older_snapshots_removed
    }

    /// Returns whether an entry of the log directory goes, and counts it if it does. Everything
    /// but the active segment goes.
    pub fn removes_segment(&mut self, name: Option<&str>) -> (out: bool)
        requires
            old(self)@.segments_removed < usize::MAX,
        ensures
            segment_noted(old(self)@, final(self)@, name, out),
    {
        let goes = match name {
            Some(name) => is_covered(name, self.active),
            None => true,
        };
        if goes {
            self.segments_removed += 1;
        }
        goes
    }

    /// Returns whether an entry of the snapshot directory goes, and counts it if it does.
    /// Everything but the installed snapshot goes.
    pub fn removes_snapshot(&mut self, name: Option<&str>) -> (out: bool)
        requires
            old(self)@.older_snapshots_removed < usize::MAX,
        ensures
            snapshot_noted(old(self)@, final(self)@, name, out),
    {
        let goes = match name {
            Some(name) => is_superseded(name, self.watermark),
            None => true,
        };
        if goes {
            self.older_snapshots_removed += 1;
        }
        goes
    }

    /// Returns what is reported of the snapshot with the given path and length.
    pub fn outcome(self, path: PathBuf, bytes: u64) -> (out: SnapshotOutcome)
        ensures
            out.path == path,
            out.watermark == self@.watermark,
            out.segments_removed == self@.segments_removed,
            out.older_snapshots_removed == self@.older_snapshots_removed,
            out.bytes == bytes,
    {
        SnapshotOutcome {
            path,
            watermark: self.watermark,
            segments_removed: self.segments_removed,
            older_snapshots_removed: self.older_snapshots_removed,
            bytes,
        }
    }
}

/// The number of names that are anything but `kept`.
pub open spec fn count_others(entries: Seq<Option<&str>>, kept: Seq<char>) -> nat
    decreases entries.len(),
{
    if entries.len() == 0 {
        0
    } else {
        count_others(entries.drop_last(), kept) + if is_other(entries.last(), kept) {
            1nat
        } else {
            0
        }
    }
}

/// Compaction of a log directory removes, and counts, exactly what is not the active segment.
pub proof fn law_compaction_keeps_only_the_active_segment(
    states: Seq<CompactionView>,
    entries: Seq<Option<&str>>,
    goes: Seq<bool>,
)
    requires
        states.len() == entries.len() + 1,
        goes.len() == entries.len(),
        forall|i: int|
            0 <= i < entries.len() ==> segment_noted(
                states[i],
                states[i + 1],
                #[trigger] entries[i],
                goes[i],
            ),
    ensures
        ({
            let kept = names::padded_name(states[0].active, names::segment_suffix());
            &&& states.last() == (CompactionView {
                segments_removed: states[0].segments_removed + count_others(
                    entries,
                    kept,
                ),
                ..states[0]
            })
            &&& forall|i: int|
                0 <= i < entries.len() ==> (#[trigger] goes[i]) == is_other(entries[i], kept)
        }),
    decreases entries.len(),
{
    if entries.len() > 0 {
        let front = entries.drop_last();
        let n = front.len() as int;
        assert forall|i: int| 0 <= i < front.len() implies segment_noted(
            states.drop_last()[i],
            states.drop_last()[i + 1],
            #[trigger] front[i],
            goes.drop_last()[i],
        ) by {
            assert(entries[i] == front[i]);
        }
        law_compaction_keeps_only_the_active_segment(states.drop_last(), front, goes.drop_last());
        assert(segment_noted(states[n], states[n + 1], entries[n], goes[n]));
        assert(states.drop_last().last() == states[n]);
        let kept = names::padded_name(states[0].active, names::segment_suffix());
        assert forall|i: int| 0 <= i < entries.len() implies (#[trigger] goes[i]) == is_other(
            entries[i],
            kept,
        ) by {
            if i < n {
                assert(goes.drop_last()[i] == goes[i]);
                assert(front[i] == entries[i]);
            }
        }
    }
}

/// Compaction of a snapshot directory removes, and counts, exactly what is not the installed
/// snapshot.
pub proof fn law_compaction_keeps_only_the_installed_snapshot(
    states: Seq<CompactionView>,
    entries: Seq<Option<&str>>,
    goes: Seq<bool>,
)
    requires
        states.len() == entries.len() + 1,
        goes.len() == entries.len(),
        forall|i: int|
            0 <= i < entries.len() ==> snapshot_noted(
                states[i],
                states[i + 1],
                #[trigger] entries[i],
                goes[i],
            ),
    ensures
        ({
            let kept = names::padded_name(states[0].watermark, names::snapshot_suffix());
            &&& states.last() == (CompactionView {
                older_snapshots_removed: states[0].older_snapshots_removed + count_others(
                    entries,
                    kept,
                ),
                ..states[0]
            })
            &&& forall|i: int|
                0 <= i < entries.len() ==> (#[trigger] goes[i]) == is_other(entries[i], kept)
        }),
    decreases entries.len(),
{
    if entries.len() > 0 {
        let front = entries.drop_last();
        let n = front.len() as int;
        assert forall|i: int| 0 <= i < front.len() implies snapshot_noted(
            states.drop_last()[i],
            states.drop_last()[i + 1],
            #[trigger] front[i],
            goes.drop_last()[i],
        ) by {
            assert(entries[i] == front[i]);
        }
        law_compaction_keeps_only_the_installed_snapshot(
            states.drop_last(),
            front,
            goes.drop_last(),
        );
        assert(snapshot_noted(states[n], states[n + 1], entries[n], goes[n]));
        assert(states.drop_last().last() == states[n]);
        let kept = names::padded_name(states[0].watermark, names::snapshot_suffix());
        assert forall|i: int| 0 <= i < entries.len() implies (#[trigger] goes[i]) == is_other(
            entries[i],
            kept,
        ) by {
            if i < n {
                assert(goes.drop_last()[i] == goes[i]);
                assert(front[i] == entries[i]);
            }
        }
    }
}

/// Where exactly one entry is the kept one, all others are counted.
pub proof fn law_all_entries_but_the_kept_one_are_counted(
    entries: Seq<Option<&str>>,
    kept: Seq<char>,
    at: int,
)
    requires
        0 <= at < entries.len(),
        forall|i: int|
            0 <= i < entries.len() ==> (is_other(#[trigger] entries[i], kept) <==> i != at),
    ensures
        count_others(entries, kept) == entries.len() - 1,
    decreases entries.len(),
{
    let front = entries.drop_last();
    assert(entries[entries.len() - 1] == entries.last());
    assert forall|i: int| 0 <= i < front.len() implies (is_other(#[trigger] front[i], kept)
        <==> i != at) by {
        assert(front[i] == entries[i]);
    }
    if at < front.len() {
        law_all_entries_but_the_kept_one_are_counted(front, kept, at);
    } else {
        lemma_all_counted(front, kept);
    }
}

proof fn lemma_all_counted(entries: Seq<Option<&str>>, kept: Seq<char>)
    requires
        forall|i: int| 0 <= i < entries.len() ==> is_other(#[trigger] entries[i], kept),
    ensures
        count_others(entries, kept) == entries.len(),
    decreases entries.len(),
{
    if entries.len() > 0 {
        let front = entries.drop_last();
        assert(is_other(entries[entries.len() - 1], kept));
        assert forall|i: int| 0 <= i < front.len() implies is_other(#[trigger] front[i], kept) by {
            assert(front[i] == entries[i]);
        }
        lemma_all_counted(front, kept);
    }
}

/// A segment with its records.
pub struct SegmentView {
    /// First sequence, which its name and its header carry.
    pub first: u64,
    /// Its records.
    pub records: Seq<RecordView>,
}

/// The records of the segments follow each other: each segment starts where the one before it
/// ends.
pub open spec fn chained(segments: Seq<SegmentView>, max: u32) -> bool {
    &&& forall|i: int|
        0 <= i < segments.len() ==> frame::consecutive(
            (#[trigger] segments[i]).records,
            Some(segments[i].first),
            max,
        )
    &&& forall|i: int|
        0 <= i < segments.len() - 1 ==> frame::expected_after(
            (#[trigger] segments[i]).records,
            Some(segments[i].first),
        ) == Some(segments[i + 1].first)
}

/// Records of a segment stand between its first sequence and the one expected behind it.
proof fn lemma_segment_span(segment: SegmentView, max: u32)
    requires
        frame::consecutive(segment.records, Some(segment.first), max),
    ensures
        frame::expected_after(segment.records, Some(segment.first)) matches Some(next)
            ==> segment.first <= next && forall|k: int|
            0 <= k < segment.records.len() ==> (#[trigger] segment.records[k]).sequence < next,
{
    let records = segment.records;
    if records.len() > 0 {
        let last = records.len() - 1;
        frame::lemma_consecutive_sequence(records, Some(segment.first), max, last);
        assert forall|k: int| 0 <= k < records.len() implies (#[trigger] records[k]).sequence
            <= records[last].sequence by {
            frame::lemma_consecutive_sequence(records, Some(segment.first), max, k);
        }
    }
}

/// Later segments do not start earlier.
proof fn lemma_segments_rise(segments: Seq<SegmentView>, max: u32, i: int, j: int)
    requires
        chained(segments, max),
        0 <= i <= j < segments.len(),
    ensures
        segments[i].first <= segments[j].first,
    decreases j - i,
{
    if i < j {
        lemma_segment_span(segments[i], max);
        lemma_segments_rise(segments, max, i + 1, j);
    }
}

/// Every record in a segment in front of the active one is represented by a snapshot of the
/// current state: it stands in front of the active segment, and at or below the watermark. What
/// compaction removes is not needed.
pub proof fn law_covered_segments_hold_only_represented_records(
    segments: Seq<SegmentView>,
    max: u32,
    next: Option<u64>,
    i: int,
    k: int,
)
    requires
        chained(segments, max),
        0 <= i < segments.len() - 1,
        0 <= k < segments[i].records.len(),
        next == frame::expected_after(segments.last().records, Some(segments.last().first)),
    ensures
        segments[i].records[k].sequence < segments.last().first,
        segments[i].records[k].sequence <= opening::watermark_before(next),
{
    let last = segments.len() - 1;
    lemma_segment_span(segments[i], max);
    lemma_segments_rise(segments, max, i + 1, last);
    lemma_segment_span(segments[last], max);
}

/// Where the active segment holds no record, as after the rotation before a snapshot, it starts
/// where recovery from the snapshot goes on.
pub proof fn law_active_segment_starts_behind_the_watermark(active: SegmentView, next: Option<u64>)
    requires
        active.first != 0,
        active.records.len() == 0,
        next == frame::expected_after(active.records, Some(active.first)),
    ensures
        opening::watermark_before(next) + 1 == active.first,
        opening::first_needed(Some(opening::watermark_before(next))) == active.first,
{
}

} // verus!

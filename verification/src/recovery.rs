//! WAL recovery scanning without engine application.

use crate::bytes::is_granted;
use crate::error::StorageError;
use crate::record::frame;
use crate::record::frame::RecordView;
use crate::record::{Record, RecordLimits, RecordReader};
use crate::wire::model;
use vstd::prelude::*;

verus! {

/// The model of recovered records.
pub open spec fn records_view(out: Result<Vec<Record>, StorageError>) -> Result<
    Seq<RecordView>,
    StorageError,
> {
    match out {
        Ok(records) => Ok(model::views(records@)),
        Err(error) => Err(error),
    }
}

/// `records` followed by what was recovered behind them.
pub open spec fn preceded(
    records: Seq<RecordView>,
    rest: Result<Seq<RecordView>, StorageError>,
) -> Result<Seq<RecordView>, StorageError> {
    match rest {
        Ok(more) => Ok(records + more),
        Err(error) => Err(error),
    }
}

/// Reads all records. Memory for them is granted as listed, or else asked for. What was granted
/// is returned.
fn recover_with(source: &[u8], limits: RecordLimits, grants: Option<&[bool]>) -> (out: (
    Result<Vec<Record>, StorageError>,
    Ghost<Seq<bool>>,
))
    ensures
        records_view(out.0) == frame::recovered_with(
            frame::reader_at_start(source@, limits@),
            out.1@,
            0,
        ),
        grants matches Some(listed) ==> out.1@ == listed@,
{
    let ghost mut listed = match grants {
        Some(listed) => listed@,
        None => seq![],
    };
    let mut reader = RecordReader::new(source, limits);
    let mut records: Vec<Record> = Vec::new();
    let ghost start = reader@;
    let ghost whole = frame::recovered_with(start, listed, 0);
    proof {
        assert(model::views(records@) =~= seq![]);
        if let Ok(more) = whole {
            assert(model::views(records@) + more =~= more);
        }
    }
    loop
        invariant
            reader@.wf(),
            start == frame::reader_at_start(source@, limits@),
            listed == match grants {
                Some(listed) => listed@,
                None => seq![],
            },
            whole == frame::recovered_with(start, listed, 0),
            whole == preceded(
                model::views(records@),
                frame::recovered_with(reader@, listed, records@.len()),
            ),
            frame::read_through(start, records@.len()),
            reader@ == frame::reader_behind(start, records@.len()),
        decreases reader@.rest.len(),
    {
        broadcast use model::lemma_views_push;

        let ghost before = reader@;
        proof {
            frame::lemma_step_consumes(before);
        }
        let told = match grants {
            Some(listed) => Some(is_granted(listed, records.len())),
            None => None,
        };
        let (out, granted) = reader.read_next_with(told);
        match out {
            Ok(Some(record)) => {
                let ghost sofar = model::views(records@);
                records.push(record);
                proof {
                    let rest = frame::recovered_with(reader@, listed, records@.len());
                    if let Ok(more) = rest {
                        assert(sofar + (seq![record@] + more) =~= sofar.push(record@) + more);
                    }
                }
            },
            Ok(None) => {
                assert(model::views(records@) + seq![] =~= model::views(records@));
                return (Ok(records), Ghost(listed));
            },
            Err(error) => {
                proof {
                    if grants is None && !granted@ && frame::asked(before) is Some {
                        listed = frame::refused_after(records@.len());
                        frame::lemma_recovered_refused(start, 0, records@.len());
                    }
                }
                return (Err(error), Ghost(listed));
            },
        }
    }
}

/// Reads and validates all logical records in strict sequence order.
///
/// Recovery starts at the first sequence, applies `limits` before it asks for the memory of
/// each body, and stops at a clean end. It returns opaque records. The first partial tail, size,
/// structural, sequence, padding or checksum failure ends it: the scanner never attempts to
/// resynchronize. It may also end because the memory for a record cannot be had.
pub fn recover(source: &[u8], limits: RecordLimits) -> (out: Result<Vec<Record>, StorageError>)
    ensures
        exists|grants: Seq<bool>|
            records_view(out) == #[trigger] frame::recovered_with(
                frame::reader_at_start(source@, limits@),
                grants,
                0,
            ),
        records_view(out) == frame::recovered(frame::reader_at_start(source@, limits@)) || exists|
            done: nat,
        | #[trigger]
            frame::refused_behind(
                frame::reader_at_start(source@, limits@),
                done,
                records_view(out),
            ),
{
    let (out, grants) = recover_with(source, limits, None);
    proof {
        frame::law_scan_is_complete_or_refused_at_a_record(
            frame::reader_at_start(source@, limits@),
            grants@,
            0,
        );
    }
    out
}

/// Reads and validates all logical records as if memory for them were granted as listed.
pub fn recover_granted(source: &[u8], limits: RecordLimits, grants: &[bool]) -> (out: Result<
    Vec<Record>,
    StorageError,
>)
    ensures
        records_view(out) == frame::recovered_with(
            frame::reader_at_start(source@, limits@),
            grants@,
            0,
        ),
{
    let (out, _) = recover_with(source, limits, Some(grants));
    out
}

} // verus!

//! Intervals, units and capacity curves.

use crate::error::{DomainError, StorageError};
use crate::wire::assured::{assure_all, Assured};
use crate::wire::model;
use crate::wire::model::{Enc, Limits, Parsed, Wire};
use crate::wire::reader::{Decode, Reader};
use crate::wire::writer::{Encode, Writer};
use vstd::prelude::*;

verus! {

/// The model of an [`Interval`].
pub struct IntervalView {
    /// First instant.
    pub start: i64,
    /// First instant after the interval.
    pub end: i64,
}

/// A non-empty half-open span of time.
#[derive(Debug, Clone, Copy, PartialEq, Eq, Hash, Structural)]
pub struct Interval {
    start: i64,
    end: i64,
}

impl View for Interval {
    type V = IntervalView;

    closed spec fn view(&self) -> IntervalView {
        IntervalView { start: self.start, end: self.end }
    }
}

impl Interval {
    #[verifier::type_invariant]
    spec fn kept_valid(&self) -> bool {
        self@.valid()
    }
}

impl Assured for Interval {
    fn assure(&self) {
        proof {
            use_type_invariant(self);
        }
    }
}

impl Interval {
    /// Creates the interval from `start` up to, but not including, `end`.
    pub fn new(start: i64, end: i64) -> (out: Result<Interval, DomainError>)
        ensures
            match out {
                Ok(interval) => start < end && interval@ == (IntervalView { start, end }),
                Err(error) => start >= end && error == DomainError::InvalidInterval,
            },
    {
        if start >= end {
            return Err(DomainError::InvalidInterval);
        }
        Ok(Interval { start, end })
    }

    /// Returns the first instant.
    pub fn start(&self) -> (out: i64)
        ensures
            out == self@.start,
    {
        self.start
    }

    /// Returns the first instant after the interval.
    pub fn end(&self) -> (out: i64)
        ensures
            out == self@.end,
    {
        self.end
    }
}

impl Wire for IntervalView {
    open spec fn valid(self) -> bool {
        self.start < self.end
    }

    open spec fn fits(self, limits: Limits) -> bool {
        true
    }

    #[verifier::opaque]
    open spec fn enc(self) -> Enc {
        self.start.enc().followed_by(
            self.end.enc(),
        )
    }

    #[verifier::opaque]
    open spec fn parse(data: Seq<u8>, pos: int, limits: Limits) -> Parsed<IntervalView> {
        match i64::parse(data, pos, limits) {
            Err(error) => Err(error),
            Ok((start, p1)) => match i64::parse(data, p1, limits) {
                Err(error) => Err(error),
                Ok((end, stop)) => if start >= end {
                    Err(StorageError::Domain(DomainError::InvalidInterval))
                } else {
                    Ok((IntervalView { start, end }, stop))
                },
            },
        }
    }

    proof fn lemma_parse(data: Seq<u8>, pos: int, limits: Limits, cut: int) {
        broadcast use {model::lemma_at_add, model::lemma_le_len};

        reveal(<IntervalView as Wire>::enc);
        reveal(<IntervalView as Wire>::parse);
        i64::lemma_parse(data, pos, limits, cut);
        if let Ok((_, p1)) = i64::parse(data, pos, limits) {
            i64::lemma_parse(data, p1, limits, cut);
        }
    }

    proof fn lemma_enc(self, data: Seq<u8>, pos: int, limits: Limits) {
        broadcast use {model::lemma_at_add, model::lemma_le_len};

        reveal(<IntervalView as Wire>::enc);
        reveal(<IntervalView as Wire>::parse);
        self.start.lemma_enc(data, pos, limits);
        let p1 = pos + self.start.enc().bytes.len();
        self.end.lemma_enc(data, p1, limits);
    }

    proof fn lemma_fits(self, limits: Limits) {
        reveal(<IntervalView as Wire>::enc);

    }
}

impl Encode for Interval {
    fn encode(&self, writer: &mut Writer) -> (out: Result<(), StorageError>) {
        broadcast use crate::wire::writer::lemma_written_chain;

        reveal(<IntervalView as Wire>::enc);
        writer.i64(self.start);
        writer.i64(self.end);
        Ok(())
    }
}

impl Decode for Interval {
    fn decode(reader: &mut Reader) -> (out: Result<Interval, StorageError>) {
        reveal(<IntervalView as Wire>::parse);
        let start = reader.i64()?;
        let end = reader.i64()?;
        match Interval::new(start, end) {
            Ok(value) => Ok(value),
            Err(error) => Err(StorageError::Domain(error)),
        }
    }
}

/// The model of a [`Unit`].
#[verifier::ext_equal]
pub struct UnitView {
    /// Display name of the unit.
    pub name: Seq<char>,
    /// Number of countable parts of one unit.
    pub subunits: u64,
}

/// What a resource pool counts.
#[derive(Debug, PartialEq, Eq)]
pub struct Unit {
    name: String,
    subunits: u64,
}

impl View for Unit {
    type V = UnitView;

    closed spec fn view(&self) -> UnitView {
        UnitView { name: self.name@, subunits: self.subunits }
    }
}

impl Clone for Unit {
    fn clone(&self) -> (out: Unit)
        ensures
            out@ == self@,
    {
        proof {
            use_type_invariant(self);
        }
        Unit { name: self.name.clone(), subunits: self.subunits }
    }
}

impl Unit {
    #[verifier::type_invariant]
    spec fn kept_valid(&self) -> bool {
        self@.valid()
    }
}

impl Assured for Unit {
    fn assure(&self) {
        proof {
            use_type_invariant(self);
        }
    }
}

impl Unit {
    /// Creates a unit with a name and a positive number of subunits.
    pub fn new(name: String, subunits: u64) -> (out: Result<Unit, DomainError>)
        ensures
            match out {
                Ok(unit) => name@.len() > 0 && subunits > 0 && unit@ == (UnitView {
                    name: name@,
                    subunits,
                }),
                Err(error) => if name@.len() == 0 {
                    error == DomainError::InvalidUnitName
                } else {
                    subunits == 0 && error == DomainError::InvalidUnitScale
                },
            },
    {
        if name.as_str().is_empty() {
            return Err(DomainError::InvalidUnitName);
        }
        if subunits == 0 {
            return Err(DomainError::InvalidUnitScale);
        }
        Ok(Unit { name, subunits })
    }

    /// Returns the name.
    pub fn name(&self) -> (out: &str)
        ensures
            out@ == self@.name,
    {
        self.name.as_str()
    }

    /// Returns the number of countable parts of one unit.
    pub fn subunits_per_unit(&self) -> (out: u64)
        ensures
            out == self@.subunits,
    {
        self.subunits
    }
}

impl Wire for UnitView {
    open spec fn valid(self) -> bool {
        &&& self.name.len() > 0
        &&& self.subunits > 0
    }

    open spec fn fits(self, limits: Limits) -> bool {
        model::string_fits(self.name, limits)
    }

    #[verifier::opaque]
    open spec fn enc(self) -> Enc {
        model::enc_string("unit name", self.name).followed_by(
            self.subunits.enc(),
        )
    }

    #[verifier::opaque]
    open spec fn parse(data: Seq<u8>, pos: int, limits: Limits) -> Parsed<UnitView> {
        match model::parse_string(data, pos, limits, "unit name") {
            Err(error) => Err(error),
            Ok((name, p1)) => match u64::parse(data, p1, limits) {
                Err(error) => Err(error),
                Ok((subunits, stop)) => if name.len() == 0 {
                    Err(StorageError::Domain(DomainError::InvalidUnitName))
                } else if subunits == 0 {
                    Err(StorageError::Domain(DomainError::InvalidUnitScale))
                } else {
                    Ok((UnitView { name, subunits }, stop))
                },
            },
        }
    }

    proof fn lemma_parse(data: Seq<u8>, pos: int, limits: Limits, cut: int) {
        broadcast use {model::lemma_at_add, model::lemma_le_len};

        reveal(<UnitView as Wire>::enc);
        reveal(<UnitView as Wire>::parse);
        model::lemma_parse_string(data, pos, limits, "unit name", cut);
        if let Ok((_, p1)) = model::parse_string(data, pos, limits, "unit name") {
            u64::lemma_parse(data, p1, limits, cut);
        }
    }

    proof fn lemma_enc(self, data: Seq<u8>, pos: int, limits: Limits) {
        broadcast use {model::lemma_at_add, model::lemma_le_len};

        reveal(<UnitView as Wire>::enc);
        reveal(<UnitView as Wire>::parse);
        model::lemma_string_enc(self.name, data, pos, limits, "unit name");
        let p1 = pos + model::enc_string("unit name", self.name).bytes.len();
        self.subunits.lemma_enc(data, p1, limits);
    }

    proof fn lemma_fits(self, limits: Limits) {
        reveal(<UnitView as Wire>::enc);

    }
}

impl Encode for Unit {
    fn encode(&self, writer: &mut Writer) -> (out: Result<(), StorageError>) {
        broadcast use crate::wire::writer::lemma_written_chain;

        reveal(<UnitView as Wire>::enc);
        writer.string("unit name", self.name.as_str())?;
        writer.u64(self.subunits);
        Ok(())
    }
}

impl Decode for Unit {
    fn decode(reader: &mut Reader) -> (out: Result<Unit, StorageError>) {
        reveal(<UnitView as Wire>::parse);
        let name = reader.string("unit name")?;
        let subunits = reader.u64()?;
        match Unit::new(name, subunits) {
            Ok(value) => Ok(value),
            Err(error) => Err(StorageError::Domain(error)),
        }
    }
}

/// The model of a [`CapacitySegment`].
pub struct CapacitySegmentView {
    /// When the capacity is there.
    pub interval: IntervalView,
    /// How much of it there is.
    pub capacity: u64,
}

/// A constant capacity over an interval.
#[derive(Debug, Clone, Copy, PartialEq, Eq, Hash, Structural)]
pub struct CapacitySegment {
    interval: Interval,
    capacity: u64,
}

impl View for CapacitySegment {
    type V = CapacitySegmentView;

    closed spec fn view(&self) -> CapacitySegmentView {
        CapacitySegmentView { interval: self.interval@, capacity: self.capacity }
    }
}

impl CapacitySegment {
    #[verifier::type_invariant]
    spec fn kept_valid(&self) -> bool {
        self@.valid()
    }
}

impl Assured for CapacitySegment {
    fn assure(&self) {
        proof {
            use_type_invariant(self);
        }
    }
}

impl CapacitySegment {
    /// Creates a segment.
    pub fn new(interval: Interval, capacity: u64) -> (out: CapacitySegment)
        ensures
            out@ == (CapacitySegmentView { interval: interval@, capacity }),
    {
        interval.assure();
        CapacitySegment { interval, capacity }
    }

    /// Returns when the capacity is there.
    pub fn interval(&self) -> (out: Interval)
        ensures
            out@ == self@.interval,
    {
        self.interval
    }

    /// Returns how much capacity there is.
    pub fn capacity(&self) -> (out: u64)
        ensures
            out == self@.capacity,
    {
        self.capacity
    }
}

impl Wire for CapacitySegmentView {
    open spec fn valid(self) -> bool {
        self.interval.valid()
    }

    open spec fn fits(self, limits: Limits) -> bool {
        self.interval.fits(limits)
    }

    #[verifier::opaque]
    open spec fn enc(self) -> Enc {
        self.interval.enc().followed_by(
            self.capacity.enc(),
        )
    }

    #[verifier::opaque]
    open spec fn parse(data: Seq<u8>, pos: int, limits: Limits) -> Parsed<CapacitySegmentView> {
        match IntervalView::parse(data, pos, limits) {
            Err(error) => Err(error),
            Ok((interval, p1)) => match u64::parse(data, p1, limits) {
                Err(error) => Err(error),
                Ok((capacity, stop)) => Ok((CapacitySegmentView { interval, capacity }, stop)),
            },
        }
    }

    proof fn lemma_parse(data: Seq<u8>, pos: int, limits: Limits, cut: int) {
        broadcast use {model::lemma_at_add, model::lemma_le_len};

        reveal(<CapacitySegmentView as Wire>::enc);
        reveal(<CapacitySegmentView as Wire>::parse);
        IntervalView::lemma_parse(data, pos, limits, cut);
        if let Ok((_, p1)) = IntervalView::parse(data, pos, limits) {
            u64::lemma_parse(data, p1, limits, cut);
        }
    }

    proof fn lemma_enc(self, data: Seq<u8>, pos: int, limits: Limits) {
        broadcast use {model::lemma_at_add, model::lemma_le_len};

        reveal(<CapacitySegmentView as Wire>::enc);
        reveal(<CapacitySegmentView as Wire>::parse);
        self.interval.lemma_enc(data, pos, limits);
        let p1 = pos + self.interval.enc().bytes.len();
        self.capacity.lemma_enc(data, p1, limits);
    }

    proof fn lemma_fits(self, limits: Limits) {
        reveal(<CapacitySegmentView as Wire>::enc);
        self.interval.lemma_fits(limits);
    }
}

impl Encode for CapacitySegment {
    fn encode(&self, writer: &mut Writer) -> (out: Result<(), StorageError>) {
        broadcast use crate::wire::writer::lemma_written_chain;

        reveal(<CapacitySegmentView as Wire>::enc);
        self.interval.encode(writer)?;
        writer.u64(self.capacity);
        Ok(())
    }
}

impl Decode for CapacitySegment {
    fn decode(reader: &mut Reader) -> (out: Result<CapacitySegment, StorageError>) {
        reveal(<CapacitySegmentView as Wire>::parse);
        let interval = Interval::decode(reader)?;
        let capacity = reader.u64()?;
        Ok(CapacitySegment::new(interval, capacity))
    }
}

/// What is wrong with `next` directly behind `previous`.
pub open spec fn pair_fault(
    previous: CapacitySegmentView,
    next: CapacitySegmentView,
) -> Option<DomainError> {
    if next.interval.start < previous.interval.start {
        Some(DomainError::UnsortedCapacitySegments)
    } else if next.interval.start < previous.interval.end {
        Some(DomainError::OverlappingCapacitySegments)
    } else {
        None
    }
}

/// The first fault between neighbouring segments.
pub open spec fn curve_fault(segments: Seq<CapacitySegmentView>) -> Option<DomainError>
    decreases segments.len(),
{
    if segments.len() < 2 {
        None
    } else {
        match curve_fault(segments.drop_last()) {
            Some(error) => Some(error),
            None => pair_fault(segments[segments.len() - 2], segments.last()),
        }
    }
}

/// The segments of a faultless curve are disjoint and in chronological order.
pub proof fn law_curve_segments_are_disjoint_and_ordered(curve: CapacityCurveView, i: int, j: int)
    requires
        curve.valid(),
        0 <= i < j < curve.segments.len(),
    ensures
        curve.segments[i].interval.end <= curve.segments[j].interval.start,
    decreases curve.segments.len(),
{
    let segments = curve.segments;
    assert(segments[j - 1].valid());
    if j == segments.len() - 1 {
        if i < j - 1 {
            let front = CapacityCurveView { segments: segments.drop_last() };
            assert(front.valid());
            law_curve_segments_are_disjoint_and_ordered(front, i, j - 1);
        }
    } else {
        let front = CapacityCurveView { segments: segments.drop_last() };
        assert(front.valid());
        law_curve_segments_are_disjoint_and_ordered(front, i, j);
    }
}

/// A fault among the first segments is a fault of the whole.
proof fn lemma_fault_stays(segments: Seq<CapacitySegmentView>, count: int)
    requires
        0 <= count <= segments.len(),
        curve_fault(segments.take(count)) is Some,
    ensures
        curve_fault(segments) == curve_fault(segments.take(count)),
    decreases segments.len(),
{
    if count == segments.len() {
        assert(segments.take(count) =~= segments);
    } else {
        assert(segments.drop_last().take(count) =~= segments.take(count));
        lemma_fault_stays(segments.drop_last(), count);
    }
}

/// The model of a [`CapacityCurve`].
#[verifier::ext_equal]
pub struct CapacityCurveView {
    /// The segments in chronological order.
    pub segments: Seq<CapacitySegmentView>,
}

/// Capacity over time.
#[derive(Debug, PartialEq, Eq)]
pub struct CapacityCurve {
    segments: Vec<CapacitySegment>,
}

impl View for CapacityCurve {
    type V = CapacityCurveView;

    closed spec fn view(&self) -> CapacityCurveView {
        CapacityCurveView { segments: model::views(self.segments@) }
    }
}

impl Clone for CapacityCurve {
    fn clone(&self) -> (out: CapacityCurve)
        ensures
            out@ == self@,
    {
        proof {
            use_type_invariant(self);
        }
        let segments = self.segments.clone();
        assert(model::views(segments@) =~= model::views(self.segments@));
        CapacityCurve { segments }
    }
}

impl CapacityCurve {
    #[verifier::type_invariant]
    spec fn kept_valid(&self) -> bool {
        self@.valid()
    }
}

impl Assured for CapacityCurve {
    fn assure(&self) {
        proof {
            use_type_invariant(self);
        }
    }
}

impl CapacityCurve {
    /// Creates a curve without capacity.
    pub fn empty() -> (out: CapacityCurve)
        ensures
            out@ == (CapacityCurveView { segments: seq![] }),
    {
        let segments: Vec<CapacitySegment> = Vec::new();
        assert(model::views(segments@) =~= seq![]);
        CapacityCurve { segments }
    }

    /// Creates a curve from disjoint segments in chronological order.
    pub fn from_sorted(segments: Vec<CapacitySegment>) -> (out: Result<CapacityCurve, DomainError>)
        ensures
            match (curve_fault(model::views(segments@)), out) {
                (None, Ok(curve)) => curve@.segments == model::views(segments@),
                (Some(fault), Err(error)) => error == fault,
                _ => false,
            },
    {
        let ghost models = model::views(segments@);
        let mut i: usize = 1;
        assert(curve_fault(models.take(if models.len() < 1 { models.len() as int } else { 1 }))
            is None);
        while i < segments.len()
            invariant
                1 <= i,
                i <= segments.len() || segments.len() == 0,
                models == model::views(segments@),
                i <= segments.len() ==> curve_fault(models.take(i as int)) is None,
            decreases segments.len() - i,
        {
            let previous = segments[i - 1].interval;
            let next = segments[i].interval;
            proof {
                let longer = models.take(i as int + 1);
                assert(longer.drop_last() =~= models.take(i as int));
                assert(longer[longer.len() - 2] == segments@[i - 1]@);
                assert(longer.last() == segments@[i as int]@);
                if curve_fault(longer) is Some {
                    lemma_fault_stays(models, i as int + 1);
                }
            }
            if next.start < previous.start {
                return Err(DomainError::UnsortedCapacitySegments);
            }
            if next.start < previous.end {
                return Err(DomainError::OverlappingCapacitySegments);
            }
            i += 1;
        }
        assert(models.len() >= 1 ==> models.take(models.len() as int) =~= models);
        assure_all(segments.as_slice());
        Ok(CapacityCurve { segments })
    }

    /// Returns the segments in chronological order.
    pub fn segments(&self) -> (out: &[CapacitySegment])
        ensures
            model::views(out@) == self@.segments,
    {
        self.segments.as_slice()
    }
}

impl Wire for CapacityCurveView {
    open spec fn valid(self) -> bool {
        &&& model::all_valid(self.segments)
        &&& curve_fault(self.segments) is None
    }

    open spec fn fits(self, limits: Limits) -> bool {
        model::list_fits(self.segments, limits)
    }

    #[verifier::opaque]
    open spec fn enc(self) -> Enc {
        model::enc_list("capacity segments", self.segments)
    }

    #[verifier::opaque]
    open spec fn parse(data: Seq<u8>, pos: int, limits: Limits) -> Parsed<CapacityCurveView> {
        match model::parse_list::<CapacitySegmentView>(data, pos, limits, "capacity segments") {
            Err(error) => Err(error),
            Ok((segments, stop)) => match curve_fault(segments) {
                Some(error) => Err(StorageError::Domain(error)),
                None => Ok((CapacityCurveView { segments }, stop)),
            },
        }
    }

    proof fn lemma_parse(data: Seq<u8>, pos: int, limits: Limits, cut: int) {
        broadcast use {model::lemma_at_add, model::lemma_le_len};

        reveal(<CapacityCurveView as Wire>::enc);
        reveal(<CapacityCurveView as Wire>::parse);
        model::lemma_parse_list::<CapacitySegmentView>(data, pos, limits, "capacity segments", cut);
    }

    proof fn lemma_enc(self, data: Seq<u8>, pos: int, limits: Limits) {
        broadcast use {model::lemma_at_add, model::lemma_le_len};

        reveal(<CapacityCurveView as Wire>::enc);
        reveal(<CapacityCurveView as Wire>::parse);
        model::lemma_list_enc(self.segments, data, pos, limits, "capacity segments");
    }

    proof fn lemma_fits(self, limits: Limits) {
        reveal(<CapacityCurveView as Wire>::enc);
        model::lemma_list_fits(self.segments, limits, "capacity segments");
    }
}

impl Encode for CapacityCurve {
    fn encode(&self, writer: &mut Writer) -> (out: Result<(), StorageError>) {
        broadcast use crate::wire::writer::lemma_written_chain;

        reveal(<CapacityCurveView as Wire>::enc);
        writer.list("capacity segments", self.segments.as_slice())?;
        Ok(())
    }
}

impl Decode for CapacityCurve {
    fn decode(reader: &mut Reader) -> (out: Result<CapacityCurve, StorageError>) {
        reveal(<CapacityCurveView as Wire>::parse);
        let segments = reader.list::<CapacitySegment>("capacity segments")?;
        match CapacityCurve::from_sorted(segments) {
            Ok(value) => Ok(value),
            Err(error) => Err(StorageError::Domain(error)),
        }
    }
}

} // verus!

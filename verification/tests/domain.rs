//! Domain values.

use promisedb::domain::capacity::{CapacityCurve, CapacitySegment, Interval, Unit};
use promisedb::domain::claims::{Bundle, Choice, Claim, RelativeBundle, RelativeClaim};
use promisedb::domain::ids::{PromiseId, ResourcePoolId};
use promisedb::domain::promise::{Promise, PromiseState, SequenceNumber, Version};
use promisedb::error::DomainError;

fn pool(byte: u8) -> ResourcePoolId {
    ResourcePoolId::from_bytes([byte; 16])
}

fn segment(start: i64, end: i64) -> CapacitySegment {
    CapacitySegment::new(Interval::new(start, end).unwrap(), 1)
}

#[test]
fn intervals_end_after_they_start() {
    let interval = Interval::new(-3, 4).unwrap();
    assert_eq!((interval.start(), interval.end()), (-3, 4));
    assert_eq!(Interval::new(4, 4), Err(DomainError::InvalidInterval));
    assert_eq!(Interval::new(5, 4), Err(DomainError::InvalidInterval));
}

#[test]
fn units_have_a_name_and_subunits() {
    let unit = Unit::new("seat".to_string(), 2).unwrap();
    assert_eq!(unit.name(), "seat");
    assert_eq!(unit.subunits_per_unit(), 2);
    assert_eq!(
        Unit::new(String::new(), 0),
        Err(DomainError::InvalidUnitName)
    );
    assert_eq!(
        Unit::new("seat".to_string(), 0),
        Err(DomainError::InvalidUnitScale)
    );
}

#[test]
fn curves_are_sorted_and_disjoint() {
    let curve = CapacityCurve::from_sorted(vec![segment(0, 5), segment(5, 9), segment(20, 30)]);
    let curve = curve.unwrap();
    assert_eq!(curve.segments().len(), 3);
    assert!(curve.segments()[0].interval().end() <= curve.segments()[2].interval().start());
    assert!(CapacityCurve::empty().segments().is_empty());
    assert_eq!(
        CapacityCurve::from_sorted(vec![segment(5, 9), segment(0, 5)]),
        Err(DomainError::UnsortedCapacitySegments)
    );
    assert_eq!(
        CapacityCurve::from_sorted(vec![segment(0, 5), segment(4, 9)]),
        Err(DomainError::OverlappingCapacitySegments)
    );
}

#[test]
fn claims_and_their_groups_are_not_empty() {
    let interval = Interval::new(0, 1).unwrap();
    assert_eq!(
        Claim::new(pool(1), interval, 0),
        Err(DomainError::InvalidQuantity)
    );
    assert_eq!(Bundle::new(Vec::new()), Err(DomainError::EmptyBundle));
    assert_eq!(Choice::new(Vec::new()), Err(DomainError::EmptyChoice));
    assert_eq!(
        RelativeBundle::new(Vec::new()),
        Err(DomainError::EmptyRelativeBundle)
    );
    assert_eq!(
        RelativeClaim::new(pool(1), 3, 3, 0),
        Err(DomainError::InvalidInterval)
    );
    assert_eq!(
        RelativeClaim::new(pool(1), 3, 4, 0),
        Err(DomainError::InvalidQuantity)
    );
    let claim = RelativeClaim::new(pool(1), -3, 4, 5).unwrap();
    assert_eq!((claim.start_offset(), claim.end_offset()), (-3, 4));
    assert_eq!((claim.pool_id(), claim.quantity()), (pool(1), 5));
}

#[test]
fn promises_are_not_changed_before_they_are_created() {
    let bundle = Bundle::new(vec![
        Claim::new(pool(1), Interval::new(0, 1).unwrap(), 1).unwrap()
    ])
    .unwrap();
    assert_eq!(
        Promise::restore(
            PromiseId::from_bytes([1; 16]),
            PromiseState::Committed,
            bundle,
            Version::new(1).unwrap(),
            SequenceNumber::new(4),
            SequenceNumber::new(3),
        ),
        Err(DomainError::InvalidPromiseHistory)
    );
    assert_eq!(Version::new(0), None);
    assert_eq!(Version::new(8).unwrap().get(), 8);
}

#[test]
fn identities_keep_their_bytes() {
    let bytes = [0, 1, 2, 3, 4, 5, 6, 7, 8, 9, 10, 11, 12, 13, 14, 255];
    assert_eq!(ResourcePoolId::from_bytes(bytes).as_bytes(), bytes);
    assert_eq!(PromiseId::from_bytes(bytes).as_bytes(), bytes);
    assert!(PromiseId::from_bytes([1; 16]) < PromiseId::from_bytes([2; 16]));
}

//! What commands return.

use crate::domain::capacity::{Interval, IntervalView};
use crate::domain::ids::{PromiseId, ResourcePoolId};
use crate::domain::promise::{SequenceNumber, Version};
use crate::error::{DomainError, StorageError};
use crate::wire::assured::{assure_all, Assured};
use crate::wire::model;
use crate::wire::model::{Enc, Keyed, Limits, Parsed, Wire};
use crate::wire::reader;
use crate::wire::reader::{Decode, Reader};
use crate::wire::writer::{Encode, Writer};
use vstd::prelude::*;

verus! {

/// The wire tag of a domain error.
pub open spec fn domain_error_tag(value: DomainError) -> u8 {
    match value {
        DomainError::InvalidInterval => 1,
        DomainError::UnsortedCapacitySegments => 2,
        DomainError::OverlappingCapacitySegments => 3,
        DomainError::InvalidUnitName => 4,
        DomainError::InvalidUnitScale => 5,
        DomainError::InvalidQuantity => 6,
        DomainError::QuantityOutOfRange => 7,
        DomainError::QuantityOverflow => 8,
        DomainError::IndexOverflow => 9,
        DomainError::InvalidExpiration => 10,
        DomainError::EmptyBundle => 11,
        DomainError::EmptyRelativeBundle => 12,
        DomainError::EmptyChoice => 13,
        DomainError::InvalidSearchRange => 14,
        DomainError::InvalidStep => 15,
        DomainError::TimestampOverflow => 16,
        DomainError::ResourcePoolAlreadyExists => 17,
        DomainError::ResourcePoolNotFound => 18,
        DomainError::CapacityExceeded => 19,
        DomainError::CapacityRevisionCreatesDeficit => 20,
        DomainError::PromiseAlreadyExists => 21,
        DomainError::PromiseNotFound => 22,
        DomainError::InvalidPromiseState => 23,
        DomainError::IdempotencyConflict => 24,
        DomainError::VersionConflict => 25,
        DomainError::VersionOverflow => 26,
        DomainError::SequenceOverflow => 27,
        DomainError::SystemTimeOutOfRange => 28,
        DomainError::HoldExpired => 29,
        DomainError::HoldNotExpired => 30,
        DomainError::InvalidPromiseHistory => 31,
        DomainError::PublicationRevisionOverflow => 32,
    }
}

/// A domain error with the given wire tag.
pub open spec fn domain_error_of_tag(tag: u8) -> Option<DomainError> {
    if tag == 1 {
        Some(DomainError::InvalidInterval)
    } else if tag == 2 {
        Some(DomainError::UnsortedCapacitySegments)
    } else if tag == 3 {
        Some(DomainError::OverlappingCapacitySegments)
    } else if tag == 4 {
        Some(DomainError::InvalidUnitName)
    } else if tag == 5 {
        Some(DomainError::InvalidUnitScale)
    } else if tag == 6 {
        Some(DomainError::InvalidQuantity)
    } else if tag == 7 {
        Some(DomainError::QuantityOutOfRange)
    } else if tag == 8 {
        Some(DomainError::QuantityOverflow)
    } else if tag == 9 {
        Some(DomainError::IndexOverflow)
    } else if tag == 10 {
        Some(DomainError::InvalidExpiration)
    } else if tag == 11 {
        Some(DomainError::EmptyBundle)
    } else if tag == 12 {
        Some(DomainError::EmptyRelativeBundle)
    } else if tag == 13 {
        Some(DomainError::EmptyChoice)
    } else if tag == 14 {
        Some(DomainError::InvalidSearchRange)
    } else if tag == 15 {
        Some(DomainError::InvalidStep)
    } else if tag == 16 {
        Some(DomainError::TimestampOverflow)
    } else if tag == 17 {
        Some(DomainError::ResourcePoolAlreadyExists)
    } else if tag == 18 {
        Some(DomainError::ResourcePoolNotFound)
    } else if tag == 19 {
        Some(DomainError::CapacityExceeded)
    } else if tag == 20 {
        Some(DomainError::CapacityRevisionCreatesDeficit)
    } else if tag == 21 {
        Some(DomainError::PromiseAlreadyExists)
    } else if tag == 22 {
        Some(DomainError::PromiseNotFound)
    } else if tag == 23 {
        Some(DomainError::InvalidPromiseState)
    } else if tag == 24 {
        Some(DomainError::IdempotencyConflict)
    } else if tag == 25 {
        Some(DomainError::VersionConflict)
    } else if tag == 26 {
        Some(DomainError::VersionOverflow)
    } else if tag == 27 {
        Some(DomainError::SequenceOverflow)
    } else if tag == 28 {
        Some(DomainError::SystemTimeOutOfRange)
    } else if tag == 29 {
        Some(DomainError::HoldExpired)
    } else if tag == 30 {
        Some(DomainError::HoldNotExpired)
    } else if tag == 31 {
        Some(DomainError::InvalidPromiseHistory)
    } else if tag == 32 {
        Some(DomainError::PublicationRevisionOverflow)
    } else {
        None
    }
}

/// Returns the wire tag of a domain error.
pub fn tag_of_domain_error(value: DomainError) -> (out: u8)
    ensures
        out == domain_error_tag(value),
{
    match value {
        DomainError::InvalidInterval => 1,
        DomainError::UnsortedCapacitySegments => 2,
        DomainError::OverlappingCapacitySegments => 3,
        DomainError::InvalidUnitName => 4,
        DomainError::InvalidUnitScale => 5,
        DomainError::InvalidQuantity => 6,
        DomainError::QuantityOutOfRange => 7,
        DomainError::QuantityOverflow => 8,
        DomainError::IndexOverflow => 9,
        DomainError::InvalidExpiration => 10,
        DomainError::EmptyBundle => 11,
        DomainError::EmptyRelativeBundle => 12,
        DomainError::EmptyChoice => 13,
        DomainError::InvalidSearchRange => 14,
        DomainError::InvalidStep => 15,
        DomainError::TimestampOverflow => 16,
        DomainError::ResourcePoolAlreadyExists => 17,
        DomainError::ResourcePoolNotFound => 18,
        DomainError::CapacityExceeded => 19,
        DomainError::CapacityRevisionCreatesDeficit => 20,
        DomainError::PromiseAlreadyExists => 21,
        DomainError::PromiseNotFound => 22,
        DomainError::InvalidPromiseState => 23,
        DomainError::IdempotencyConflict => 24,
        DomainError::VersionConflict => 25,
        DomainError::VersionOverflow => 26,
        DomainError::SequenceOverflow => 27,
        DomainError::SystemTimeOutOfRange => 28,
        DomainError::HoldExpired => 29,
        DomainError::HoldNotExpired => 30,
        DomainError::InvalidPromiseHistory => 31,
        DomainError::PublicationRevisionOverflow => 32,
    }
}

/// Returns a domain error with the given wire tag.
pub fn domain_error_from_tag(tag: u8) -> (out: Option<DomainError>)
    ensures
        out == domain_error_of_tag(tag),
{
    if tag == 1 {
        Some(DomainError::InvalidInterval)
    } else if tag == 2 {
        Some(DomainError::UnsortedCapacitySegments)
    } else if tag == 3 {
        Some(DomainError::OverlappingCapacitySegments)
    } else if tag == 4 {
        Some(DomainError::InvalidUnitName)
    } else if tag == 5 {
        Some(DomainError::InvalidUnitScale)
    } else if tag == 6 {
        Some(DomainError::InvalidQuantity)
    } else if tag == 7 {
        Some(DomainError::QuantityOutOfRange)
    } else if tag == 8 {
        Some(DomainError::QuantityOverflow)
    } else if tag == 9 {
        Some(DomainError::IndexOverflow)
    } else if tag == 10 {
        Some(DomainError::InvalidExpiration)
    } else if tag == 11 {
        Some(DomainError::EmptyBundle)
    } else if tag == 12 {
        Some(DomainError::EmptyRelativeBundle)
    } else if tag == 13 {
        Some(DomainError::EmptyChoice)
    } else if tag == 14 {
        Some(DomainError::InvalidSearchRange)
    } else if tag == 15 {
        Some(DomainError::InvalidStep)
    } else if tag == 16 {
        Some(DomainError::TimestampOverflow)
    } else if tag == 17 {
        Some(DomainError::ResourcePoolAlreadyExists)
    } else if tag == 18 {
        Some(DomainError::ResourcePoolNotFound)
    } else if tag == 19 {
        Some(DomainError::CapacityExceeded)
    } else if tag == 20 {
        Some(DomainError::CapacityRevisionCreatesDeficit)
    } else if tag == 21 {
        Some(DomainError::PromiseAlreadyExists)
    } else if tag == 22 {
        Some(DomainError::PromiseNotFound)
    } else if tag == 23 {
        Some(DomainError::InvalidPromiseState)
    } else if tag == 24 {
        Some(DomainError::IdempotencyConflict)
    } else if tag == 25 {
        Some(DomainError::VersionConflict)
    } else if tag == 26 {
        Some(DomainError::VersionOverflow)
    } else if tag == 27 {
        Some(DomainError::SequenceOverflow)
    } else if tag == 28 {
        Some(DomainError::SystemTimeOutOfRange)
    } else if tag == 29 {
        Some(DomainError::HoldExpired)
    } else if tag == 30 {
        Some(DomainError::HoldNotExpired)
    } else if tag == 31 {
        Some(DomainError::InvalidPromiseHistory)
    } else if tag == 32 {
        Some(DomainError::PublicationRevisionOverflow)
    } else {
        None
    }
}

impl View for DomainError {
    type V = DomainError;

    open spec fn view(&self) -> DomainError {
        *self
    }
}

impl Wire for DomainError {
    open spec fn valid(self) -> bool {
        true
    }

    open spec fn fits(self, limits: Limits) -> bool {
        true
    }

    #[verifier::opaque]
    open spec fn enc(self) -> Enc {
        domain_error_tag(self).enc()
    }

    #[verifier::opaque]
    open spec fn parse(data: Seq<u8>, pos: int, limits: Limits) -> Parsed<DomainError> {
        match u8::parse(data, pos, limits) {
            Err(error) => Err(error),
            Ok((tag, end)) => match domain_error_of_tag(tag) {
                Some(value) => Ok((value, end)),
                None => Err(StorageError::InvalidTag { kind: "domain error", tag }),
            },
        }
    }

    proof fn lemma_parse(data: Seq<u8>, pos: int, limits: Limits, cut: int) {
        reveal(<DomainError as Wire>::enc);
        reveal(<DomainError as Wire>::parse);
        u8::lemma_parse(data, pos, limits, cut);
    }

    proof fn lemma_enc(self, data: Seq<u8>, pos: int, limits: Limits) {
        reveal(<DomainError as Wire>::enc);
        reveal(<DomainError as Wire>::parse);
        u8::lemma_enc(domain_error_tag(self), data, pos, limits);
    }

    proof fn lemma_fits(self, limits: Limits) {
    }
}

impl Encode for DomainError {
    fn encode(&self, writer: &mut Writer) -> (out: Result<(), StorageError>) {
        reveal(<DomainError as Wire>::enc);
        writer.u8(tag_of_domain_error(*self));
        Ok(())
    }
}

impl Decode for DomainError {
    fn decode(reader: &mut Reader) -> (out: Result<DomainError, StorageError>) {
        reveal(<DomainError as Wire>::parse);
        let tag = reader.u8()?;
        match domain_error_from_tag(tag) {
            Some(value) => Ok(value),
            None => Err(StorageError::InvalidTag { kind: "domain error", tag }),
        }
    }
}

/// Each identifier is greater than the one before it.
pub fn sorted(ids: &[PromiseId]) -> (out: bool)
    ensures
        out == model::ordered(ids@, 1),
{
    let mut i: usize = 1;
    while i < ids.len()
        invariant
            1 <= i,
            forall|a: int, b: int|
                0 <= a < b < i && b < ids.len() ==> (#[trigger] ids@[a]).value + 1 <= (
                #[trigger] ids@[b]).value,
        decreases ids.len() - i,
    {
        if ids[i].value <= ids[i - 1].value {
            assert(ids@[i - 1].key() + 1 > ids@[i as int].key());
            return false;
        }
        assert forall|a: int, b: int| 0 <= a < b < i + 1 && b < ids.len() implies (
        #[trigger] ids@[a]).value + 1 <= (#[trigger] ids@[b]).value by {
            if b == i && a < i - 1 {
                assert(ids@[a].value + 1 <= ids@[i - 1].value);
            }
        }
        i += 1;
    }
    true
}

/// The models of identifiers are the identifiers.
pub proof fn lemma_ids_views(ids: Seq<PromiseId>)
    ensures
        model::views(ids) == ids,
{
    assert(model::views(ids) =~= ids);
}

/// The model of an [`AvailabilityConflict`].
#[verifier::ext_equal]
pub struct AvailabilityConflictView {
    /// The pool that lacks capacity.
    pub resource_pool_id: ResourcePoolId,
    /// When it lacks capacity.
    pub blocking_interval: IntervalView,
    /// How much was asked for.
    pub required_quantity: u64,
    /// How much is there.
    pub available_quantity: u64,
    /// How much is missing.
    pub deficit_quantity: u64,
    /// Promises that use the capacity, in ascending order.
    pub conflicting_promise_ids: Seq<PromiseId>,
}

/// Why a claim cannot be granted.
#[derive(Debug, PartialEq, Eq)]
pub struct AvailabilityConflict {
    resource_pool_id: ResourcePoolId,
    blocking_interval: Interval,
    required_quantity: u64,
    available_quantity: u64,
    deficit_quantity: u64,
    conflicting_promise_ids: Vec<PromiseId>,
}

impl View for AvailabilityConflict {
    type V = AvailabilityConflictView;

    closed spec fn view(&self) -> AvailabilityConflictView {
        AvailabilityConflictView {
            resource_pool_id: self.resource_pool_id,
            blocking_interval: self.blocking_interval@,
            required_quantity: self.required_quantity,
            available_quantity: self.available_quantity,
            deficit_quantity: self.deficit_quantity,
            conflicting_promise_ids: self.conflicting_promise_ids@,
        }
    }
}

impl Clone for AvailabilityConflict {
    fn clone(&self) -> (out: AvailabilityConflict)
        ensures
            out@ == self@,
    {
        proof {
            use_type_invariant(self);
        }
        let conflicting_promise_ids = self.conflicting_promise_ids.clone();
        assert(conflicting_promise_ids@ =~= self.conflicting_promise_ids@);
        AvailabilityConflict {
            resource_pool_id: self.resource_pool_id,
            blocking_interval: self.blocking_interval,
            required_quantity: self.required_quantity,
            available_quantity: self.available_quantity,
            deficit_quantity: self.deficit_quantity,
            conflicting_promise_ids,
        }
    }
}

impl AvailabilityConflict {
    #[verifier::type_invariant]
    spec fn kept_valid(&self) -> bool {
        self@.valid()
    }
}

impl Assured for AvailabilityConflict {
    fn assure(&self) {
        proof {
            use_type_invariant(self);
        }
    }
}

impl AvailabilityConflict {
    /// Rebuilds a stored conflict, unless the quantities contradict each other or the
    /// identifiers are not in ascending order.
    pub fn restore(
        resource_pool_id: ResourcePoolId,
        blocking_interval: Interval,
        required_quantity: u64,
        available_quantity: u64,
        deficit_quantity: u64,
        conflicting_promise_ids: Vec<PromiseId>,
    ) -> (out: Option<AvailabilityConflict>)
        ensures
            out is Some == (available_quantity < required_quantity && deficit_quantity
                == required_quantity - available_quantity && model::ordered(
                conflicting_promise_ids@,
                1,
            )),
            out matches Some(conflict) ==> conflict@ == (AvailabilityConflictView {
                resource_pool_id,
                blocking_interval: blocking_interval@,
                required_quantity,
                available_quantity,
                deficit_quantity,
                conflicting_promise_ids: conflicting_promise_ids@,
            }),
    {
        if available_quantity >= required_quantity || deficit_quantity != required_quantity
            - available_quantity || !sorted(conflicting_promise_ids.as_slice()) {
            return None;
        }
        blocking_interval.assure();
        Some(
            AvailabilityConflict {
                resource_pool_id,
                blocking_interval,
                required_quantity,
                available_quantity,
                deficit_quantity,
                conflicting_promise_ids,
            },
        )
    }

    /// Returns the pool that lacks capacity.
    pub fn resource_pool_id(&self) -> (out: ResourcePoolId)
        ensures
            out == self@.resource_pool_id,
    {
        self.resource_pool_id
    }

    /// Returns when it lacks capacity.
    pub fn blocking_interval(&self) -> (out: Interval)
        ensures
            out@ == self@.blocking_interval,
    {
        self.blocking_interval
    }

    /// Returns how much was asked for.
    pub fn required_quantity(&self) -> (out: u64)
        ensures
            out == self@.required_quantity,
    {
        self.required_quantity
    }

    /// Returns how much is there.
    pub fn available_quantity(&self) -> (out: u64)
        ensures
            out == self@.available_quantity,
    {
        self.available_quantity
    }

    /// Returns how much is missing.
    pub fn deficit_quantity(&self) -> (out: u64)
        ensures
            out == self@.deficit_quantity,
    {
        self.deficit_quantity
    }

    /// Returns the promises that use the capacity.
    pub fn conflicting_promise_ids(&self) -> (out: &[PromiseId])
        ensures
            out@ == self@.conflicting_promise_ids,
    {
        self.conflicting_promise_ids.as_slice()
    }
}

impl Wire for AvailabilityConflictView {
    open spec fn valid(self) -> bool {
        &&& self.resource_pool_id.valid()
        &&& self.blocking_interval.valid()
        &&& model::all_valid(self.conflicting_promise_ids)
        &&& model::ordered(self.conflicting_promise_ids, 1)
        &&& self.available_quantity < self.required_quantity
        &&& self.deficit_quantity == self.required_quantity - self.available_quantity
    }

    open spec fn fits(self, limits: Limits) -> bool {
        &&& self.resource_pool_id.fits(limits)
        &&& self.blocking_interval.fits(limits)
        &&& model::list_fits(self.conflicting_promise_ids, limits)
    }

    #[verifier::opaque]
    open spec fn enc(self) -> Enc {
        self.resource_pool_id.enc().followed_by(
            self.blocking_interval.enc(),
        ).followed_by(
            self.required_quantity.enc(),
        ).followed_by(
            self.available_quantity.enc(),
        ).followed_by(
            self.deficit_quantity.enc(),
        ).followed_by(
            model::enc_list("conflicting promise ids", self.conflicting_promise_ids),
        )
    }

    #[verifier::opaque]
    open spec fn parse(
        data: Seq<u8>,
        pos: int,
        limits: Limits,
    ) -> Parsed<AvailabilityConflictView> {
        match ResourcePoolId::parse(data, pos, limits) {
            Err(error) => Err(error),
            Ok((resource_pool_id, p1)) => match IntervalView::parse(data, p1, limits) {
                Err(error) => Err(error),
                Ok((blocking_interval, p2)) => match u64::parse(data, p2, limits) {
                    Err(error) => Err(error),
                    Ok((required_quantity, p3)) => match u64::parse(data, p3, limits) {
                        Err(error) => Err(error),
                        Ok((available_quantity, p4)) => match u64::parse(data, p4, limits) {
                            Err(error) => Err(error),
                            Ok((deficit_quantity, p5)) => match model::parse_ordered::<PromiseId>(
                                data,
                                p5,
                                limits,
                                "conflicting promise ids",
                                1,
                                "promise IDs are not sorted and unique",
                            ) {
                                Err(error) => Err(error),
                                Ok((conflicting_promise_ids, stop)) => if !(
                                    available_quantity < required_quantity
                                        && deficit_quantity == required_quantity - available_quantity
                                ) {
                                    Err(
                                        StorageError::CorruptRecord(
                                            "invalid availability conflict",
                                        ),
                                    )
                                } else {
                                    Ok(
                                        (
                                            AvailabilityConflictView {
                                                resource_pool_id,
                                                blocking_interval,
                                                required_quantity,
                                                available_quantity,
                                                deficit_quantity,
                                                conflicting_promise_ids,
                                            },
                                            stop,
                                        ),
                                    )
                                },
                            },
                        },
                    },
                },
            },
        }
    }

    proof fn lemma_parse(data: Seq<u8>, pos: int, limits: Limits, cut: int) {
        broadcast use {model::lemma_at_add, model::lemma_le_len};

        reveal(<AvailabilityConflictView as Wire>::enc);
        reveal(<AvailabilityConflictView as Wire>::parse);
        ResourcePoolId::lemma_parse(data, pos, limits, cut);
        if let Ok((_, p1)) = ResourcePoolId::parse(data, pos, limits) {
            IntervalView::lemma_parse(data, p1, limits, cut);
            if let Ok((_, p2)) = IntervalView::parse(data, p1, limits) {
                u64::lemma_parse(data, p2, limits, cut);
                if let Ok((_, p3)) = u64::parse(data, p2, limits) {
                    u64::lemma_parse(data, p3, limits, cut);
                    if let Ok((_, p4)) = u64::parse(data, p3, limits) {
                        u64::lemma_parse(data, p4, limits, cut);
                        if let Ok((_, p5)) = u64::parse(data, p4, limits) {
                            model::lemma_parse_ordered::<PromiseId>(
                                data,
                                p5,
                                limits,
                                "conflicting promise ids",
                                1,
                                "promise IDs are not sorted and unique",
                                cut,
                            );
                        }
                    }
                }
            }
        }
    }

    proof fn lemma_enc(self, data: Seq<u8>, pos: int, limits: Limits) {
        broadcast use {model::lemma_at_add, model::lemma_le_len};

        reveal(<AvailabilityConflictView as Wire>::enc);
        reveal(<AvailabilityConflictView as Wire>::parse);
        self.resource_pool_id.lemma_enc(data, pos, limits);
        let p1 = pos + self.resource_pool_id.enc().bytes.len();
        self.blocking_interval.lemma_enc(data, p1, limits);
        let p2 = p1 + self.blocking_interval.enc().bytes.len();
        self.required_quantity.lemma_enc(data, p2, limits);
        let p3 = p2 + self.required_quantity.enc().bytes.len();
        self.available_quantity.lemma_enc(data, p3, limits);
        let p4 = p3 + self.available_quantity.enc().bytes.len();
        self.deficit_quantity.lemma_enc(data, p4, limits);
        let p5 = p4 + self.deficit_quantity.enc().bytes.len();
        model::lemma_ordered_enc(
            self.conflicting_promise_ids,
            data,
            p5,
            limits,
            "conflicting promise ids",
            1,
            "promise IDs are not sorted and unique",
        );
    }

    proof fn lemma_fits(self, limits: Limits) {
        reveal(<AvailabilityConflictView as Wire>::enc);
        self.resource_pool_id.lemma_fits(limits);
        self.blocking_interval.lemma_fits(limits);
        model::lemma_list_fits(self.conflicting_promise_ids, limits, "conflicting promise ids");
    }
}

impl Encode for AvailabilityConflict {
    fn encode(&self, writer: &mut Writer) -> (out: Result<(), StorageError>) {
        broadcast use crate::wire::writer::lemma_written_chain;

        proof {
            lemma_ids_views(self.conflicting_promise_ids@);
        }
        reveal(<AvailabilityConflictView as Wire>::enc);
        self.resource_pool_id.encode(writer)?;
        self.blocking_interval.encode(writer)?;
        writer.u64(self.required_quantity);
        writer.u64(self.available_quantity);
        writer.u64(self.deficit_quantity);
        writer.list("conflicting promise ids", self.conflicting_promise_ids.as_slice())?;
        Ok(())
    }
}

impl Decode for AvailabilityConflict {
    fn decode(reader: &mut Reader) -> (out: Result<AvailabilityConflict, StorageError>) {
        reveal(<AvailabilityConflictView as Wire>::parse);
        let resource_pool_id = ResourcePoolId::decode(reader)?;
        let blocking_interval = Interval::decode(reader)?;
        let required_quantity = reader.u64()?;
        let available_quantity = reader.u64()?;
        let deficit_quantity = reader.u64()?;
        let conflicting_promise_ids = reader.ordered::<PromiseId>(
            "conflicting promise ids",
            1,
            "promise IDs are not sorted and unique",
        )?;
        proof {
            lemma_ids_views(conflicting_promise_ids@);
        }
        match AvailabilityConflict::restore(
            resource_pool_id,
            blocking_interval,
            required_quantity,
            available_quantity,
            deficit_quantity,
            conflicting_promise_ids,
        ) {
            Some(value) => Ok(value),
            None => Err(StorageError::CorruptRecord("invalid availability conflict")),
        }
    }
}

/// The model of a [`CapacityDeficit`].
#[verifier::ext_equal]
pub struct CapacityDeficitView {
    /// The pool that lacks capacity.
    pub resource_pool_id: ResourcePoolId,
    /// When it lacks capacity.
    pub interval: IntervalView,
    /// How much is missing.
    pub quantity: u64,
    /// Promises that are affected, in ascending order.
    pub affected_promise_ids: Seq<PromiseId>,
}

/// Promised capacity that is no longer there.
#[derive(Debug, PartialEq, Eq)]
pub struct CapacityDeficit {
    resource_pool_id: ResourcePoolId,
    interval: Interval,
    quantity: u64,
    affected_promise_ids: Vec<PromiseId>,
}

impl View for CapacityDeficit {
    type V = CapacityDeficitView;

    closed spec fn view(&self) -> CapacityDeficitView {
        CapacityDeficitView {
            resource_pool_id: self.resource_pool_id,
            interval: self.interval@,
            quantity: self.quantity,
            affected_promise_ids: self.affected_promise_ids@,
        }
    }
}

impl Clone for CapacityDeficit {
    fn clone(&self) -> (out: CapacityDeficit)
        ensures
            out@ == self@,
    {
        proof {
            use_type_invariant(self);
        }
        let affected_promise_ids = self.affected_promise_ids.clone();
        assert(affected_promise_ids@ =~= self.affected_promise_ids@);
        CapacityDeficit {
            resource_pool_id: self.resource_pool_id,
            interval: self.interval,
            quantity: self.quantity,
            affected_promise_ids,
        }
    }
}

impl CapacityDeficit {
    #[verifier::type_invariant]
    spec fn kept_valid(&self) -> bool {
        self@.valid()
    }
}

impl Assured for CapacityDeficit {
    fn assure(&self) {
        proof {
            use_type_invariant(self);
        }
    }
}

impl CapacityDeficit {
    /// Rebuilds a stored deficit, unless nothing is missing or the identifiers are not in
    /// ascending order.
    pub fn restore(
        resource_pool_id: ResourcePoolId,
        interval: Interval,
        quantity: u64,
        affected_promise_ids: Vec<PromiseId>,
    ) -> (out: Option<CapacityDeficit>)
        ensures
            out is Some == (quantity > 0 && model::ordered(affected_promise_ids@, 1)),
            out matches Some(deficit) ==> deficit@ == (CapacityDeficitView {
                resource_pool_id,
                interval: interval@,
                quantity,
                affected_promise_ids: affected_promise_ids@,
            }),
    {
        if quantity == 0 || !sorted(affected_promise_ids.as_slice()) {
            return None;
        }
        interval.assure();
        Some(CapacityDeficit { resource_pool_id, interval, quantity, affected_promise_ids })
    }

    /// Returns the pool that lacks capacity.
    pub fn resource_pool_id(&self) -> (out: ResourcePoolId)
        ensures
            out == self@.resource_pool_id,
    {
        self.resource_pool_id
    }

    /// Returns when it lacks capacity.
    pub fn interval(&self) -> (out: Interval)
        ensures
            out@ == self@.interval,
    {
        self.interval
    }

    /// Returns how much is missing.
    pub fn quantity(&self) -> (out: u64)
        ensures
            out == self@.quantity,
    {
        self.quantity
    }

    /// Returns the promises that are affected.
    pub fn affected_promise_ids(&self) -> (out: &[PromiseId])
        ensures
            out@ == self@.affected_promise_ids,
    {
        self.affected_promise_ids.as_slice()
    }
}

impl Wire for CapacityDeficitView {
    open spec fn valid(self) -> bool {
        &&& self.resource_pool_id.valid()
        &&& self.interval.valid()
        &&& model::all_valid(self.affected_promise_ids)
        &&& model::ordered(self.affected_promise_ids, 1)
        &&& self.quantity > 0
    }

    open spec fn fits(self, limits: Limits) -> bool {
        &&& self.resource_pool_id.fits(limits)
        &&& self.interval.fits(limits)
        &&& model::list_fits(self.affected_promise_ids, limits)
    }

    #[verifier::opaque]
    open spec fn enc(self) -> Enc {
        self.resource_pool_id.enc().followed_by(
            self.interval.enc(),
        ).followed_by(
            self.quantity.enc(),
        ).followed_by(
            model::enc_list("affected promise ids", self.affected_promise_ids),
        )
    }

    #[verifier::opaque]
    open spec fn parse(data: Seq<u8>, pos: int, limits: Limits) -> Parsed<CapacityDeficitView> {
        match ResourcePoolId::parse(data, pos, limits) {
            Err(error) => Err(error),
            Ok((resource_pool_id, p1)) => match IntervalView::parse(data, p1, limits) {
                Err(error) => Err(error),
                Ok((interval, p2)) => match u64::parse(data, p2, limits) {
                    Err(error) => Err(error),
                    Ok((quantity, p3)) => match model::parse_ordered::<PromiseId>(
                        data,
                        p3,
                        limits,
                        "affected promise ids",
                        1,
                        "promise IDs are not sorted and unique",
                    ) {
                        Err(error) => Err(error),
                        Ok((affected_promise_ids, stop)) => if quantity == 0 {
                            Err(StorageError::CorruptRecord("invalid capacity deficit"))
                        } else {
                            Ok(
                                (
                                    CapacityDeficitView {
                                        resource_pool_id,
                                        interval,
                                        quantity,
                                        affected_promise_ids,
                                    },
                                    stop,
                                ),
                            )
                        },
                    },
                },
            },
        }
    }

    proof fn lemma_parse(data: Seq<u8>, pos: int, limits: Limits, cut: int) {
        broadcast use {model::lemma_at_add, model::lemma_le_len};

        reveal(<CapacityDeficitView as Wire>::enc);
        reveal(<CapacityDeficitView as Wire>::parse);
        ResourcePoolId::lemma_parse(data, pos, limits, cut);
        if let Ok((_, p1)) = ResourcePoolId::parse(data, pos, limits) {
            IntervalView::lemma_parse(data, p1, limits, cut);
            if let Ok((_, p2)) = IntervalView::parse(data, p1, limits) {
                u64::lemma_parse(data, p2, limits, cut);
                if let Ok((_, p3)) = u64::parse(data, p2, limits) {
                    model::lemma_parse_ordered::<PromiseId>(
                        data,
                        p3,
                        limits,
                        "affected promise ids",
                        1,
                        "promise IDs are not sorted and unique",
                        cut,
                    );
                }
            }
        }
    }

    proof fn lemma_enc(self, data: Seq<u8>, pos: int, limits: Limits) {
        broadcast use {model::lemma_at_add, model::lemma_le_len};

        reveal(<CapacityDeficitView as Wire>::enc);
        reveal(<CapacityDeficitView as Wire>::parse);
        self.resource_pool_id.lemma_enc(data, pos, limits);
        let p1 = pos + self.resource_pool_id.enc().bytes.len();
        self.interval.lemma_enc(data, p1, limits);
        let p2 = p1 + self.interval.enc().bytes.len();
        self.quantity.lemma_enc(data, p2, limits);
        let p3 = p2 + self.quantity.enc().bytes.len();
        model::lemma_ordered_enc(
            self.affected_promise_ids,
            data,
            p3,
            limits,
            "affected promise ids",
            1,
            "promise IDs are not sorted and unique",
        );
    }

    proof fn lemma_fits(self, limits: Limits) {
        reveal(<CapacityDeficitView as Wire>::enc);
        self.resource_pool_id.lemma_fits(limits);
        self.interval.lemma_fits(limits);
        model::lemma_list_fits(self.affected_promise_ids, limits, "affected promise ids");
    }
}

impl Encode for CapacityDeficit {
    fn encode(&self, writer: &mut Writer) -> (out: Result<(), StorageError>) {
        broadcast use crate::wire::writer::lemma_written_chain;

        proof {
            lemma_ids_views(self.affected_promise_ids@);
        }
        reveal(<CapacityDeficitView as Wire>::enc);
        self.resource_pool_id.encode(writer)?;
        self.interval.encode(writer)?;
        writer.u64(self.quantity);
        writer.list("affected promise ids", self.affected_promise_ids.as_slice())?;
        Ok(())
    }
}

impl Decode for CapacityDeficit {
    fn decode(reader: &mut Reader) -> (out: Result<CapacityDeficit, StorageError>) {
        reveal(<CapacityDeficitView as Wire>::parse);
        let resource_pool_id = ResourcePoolId::decode(reader)?;
        let interval = Interval::decode(reader)?;
        let quantity = reader.u64()?;
        let affected_promise_ids = reader.ordered::<PromiseId>(
            "affected promise ids",
            1,
            "promise IDs are not sorted and unique",
        )?;
        proof {
            lemma_ids_views(affected_promise_ids@);
        }
        match CapacityDeficit::restore(resource_pool_id, interval, quantity, affected_promise_ids) {
            Some(value) => Ok(value),
            None => Err(StorageError::CorruptRecord("invalid capacity deficit")),
        }
    }
}

/// Some deficit affects the promise.
pub open spec fn affects(deficits: Seq<CapacityDeficitView>, id: PromiseId) -> bool {
    exists|i: int| 0 <= i < deficits.len() && (
        #[trigger] deficits[i]
    ).affected_promise_ids.contains(id)
}

/// `ids` are exactly the promises that the deficits affect.
pub open spec fn affected(deficits: Seq<CapacityDeficitView>, ids: Seq<PromiseId>) -> bool {
    forall|id: PromiseId| #[trigger] ids.contains(id) <==> affects(deficits, id)
}

/// Returns whether `id` is among `ids`.
fn lists(ids: &[PromiseId], id: PromiseId) -> (out: bool)
    ensures
        out == ids@.contains(id),
{
    let mut i: usize = 0;
    while i < ids.len()
        invariant
            i <= ids.len(),
            forall|k: int| 0 <= k < i ==> ids@[k] != id,
        decreases ids.len() - i,
    {
        if ids[i].value == id.value {
            assert(ids@[i as int] == id);
            return true;
        }
        i += 1;
    }
    false
}

/// Returns whether every one of `some` is among `all`.
fn lists_all(all: &[PromiseId], some: &[PromiseId]) -> (out: bool)
    ensures
        out == forall|id: PromiseId| #[trigger] some@.contains(id) ==> all@.contains(id),
{
    let mut i: usize = 0;
    while i < some.len()
        invariant
            i <= some.len(),
            forall|k: int| 0 <= k < i ==> all@.contains(#[trigger] some@[k]),
        decreases some.len() - i,
    {
        if !lists(all, some[i]) {
            assert(some@.contains(some@[i as int]));
            return false;
        }
        i += 1;
    }
    true
}

/// Returns whether some deficit affects the promise.
fn is_affected(deficits: &[CapacityDeficit], id: PromiseId) -> (out: bool)
    ensures
        out == affects(model::views(deficits@), id),
{
    let ghost models = model::views(deficits@);
    let mut i: usize = 0;
    while i < deficits.len()
        invariant
            i <= deficits.len(),
            models == model::views(deficits@),
            forall|k: int| 0 <= k < i ==> !(#[trigger] models[k]).affected_promise_ids.contains(id),
        decreases deficits.len() - i,
    {
        assert(models[i as int] == deficits@[i as int]@);
        if lists(deficits[i].affected_promise_ids(), id) {
            return true;
        }
        i += 1;
    }
    false
}

/// Returns whether `ids` are exactly the promises that the deficits affect.
fn covers(deficits: &[CapacityDeficit], ids: &[PromiseId]) -> (out: bool)
    ensures
        out == affected(model::views(deficits@), ids@),
{
    let ghost models = model::views(deficits@);
    let mut i: usize = 0;
    while i < ids.len()
        invariant
            i <= ids.len(),
            models == model::views(deficits@),
            forall|k: int| 0 <= k < i ==> affects(models, #[trigger] ids@[k]),
        decreases ids.len() - i,
    {
        if !is_affected(deficits, ids[i]) {
            assert(ids@.contains(ids@[i as int]));
            return false;
        }
        i += 1;
    }
    i = 0;
    while i < deficits.len()
        invariant
            i <= deficits.len(),
            models == model::views(deficits@),
            forall|k: int| 0 <= k < ids@.len() ==> affects(models, #[trigger] ids@[k]),
            forall|k: int, id: PromiseId|
                0 <= k < i && #[trigger] models[k].affected_promise_ids.contains(id) ==> ids@.contains(id),
        decreases deficits.len() - i,
    {
        assert(models[i as int] == deficits@[i as int]@);
        if !lists_all(ids, deficits[i].affected_promise_ids()) {
            proof {
                let id = choose|id: PromiseId|
                    models[i as int].affected_promise_ids.contains(id) && !ids@.contains(id);
                assert(affects(models, id));
            }
            return false;
        }
        i += 1;
    }
    true
}

/// The model of a [`CapacityRevisionOutcome`].
#[verifier::ext_equal]
pub struct CapacityRevisionOutcomeView {
    /// When the capacity was revised.
    pub sequence: u64,
    /// The deficits after the revision.
    pub deficits: Seq<CapacityDeficitView>,
    /// Promises that are affected, in ascending order.
    pub affected_promise_ids: Seq<PromiseId>,
}

/// What a capacity revision led to.
#[derive(Debug, PartialEq, Eq)]
pub struct CapacityRevisionOutcome {
    sequence: SequenceNumber,
    deficits: Vec<CapacityDeficit>,
    affected_promise_ids: Vec<PromiseId>,
}

impl View for CapacityRevisionOutcome {
    type V = CapacityRevisionOutcomeView;

    closed spec fn view(&self) -> CapacityRevisionOutcomeView {
        CapacityRevisionOutcomeView {
            sequence: self.sequence@,
            deficits: model::views(self.deficits@),
            affected_promise_ids: self.affected_promise_ids@,
        }
    }
}

impl Clone for CapacityRevisionOutcome {
    fn clone(&self) -> (out: CapacityRevisionOutcome)
        ensures
            out@ == self@,
    {
        proof {
            use_type_invariant(self);
        }
        let deficits = self.deficits.clone();
        assert(model::views(deficits@) =~= model::views(self.deficits@));
        let affected_promise_ids = self.affected_promise_ids.clone();
        assert(affected_promise_ids@ =~= self.affected_promise_ids@);
        CapacityRevisionOutcome { sequence: self.sequence, deficits, affected_promise_ids }
    }
}

impl CapacityRevisionOutcome {
    #[verifier::type_invariant]
    spec fn kept_valid(&self) -> bool {
        self@.valid()
    }
}

impl Assured for CapacityRevisionOutcome {
    fn assure(&self) {
        proof {
            use_type_invariant(self);
        }
    }
}

impl CapacityRevisionOutcome {
    /// Rebuilds a stored outcome, unless the identifiers are not those of the affected
    /// promises in ascending order.
    pub fn restore(
        sequence: SequenceNumber,
        deficits: Vec<CapacityDeficit>,
        affected_promise_ids: Vec<PromiseId>,
    ) -> (out: Option<CapacityRevisionOutcome>)
        ensures
            out is Some == (model::ordered(affected_promise_ids@, 1) && affected(
                model::views(deficits@),
                affected_promise_ids@,
            )),
            out matches Some(outcome) ==> outcome@ == (CapacityRevisionOutcomeView {
                sequence: sequence@,
                deficits: model::views(deficits@),
                affected_promise_ids: affected_promise_ids@,
            }),
    {
        if !sorted(affected_promise_ids.as_slice()) || !covers(
            deficits.as_slice(),
            affected_promise_ids.as_slice(),
        ) {
            return None;
        }
        assure_all(deficits.as_slice());
        Some(CapacityRevisionOutcome { sequence, deficits, affected_promise_ids })
    }

    /// Returns when the capacity was revised.
    pub fn sequence(&self) -> (out: SequenceNumber)
        ensures
            out@ == self@.sequence,
    {
        self.sequence
    }

    /// Returns the deficits after the revision.
    pub fn deficits(&self) -> (out: &[CapacityDeficit])
        ensures
            model::views(out@) == self@.deficits,
    {
        self.deficits.as_slice()
    }

    /// Returns the promises that are affected.
    pub fn affected_promise_ids(&self) -> (out: &[PromiseId])
        ensures
            out@ == self@.affected_promise_ids,
    {
        self.affected_promise_ids.as_slice()
    }
}

impl Wire for CapacityRevisionOutcomeView {
    open spec fn valid(self) -> bool {
        &&& model::all_valid(self.deficits)
        &&& model::all_valid(self.affected_promise_ids)
        &&& model::ordered(self.affected_promise_ids, 1)
        &&& affected(self.deficits, self.affected_promise_ids)
    }

    open spec fn fits(self, limits: Limits) -> bool {
        &&& model::list_fits(self.deficits, limits)
        &&& model::list_fits(self.affected_promise_ids, limits)
    }

    #[verifier::opaque]
    open spec fn enc(self) -> Enc {
        self.sequence.enc().followed_by(
            model::enc_list("capacity deficits", self.deficits),
        ).followed_by(
            model::enc_list("affected promise ids", self.affected_promise_ids),
        )
    }

    #[verifier::opaque]
    open spec fn parse(
        data: Seq<u8>,
        pos: int,
        limits: Limits,
    ) -> Parsed<CapacityRevisionOutcomeView> {
        match u64::parse(data, pos, limits) {
            Err(error) => Err(error),
            Ok((sequence, p1)) => match model::parse_list::<CapacityDeficitView>(
                data,
                p1,
                limits,
                "capacity deficits",
            ) {
                Err(error) => Err(error),
                Ok((deficits, p2)) => match model::parse_ordered::<PromiseId>(
                    data,
                    p2,
                    limits,
                    "affected promise ids",
                    1,
                    "promise IDs are not sorted and unique",
                ) {
                    Err(error) => Err(error),
                    Ok((affected_promise_ids, stop)) => if !affected(
                        deficits,
                        affected_promise_ids,
                    ) {
                        Err(StorageError::CorruptRecord("invalid capacity revision outcome"))
                    } else {
                        Ok(
                            (
                                CapacityRevisionOutcomeView {
                                    sequence,
                                    deficits,
                                    affected_promise_ids,
                                },
                                stop,
                            ),
                        )
                    },
                },
            },
        }
    }

    proof fn lemma_parse(data: Seq<u8>, pos: int, limits: Limits, cut: int) {
        broadcast use {model::lemma_at_add, model::lemma_le_len};

        reveal(<CapacityRevisionOutcomeView as Wire>::enc);
        reveal(<CapacityRevisionOutcomeView as Wire>::parse);
        u64::lemma_parse(data, pos, limits, cut);
        if let Ok((_, p1)) = u64::parse(data, pos, limits) {
            model::lemma_parse_list::<CapacityDeficitView>(
                data,
                p1,
                limits,
                "capacity deficits",
                cut,
            );
            if let Ok((_, p2)) = model::parse_list::<CapacityDeficitView>(
                data,
                p1,
                limits,
                "capacity deficits",
            ) {
                model::lemma_parse_ordered::<PromiseId>(
                    data,
                    p2,
                    limits,
                    "affected promise ids",
                    1,
                    "promise IDs are not sorted and unique",
                    cut,
                );
            }
        }
    }

    proof fn lemma_enc(self, data: Seq<u8>, pos: int, limits: Limits) {
        broadcast use {model::lemma_at_add, model::lemma_le_len};

        reveal(<CapacityRevisionOutcomeView as Wire>::enc);
        reveal(<CapacityRevisionOutcomeView as Wire>::parse);
        self.sequence.lemma_enc(data, pos, limits);
        let p1 = pos + self.sequence.enc().bytes.len();
        model::lemma_list_enc(self.deficits, data, p1, limits, "capacity deficits");
        let p2 = p1 + model::enc_list("capacity deficits", self.deficits).bytes.len();
        model::lemma_ordered_enc(
            self.affected_promise_ids,
            data,
            p2,
            limits,
            "affected promise ids",
            1,
            "promise IDs are not sorted and unique",
        );
    }

    proof fn lemma_fits(self, limits: Limits) {
        reveal(<CapacityRevisionOutcomeView as Wire>::enc);
        model::lemma_list_fits(self.deficits, limits, "capacity deficits");
        model::lemma_list_fits(self.affected_promise_ids, limits, "affected promise ids");
    }
}

impl Encode for CapacityRevisionOutcome {
    fn encode(&self, writer: &mut Writer) -> (out: Result<(), StorageError>) {
        broadcast use crate::wire::writer::lemma_written_chain;

        proof {
            lemma_ids_views(self.affected_promise_ids@);
        }
        reveal(<CapacityRevisionOutcomeView as Wire>::enc);
        writer.u64(self.sequence.get());
        writer.list("capacity deficits", self.deficits.as_slice())?;
        writer.list("affected promise ids", self.affected_promise_ids.as_slice())?;
        Ok(())
    }
}

impl Decode for CapacityRevisionOutcome {
    fn decode(reader: &mut Reader) -> (out: Result<CapacityRevisionOutcome, StorageError>) {
        reveal(<CapacityRevisionOutcomeView as Wire>::parse);
        let sequence = SequenceNumber::new(reader.u64()?);
        let deficits = reader.list::<CapacityDeficit>("capacity deficits")?;
        let affected_promise_ids = reader.ordered::<PromiseId>(
            "affected promise ids",
            1,
            "promise IDs are not sorted and unique",
        )?;
        proof {
            lemma_ids_views(affected_promise_ids@);
        }
        match CapacityRevisionOutcome::restore(sequence, deficits, affected_promise_ids) {
            Some(value) => Ok(value),
            None => Err(StorageError::CorruptRecord("invalid capacity revision outcome")),
        }
    }
}

/// The model of a [`ChoiceConflict`].
#[verifier::ext_equal]
pub struct ChoiceConflictView {
    /// Position of the alternative.
    pub alternative_index: nat,
    /// Why it cannot be granted.
    pub conflicts: Seq<AvailabilityConflictView>,
}

/// Why one alternative of a choice cannot be granted.
#[derive(Debug, PartialEq, Eq)]
pub struct ChoiceConflict {
    alternative_index: usize,
    conflicts: Vec<AvailabilityConflict>,
}

impl View for ChoiceConflict {
    type V = ChoiceConflictView;

    closed spec fn view(&self) -> ChoiceConflictView {
        ChoiceConflictView {
            alternative_index: self.alternative_index as nat,
            conflicts: model::views(self.conflicts@),
        }
    }
}

impl Clone for ChoiceConflict {
    fn clone(&self) -> (out: ChoiceConflict)
        ensures
            out@ == self@,
    {
        proof {
            use_type_invariant(self);
        }
        let conflicts = self.conflicts.clone();
        assert(model::views(conflicts@) =~= model::views(self.conflicts@));
        ChoiceConflict { alternative_index: self.alternative_index, conflicts }
    }
}

impl ChoiceConflict {
    #[verifier::type_invariant]
    spec fn kept_valid(&self) -> bool {
        self@.valid()
    }
}

impl Assured for ChoiceConflict {
    fn assure(&self) {
        proof {
            use_type_invariant(self);
        }
    }
}

impl ChoiceConflict {
    /// Rebuilds a stored conflict, unless it gives no reason.
    pub fn restore(alternative_index: usize, conflicts: Vec<AvailabilityConflict>) -> (out: Option<
        ChoiceConflict,
    >)
        ensures
            out is Some == (conflicts@.len() > 0),
            out matches Some(conflict) ==> conflict@ == (ChoiceConflictView {
                alternative_index: alternative_index as nat,
                conflicts: model::views(conflicts@),
            }),
    {
        if conflicts.len() == 0 {
            return None;
        }
        assure_all(conflicts.as_slice());
        Some(ChoiceConflict { alternative_index, conflicts })
    }

    /// Returns the position of the alternative.
    pub fn alternative_index(&self) -> (out: usize)
        ensures
            out == self@.alternative_index,
    {
        self.alternative_index
    }

    /// Returns why it cannot be granted.
    pub fn conflicts(&self) -> (out: &[AvailabilityConflict])
        ensures
            model::views(out@) == self@.conflicts,
    {
        self.conflicts.as_slice()
    }
}

impl Wire for ChoiceConflictView {
    open spec fn valid(self) -> bool {
        &&& model::all_valid(self.conflicts)
        &&& self.conflicts.len() > 0
    }

    open spec fn fits(self, limits: Limits) -> bool {
        &&& self.alternative_index <= limits.ceiling()
        &&& model::list_fits(self.conflicts, limits)
    }

    #[verifier::opaque]
    open spec fn enc(self) -> Enc {
        model::enc_len("alternative index", self.alternative_index).followed_by(
            model::enc_list("availability conflicts", self.conflicts),
        )
    }

    #[verifier::opaque]
    open spec fn parse(data: Seq<u8>, pos: int, limits: Limits) -> Parsed<ChoiceConflictView> {
        match model::parse_index(data, pos, limits, "alternative index") {
            Err(error) => Err(error),
            Ok((alternative_index, p1)) => match model::parse_list::<AvailabilityConflictView>(
                data,
                p1,
                limits,
                "availability conflicts",
            ) {
                Err(error) => Err(error),
                Ok((conflicts, stop)) => if conflicts.len() == 0 {
                    Err(StorageError::CorruptRecord("empty unavailable conflict list"))
                } else {
                    Ok((ChoiceConflictView { alternative_index, conflicts }, stop))
                },
            },
        }
    }

    proof fn lemma_parse(data: Seq<u8>, pos: int, limits: Limits, cut: int) {
        broadcast use {model::lemma_at_add, model::lemma_le_len};

        reveal(<ChoiceConflictView as Wire>::enc);
        reveal(<ChoiceConflictView as Wire>::parse);
        model::lemma_parse_index(data, pos, limits, "alternative index", cut);
        if let Ok((_, p1)) = model::parse_index(data, pos, limits, "alternative index") {
            model::lemma_parse_list::<AvailabilityConflictView>(
                data,
                p1,
                limits,
                "availability conflicts",
                cut,
            );
        }
    }

    proof fn lemma_enc(self, data: Seq<u8>, pos: int, limits: Limits) {
        broadcast use {model::lemma_at_add, model::lemma_le_len};

        reveal(<ChoiceConflictView as Wire>::enc);
        reveal(<ChoiceConflictView as Wire>::parse);
        model::lemma_index_enc(self.alternative_index, data, pos, limits, "alternative index");
        let p1 = pos + model::enc_len("alternative index", self.alternative_index).bytes.len();
        model::lemma_list_enc(self.conflicts, data, p1, limits, "availability conflicts");
    }

    proof fn lemma_fits(self, limits: Limits) {
        reveal(<ChoiceConflictView as Wire>::enc);
        model::lemma_list_fits(self.conflicts, limits, "availability conflicts");
    }
}

impl Encode for ChoiceConflict {
    fn encode(&self, writer: &mut Writer) -> (out: Result<(), StorageError>) {
        broadcast use crate::wire::writer::lemma_written_chain;

        reveal(<ChoiceConflictView as Wire>::enc);
        writer.len("alternative index", self.alternative_index)?;
        writer.list("availability conflicts", self.conflicts.as_slice())?;
        Ok(())
    }
}

/// The conflicts are numbered by their alternative.
pub open spec fn numbered(conflicts: Seq<ChoiceConflictView>) -> bool {
    forall|i: int| 0 <= i < conflicts.len() ==> (#[trigger] conflicts[i]).alternative_index == i
}

/// The conflict of the alternative `expected`.
pub open spec fn parse_choice_conflict(
    data: Seq<u8>,
    pos: int,
    limits: Limits,
    expected: nat,
) -> Parsed<ChoiceConflictView> {
    match model::parse_index(data, pos, limits, "alternative index") {
        Err(error) => Err(error),
        Ok((index, _)) => if index != expected {
            Err(StorageError::CorruptRecord("non-canonical choice conflict index"))
        } else {
            ChoiceConflictView::parse(data, pos, limits)
        },
    }
}

/// The conflicts of the first `count` alternatives.
pub open spec fn parse_first_conflicts(
    data: Seq<u8>,
    pos: int,
    limits: Limits,
    count: nat,
) -> Parsed<Seq<ChoiceConflictView>>
    decreases count,
{
    if count == 0 {
        Ok((seq![], pos))
    } else {
        let before = (count - 1) as nat;
        match parse_first_conflicts(data, pos, limits, before) {
            Err(error) => Err(error),
            Ok((conflicts, start)) => match parse_choice_conflict(data, start, limits, before) {
                Err(error) => Err(error),
                Ok((conflict, end)) => Ok((conflicts.push(conflict), end)),
            },
        }
    }
}

/// The conflicts of all alternatives behind a length prefix.
pub open spec fn parse_choice_conflicts(data: Seq<u8>, pos: int, limits: Limits) -> Parsed<
    Seq<ChoiceConflictView>,
> {
    match model::parse_count(data, pos, limits, "choice conflicts") {
        Err(error) => Err(error),
        Ok((count, start)) => parse_first_conflicts(data, start, limits, count),
    }
}

proof fn lemma_parse_choice_conflict(
    data: Seq<u8>,
    pos: int,
    limits: Limits,
    expected: nat,
    cut: int,
)
    requires
        0 <= pos <= data.len(),
    ensures
        parse_choice_conflict(data, pos, limits, expected) matches Ok((conflict, end)) ==> {
            &&& pos <= end <= data.len()
            &&& conflict.alternative_index == expected
            &&& conflict.valid()
            &&& conflict.fits(limits)
            &&& conflict.enc().ok()
            &&& end == pos + conflict.enc().bytes.len()
            &&& model::at(data, pos, conflict.enc().bytes)
            &&& pos <= cut <= data.len() ==> parse_choice_conflict(
                data.take(cut),
                pos,
                limits,
                expected,
            ) == model::cut_off((conflict, end), cut)
        },
{
    model::lemma_parse_index(data, pos, limits, "alternative index", cut);
    ChoiceConflictView::lemma_parse(data, pos, limits, cut);
    assert(parse_choice_conflict(data, pos, limits, expected) matches Ok((conflict, end))
        ==> conflict.alternative_index == expected && end >= pos + 4) by {
        reveal(<ChoiceConflictView as Wire>::parse);
        if let Ok((_, p1)) = model::parse_index(data, pos, limits, "alternative index") {
            model::lemma_parse_list::<AvailabilityConflictView>(
                data,
                p1,
                limits,
                "availability conflicts",
                cut,
            );
        }
    }
}

proof fn lemma_parse_first_conflicts(data: Seq<u8>, pos: int, limits: Limits, count: nat, cut: int)
    requires
        0 <= pos <= data.len(),
    ensures
        parse_first_conflicts(data, pos, limits, count) matches Ok((conflicts, end)) ==> {
            &&& pos <= end <= data.len()
            &&& conflicts.len() == count
            &&& model::all_valid(conflicts)
            &&& numbered(conflicts)
            &&& model::all_fit(conflicts, limits)
            &&& model::enc_items(conflicts).ok()
            &&& end == pos + model::enc_items(conflicts).bytes.len()
            &&& model::at(data, pos, model::enc_items(conflicts).bytes)
            &&& pos <= cut <= data.len() ==> parse_first_conflicts(
                data.take(cut),
                pos,
                limits,
                count,
            ) == model::cut_off((conflicts, end), cut)
        },
    decreases count,
{
    broadcast use model::lemma_at_add;

    if count == 0 {
        reveal(model::at);
        assert(data.subrange(pos, pos) =~= seq![]);
    } else {
        let before = (count - 1) as nat;
        lemma_parse_first_conflicts(data, pos, limits, before, cut);
        if let Ok((conflicts, start)) = parse_first_conflicts(data, pos, limits, before) {
            lemma_parse_choice_conflict(data, start, limits, before, cut);
            if let Ok((conflict, end)) = parse_choice_conflict(data, start, limits, before) {
                assert(conflicts.push(conflict).drop_last() =~= conflicts);
                assert(conflicts.push(conflict).last() == conflict);
            }
        }
    }
}

proof fn lemma_parse_choice_conflicts(data: Seq<u8>, pos: int, limits: Limits, cut: int)
    requires
        0 <= pos <= data.len(),
    ensures
        parse_choice_conflicts(data, pos, limits) matches Ok((conflicts, end)) ==> {
            &&& pos <= end <= data.len()
            &&& model::all_valid(conflicts)
            &&& numbered(conflicts)
            &&& model::list_fits(conflicts, limits)
            &&& model::enc_list("choice conflicts", conflicts).ok()
            &&& end == pos + model::enc_list("choice conflicts", conflicts).bytes.len()
            &&& model::at(data, pos, model::enc_list("choice conflicts", conflicts).bytes)
            &&& pos <= cut <= data.len() ==> parse_choice_conflicts(data.take(cut), pos, limits)
                == model::cut_off((conflicts, end), cut)
        },
{
    broadcast use model::lemma_at_add;

    model::lemma_parse_count(data, pos, limits, "choice conflicts", cut);
    if let Ok((count, start)) = model::parse_count(data, pos, limits, "choice conflicts") {
        lemma_parse_first_conflicts(data, start, limits, count, cut);
    }
}

proof fn lemma_first_conflicts_enc(
    conflicts: Seq<ChoiceConflictView>,
    data: Seq<u8>,
    pos: int,
    limits: Limits,
)
    requires
        model::all_valid(conflicts),
        numbered(conflicts),
        model::all_fit(conflicts, limits),
        model::enc_items(conflicts).ok(),
        model::at(data, pos, model::enc_items(conflicts).bytes),
    ensures
        parse_first_conflicts(data, pos, limits, conflicts.len()) == Ok::<
            (Seq<ChoiceConflictView>, int),
            StorageError,
        >((conflicts, pos + model::enc_items(conflicts).bytes.len())),
    decreases conflicts.len(),
{
    broadcast use model::lemma_at_add;

    if conflicts.len() == 0 {
        assert(conflicts =~= seq![]);
    } else {
        let front = conflicts.drop_last();
        let last = conflicts.last();
        let start = pos + model::enc_items(front).bytes.len();
        lemma_first_conflicts_enc(front, data, pos, limits);
        last.lemma_enc(data, start, limits);
        assert(model::parse_index(data, start, limits, "alternative index") == Ok::<
            (nat, int),
            StorageError,
        >((last.alternative_index, start + 4))) by {
            reveal(<ChoiceConflictView as Wire>::enc);
            model::lemma_index_enc(
                last.alternative_index,
                data,
                start,
                limits,
                "alternative index",
            );
        }
        assert(front.push(last) =~= conflicts);
    }
}

proof fn lemma_choice_conflicts_enc(
    conflicts: Seq<ChoiceConflictView>,
    data: Seq<u8>,
    pos: int,
    limits: Limits,
)
    requires
        model::all_valid(conflicts),
        numbered(conflicts),
        model::list_fits(conflicts, limits),
        model::enc_list("choice conflicts", conflicts).ok(),
        model::at(data, pos, model::enc_list("choice conflicts", conflicts).bytes),
    ensures
        parse_choice_conflicts(data, pos, limits) == Ok::<
            (Seq<ChoiceConflictView>, int),
            StorageError,
        >((conflicts, pos + model::enc_list("choice conflicts", conflicts).bytes.len())),
{
    broadcast use model::lemma_at_add;

    model::lemma_count_enc(conflicts.len(), data, pos, limits, "choice conflicts");
    lemma_first_conflicts_enc(conflicts, data, pos + 4, limits);
}

/// Decoding stops at the first conflict that fails.
proof fn lemma_conflicts_stop(data: Seq<u8>, pos: int, limits: Limits, count: nat, total: nat)
    requires
        count <= total,
    ensures
        parse_first_conflicts(data, pos, limits, count) is Err ==> parse_first_conflicts(
            data,
            pos,
            limits,
            total,
        ) == parse_first_conflicts(data, pos, limits, count),
    decreases total,
{
    if count < total {
        lemma_conflicts_stop(data, pos, limits, count, (total - 1) as nat);
    }
}

/// Decodes the conflicts of all alternatives behind a length prefix.
fn read_choice_conflicts(reader: &mut Reader) -> (out: Result<Vec<ChoiceConflict>, StorageError>)
    requires
        old(reader).wf(),
    ensures
        old(reader).got(
            *final(reader),
            parse_choice_conflicts(old(reader).data(), old(reader).pos(), old(reader).limits()),
            reader::listed(out),
        ),
{
    let count = reader.count("choice conflicts")?;
    read_first_conflicts(reader, count)
}

/// Decodes the conflict of the alternative `expected`.
fn read_choice_conflict(reader: &mut Reader, expected: usize) -> (out: Result<
    ChoiceConflict,
    StorageError,
>)
    requires
        old(reader).wf(),
    ensures
        old(reader).got(
            *final(reader),
            parse_choice_conflict(
                old(reader).data(),
                old(reader).pos(),
                old(reader).limits(),
                expected as nat,
            ),
            reader::viewed(out),
        ),
{
    reveal(<ChoiceConflictView as Wire>::parse);
    let index = reader.index("alternative index")?;
    if index != expected {
        return Err(StorageError::CorruptRecord("non-canonical choice conflict index"));
    }
    let conflicts = reader.list::<AvailabilityConflict>("availability conflicts")?;
    if conflicts.len() == 0 {
        return Err(StorageError::CorruptRecord("empty unavailable conflict list"));
    }
    match ChoiceConflict::restore(index, conflicts) {
        Some(conflict) => Ok(conflict),
        None => Err(StorageError::CorruptRecord("invalid choice conflict")),
    }
}

/// Decodes the conflicts of the first `count` alternatives.
fn read_first_conflicts(reader: &mut Reader, count: usize) -> (out: Result<
    Vec<ChoiceConflict>,
    StorageError,
>)
    requires
        old(reader).wf(),
    ensures
        old(reader).got(
            *final(reader),
            parse_first_conflicts(
                old(reader).data(),
                old(reader).pos(),
                old(reader).limits(),
                count as nat,
            ),
            reader::listed(out),
        ),
{
    let capacity = reader.safe_capacity(count);
    let mut conflicts: Vec<ChoiceConflict> = Vec::with_capacity(capacity);
    let mut i: usize = 0;
    assert(model::views(conflicts@) =~= seq![]);
    while i < count
        invariant
            i <= count,
            old(reader).wf(),
            old(reader).got(
                *reader,
                parse_first_conflicts(
                    old(reader).data(),
                    old(reader).pos(),
                    old(reader).limits(),
                    i as nat,
                ),
                Ok(model::views(conflicts@)),
            ),
        decreases count - i,
    {
        broadcast use model::lemma_views_push;

        proof {
            lemma_conflicts_stop(
                old(reader).data(),
                old(reader).pos(),
                old(reader).limits(),
                i as nat + 1,
                count as nat,
            );
        }
        let conflict = read_choice_conflict(reader, i)?;
        conflicts.push(conflict);
        i += 1;
    }
    Ok(conflicts)
}

/// An eight-byte count that the machine can hold.
pub open spec fn parse_size(
    data: Seq<u8>,
    pos: int,
    limits: Limits,
    field: &'static str,
) -> Parsed<usize> {
    match u64::parse(data, pos, limits) {
        Err(error) => Err(error),
        Ok((value, end)) => if value > usize::MAX {
            Err(StorageError::InvalidLength { field, length: u64::MAX })
        } else {
            Ok((value as usize, end))
        },
    }
}

proof fn lemma_parse_size(
    data: Seq<u8>,
    pos: int,
    limits: Limits,
    field: &'static str,
    cut: int,
)
    requires
        0 <= pos <= data.len(),
    ensures
        parse_size(data, pos, limits, field) matches Ok((value, end)) ==> {
            &&& pos <= end <= data.len()
            &&& end == pos + (value as u64).enc().bytes.len()
            &&& model::at(data, pos, (value as u64).enc().bytes)
            &&& pos <= cut <= data.len() ==> parse_size(data.take(cut), pos, limits, field)
                == model::cut_off((value, end), cut)
        },
{
    u64::lemma_parse(data, pos, limits, cut);
}

/// Decodes an eight-byte count.
fn read_size(reader: &mut Reader, field: &'static str) -> (out: Result<usize, StorageError>)
    requires
        old(reader).wf(),
    ensures
        old(reader).got(
            *final(reader),
            parse_size(old(reader).data(), old(reader).pos(), old(reader).limits(), field),
            out,
        ),
{
    let value = reader.u64()?;
    if value > usize::MAX as u64 {
        return Err(StorageError::InvalidLength { field, length: u64::MAX });
    }
    Ok(value as usize)
}

/// The model of a [`HoldOutcome`].
#[verifier::ext_equal]
pub enum HoldOutcomeView {
    /// The bundle is held under the given promise.
    Held(PromiseId),
    /// The bundle cannot be granted.
    Unavailable {
        /// Why not.
        conflicts: Seq<AvailabilityConflictView>,
    },
}

/// What an attempt to hold a bundle led to.
#[derive(Debug, Clone, PartialEq, Eq)]
pub enum HoldOutcome {
    /// The bundle is held under the given promise.
    Held(PromiseId),
    /// The bundle cannot be granted.
    Unavailable {
        /// Why not.
        conflicts: Vec<AvailabilityConflict>,
    },
}

impl View for HoldOutcome {
    type V = HoldOutcomeView;

    open spec fn view(&self) -> HoldOutcomeView {
        match self {
            HoldOutcome::Held(promise_id) => HoldOutcomeView::Held(*promise_id),
            HoldOutcome::Unavailable { conflicts } => HoldOutcomeView::Unavailable {
                conflicts: model::views(conflicts@),
            },
        }
    }
}

impl Wire for HoldOutcomeView {
    open spec fn valid(self) -> bool {
        match self {
            HoldOutcomeView::Held(promise_id) => {
                promise_id.valid()
            },
            HoldOutcomeView::Unavailable { conflicts } => {
                &&& model::all_valid(conflicts)
                &&& conflicts.len() > 0
            },
        }
    }

    open spec fn fits(self, limits: Limits) -> bool {
        match self {
            HoldOutcomeView::Held(promise_id) => {
                promise_id.fits(limits)
            },
            HoldOutcomeView::Unavailable { conflicts } => {
                model::list_fits(conflicts, limits)
            },
        }
    }

    #[verifier::opaque]
    open spec fn enc(self) -> Enc {
        match self {
            HoldOutcomeView::Held(promise_id) => 1u8.enc().followed_by(
                promise_id.enc(),
            ),
            HoldOutcomeView::Unavailable { conflicts } => 2u8.enc().followed_by(
                model::enc_list("availability conflicts", conflicts),
            ),
        }
    }

    #[verifier::opaque]
    open spec fn parse(data: Seq<u8>, pos: int, limits: Limits) -> Parsed<HoldOutcomeView> {
        match u8::parse(data, pos, limits) {
            Err(error) => Err(error),
            Ok((tag, p0)) => {
                if tag == 1u8 {
                    match PromiseId::parse(data, p0, limits) {
                        Err(error) => Err(error),
                        Ok((promise_id, stop)) => Ok((HoldOutcomeView::Held(promise_id), stop)),
                    }
                } else if tag == 2u8 {
                    match model::parse_list::<AvailabilityConflictView>(
                        data,
                        p0,
                        limits,
                        "availability conflicts",
                    ) {
                        Err(error) => Err(error),
                        Ok((conflicts, stop)) => if conflicts.len() == 0 {
                            Err(StorageError::CorruptRecord("empty unavailable conflict list"))
                        } else {
                            Ok((HoldOutcomeView::Unavailable { conflicts }, stop))
                        },
                    }
                } else {
                    Err(StorageError::InvalidTag { kind: "hold outcome", tag })
                }
            },
        }
    }

    proof fn lemma_parse(data: Seq<u8>, pos: int, limits: Limits, cut: int) {
        broadcast use {model::lemma_at_add, model::lemma_le_len};

        reveal(<HoldOutcomeView as Wire>::enc);
        reveal(<HoldOutcomeView as Wire>::parse);
        u8::lemma_parse(data, pos, limits, cut);
        if let Ok((tag, p0)) = u8::parse(data, pos, limits) {
            if tag == 1u8 {
                PromiseId::lemma_parse(data, p0, limits, cut);
            } else if tag == 2u8 {
                model::lemma_parse_list::<AvailabilityConflictView>(
                    data,
                    p0,
                    limits,
                    "availability conflicts",
                    cut,
                );
            }
        }
    }

    proof fn lemma_enc(self, data: Seq<u8>, pos: int, limits: Limits) {
        broadcast use {model::lemma_at_add, model::lemma_le_len};

        reveal(<HoldOutcomeView as Wire>::enc);
        reveal(<HoldOutcomeView as Wire>::parse);
        let p0 = pos + 1;
        match self {
            HoldOutcomeView::Held(promise_id) => {
                u8::lemma_enc(1u8, data, pos, limits);
                promise_id.lemma_enc(data, p0, limits);
            },
            HoldOutcomeView::Unavailable { conflicts } => {
                u8::lemma_enc(2u8, data, pos, limits);
                model::lemma_list_enc(conflicts, data, p0, limits, "availability conflicts");
            },
        }
    }

    proof fn lemma_fits(self, limits: Limits) {
        reveal(<HoldOutcomeView as Wire>::enc);
        match self {
            HoldOutcomeView::Held(promise_id) => {
                promise_id.lemma_fits(limits);
            },
            HoldOutcomeView::Unavailable { conflicts } => {
                model::lemma_list_fits(conflicts, limits, "availability conflicts");
            },
        }
    }
}

impl Encode for HoldOutcome {
    fn encode(&self, writer: &mut Writer) -> (out: Result<(), StorageError>) {
        broadcast use crate::wire::writer::lemma_written_chain;

        reveal(<HoldOutcomeView as Wire>::enc);
        match self {
            HoldOutcome::Held(promise_id) => {
                writer.u8(1u8);
                promise_id.encode(writer)?;
            },
            HoldOutcome::Unavailable { conflicts } => {
                writer.u8(2u8);
                writer.list("availability conflicts", conflicts.as_slice())?;
            },
        }
        Ok(())
    }
}

impl Decode for HoldOutcome {
    fn decode(reader: &mut Reader) -> (out: Result<HoldOutcome, StorageError>) {
        reveal(<HoldOutcomeView as Wire>::parse);
        let tag = reader.u8()?;
        if tag == 1u8 {
            let promise_id = PromiseId::decode(reader)?;
            Ok(HoldOutcome::Held(promise_id))
        } else if tag == 2u8 {
            let conflicts = reader.list::<AvailabilityConflict>("availability conflicts")?;
            if conflicts.len() == 0 {
                return Err(StorageError::CorruptRecord("empty unavailable conflict list"));
            }
            Ok(HoldOutcome::Unavailable { conflicts })
        } else {
            Err(StorageError::InvalidTag { kind: "hold outcome", tag })
        }
    }
}

/// The model of a [`ChoiceOutcome`].
#[verifier::ext_equal]
pub enum ChoiceOutcomeView {
    /// An alternative is held.
    Held {
        /// The promise.
        promise_id: PromiseId,
        /// Position of the alternative.
        alternative_index: nat,
    },
    /// No alternative can be granted.
    Unavailable {
        /// Why not.
        conflicts: Seq<ChoiceConflictView>,
    },
}

/// What an attempt to hold one of several bundles led to.
#[derive(Debug, Clone, PartialEq, Eq)]
pub enum ChoiceOutcome {
    /// An alternative is held.
    Held {
        /// The promise.
        promise_id: PromiseId,
        /// Position of the alternative.
        alternative_index: usize,
    },
    /// No alternative can be granted.
    Unavailable {
        /// Why not.
        conflicts: Vec<ChoiceConflict>,
    },
}

impl View for ChoiceOutcome {
    type V = ChoiceOutcomeView;

    open spec fn view(&self) -> ChoiceOutcomeView {
        match self {
            ChoiceOutcome::Held { promise_id, alternative_index } => ChoiceOutcomeView::Held {
                promise_id: *promise_id,
                alternative_index: *alternative_index as nat,
            },
            ChoiceOutcome::Unavailable { conflicts } => ChoiceOutcomeView::Unavailable {
                conflicts: model::views(conflicts@),
            },
        }
    }
}

impl Wire for ChoiceOutcomeView {
    open spec fn valid(self) -> bool {
        match self {
            ChoiceOutcomeView::Held { promise_id, alternative_index } => {
                promise_id.valid()
            },
            ChoiceOutcomeView::Unavailable { conflicts } => {
                &&& model::all_valid(conflicts)
                &&& numbered(conflicts)
                &&& conflicts.len() > 0
            },
        }
    }

    open spec fn fits(self, limits: Limits) -> bool {
        match self {
            ChoiceOutcomeView::Held { promise_id, alternative_index } => {
                &&& promise_id.fits(limits)
                &&& alternative_index <= limits.ceiling()
            },
            ChoiceOutcomeView::Unavailable { conflicts } => {
                model::list_fits(conflicts, limits)
            },
        }
    }

    #[verifier::opaque]
    open spec fn enc(self) -> Enc {
        match self {
            ChoiceOutcomeView::Held { promise_id, alternative_index } => 1u8.enc().followed_by(
                promise_id.enc(),
            ).followed_by(
                model::enc_len("alternative index", alternative_index),
            ),
            ChoiceOutcomeView::Unavailable { conflicts } => 2u8.enc().followed_by(
                model::enc_list("choice conflicts", conflicts),
            ),
        }
    }

    #[verifier::opaque]
    open spec fn parse(data: Seq<u8>, pos: int, limits: Limits) -> Parsed<ChoiceOutcomeView> {
        match u8::parse(data, pos, limits) {
            Err(error) => Err(error),
            Ok((tag, p0)) => {
                if tag == 1u8 {
                    match PromiseId::parse(data, p0, limits) {
                        Err(error) => Err(error),
                        Ok((promise_id, p1)) => match model::parse_index(
                            data,
                            p1,
                            limits,
                            "alternative index",
                        ) {
                            Err(error) => Err(error),
                            Ok((alternative_index, stop)) => Ok(
                                (ChoiceOutcomeView::Held { promise_id, alternative_index }, stop),
                            ),
                        },
                    }
                } else if tag == 2u8 {
                    match parse_choice_conflicts(data, p0, limits) {
                        Err(error) => Err(error),
                        Ok((conflicts, stop)) => if conflicts.len() == 0 {
                            Err(StorageError::CorruptRecord("empty choice conflict list"))
                        } else {
                            Ok((ChoiceOutcomeView::Unavailable { conflicts }, stop))
                        },
                    }
                } else {
                    Err(StorageError::InvalidTag { kind: "choice outcome", tag })
                }
            },
        }
    }

    proof fn lemma_parse(data: Seq<u8>, pos: int, limits: Limits, cut: int) {
        broadcast use {model::lemma_at_add, model::lemma_le_len};

        reveal(<ChoiceOutcomeView as Wire>::enc);
        reveal(<ChoiceOutcomeView as Wire>::parse);
        u8::lemma_parse(data, pos, limits, cut);
        if let Ok((tag, p0)) = u8::parse(data, pos, limits) {
            if tag == 1u8 {
                PromiseId::lemma_parse(data, p0, limits, cut);
                if let Ok((_, p1)) = PromiseId::parse(data, p0, limits) {
                    model::lemma_parse_index(data, p1, limits, "alternative index", cut);
                }
            } else if tag == 2u8 {
                lemma_parse_choice_conflicts(data, p0, limits, cut);
            }
        }
    }

    proof fn lemma_enc(self, data: Seq<u8>, pos: int, limits: Limits) {
        broadcast use {model::lemma_at_add, model::lemma_le_len};

        reveal(<ChoiceOutcomeView as Wire>::enc);
        reveal(<ChoiceOutcomeView as Wire>::parse);
        let p0 = pos + 1;
        match self {
            ChoiceOutcomeView::Held { promise_id, alternative_index } => {
                u8::lemma_enc(1u8, data, pos, limits);
                promise_id.lemma_enc(data, p0, limits);
                let p1 = p0 + promise_id.enc().bytes.len();
                model::lemma_index_enc(alternative_index, data, p1, limits, "alternative index");
            },
            ChoiceOutcomeView::Unavailable { conflicts } => {
                u8::lemma_enc(2u8, data, pos, limits);
                lemma_choice_conflicts_enc(conflicts, data, p0, limits);
            },
        }
    }

    proof fn lemma_fits(self, limits: Limits) {
        reveal(<ChoiceOutcomeView as Wire>::enc);
        match self {
            ChoiceOutcomeView::Held { promise_id, alternative_index } => {
                promise_id.lemma_fits(limits);
            },
            ChoiceOutcomeView::Unavailable { conflicts } => {
                model::lemma_list_fits(conflicts, limits, "choice conflicts");
            },
        }
    }
}

impl Encode for ChoiceOutcome {
    fn encode(&self, writer: &mut Writer) -> (out: Result<(), StorageError>) {
        broadcast use crate::wire::writer::lemma_written_chain;

        reveal(<ChoiceOutcomeView as Wire>::enc);
        match self {
            ChoiceOutcome::Held { promise_id, alternative_index } => {
                writer.u8(1u8);
                promise_id.encode(writer)?;
                writer.len("alternative index", *alternative_index)?;
            },
            ChoiceOutcome::Unavailable { conflicts } => {
                writer.u8(2u8);
                writer.list("choice conflicts", conflicts.as_slice())?;
            },
        }
        Ok(())
    }
}

impl Decode for ChoiceOutcome {
    fn decode(reader: &mut Reader) -> (out: Result<ChoiceOutcome, StorageError>) {
        reveal(<ChoiceOutcomeView as Wire>::parse);
        let tag = reader.u8()?;
        if tag == 1u8 {
            let promise_id = PromiseId::decode(reader)?;
            let alternative_index = reader.index("alternative index")?;
            Ok(ChoiceOutcome::Held { promise_id, alternative_index })
        } else if tag == 2u8 {
            let conflicts = read_choice_conflicts(reader)?;
            if conflicts.len() == 0 {
                return Err(StorageError::CorruptRecord("empty choice conflict list"));
            }
            Ok(ChoiceOutcome::Unavailable { conflicts })
        } else {
            Err(StorageError::InvalidTag { kind: "choice outcome", tag })
        }
    }
}

/// The model of a [`SlotOutcome`].
#[verifier::ext_equal]
pub enum SlotOutcomeView {
    /// A slot is held.
    Held {
        /// The promise.
        promise_id: PromiseId,
        /// Start of the slot.
        start: i64,
    },
    /// No slot is free.
    Unavailable {
        /// How many starts were tried.
        attempts: u128,
    },
}

/// What an attempt to hold the first free slot led to.
#[derive(Debug, Clone, PartialEq, Eq)]
pub enum SlotOutcome {
    /// A slot is held.
    Held {
        /// The promise.
        promise_id: PromiseId,
        /// Start of the slot.
        start: i64,
    },
    /// No slot is free.
    Unavailable {
        /// How many starts were tried.
        attempts: u128,
    },
}

impl View for SlotOutcome {
    type V = SlotOutcomeView;

    open spec fn view(&self) -> SlotOutcomeView {
        match self {
            SlotOutcome::Held { promise_id, start } => SlotOutcomeView::Held {
                promise_id: *promise_id,
                start: *start,
            },
            SlotOutcome::Unavailable { attempts } => SlotOutcomeView::Unavailable {
                attempts: *attempts,
            },
        }
    }
}

impl Wire for SlotOutcomeView {
    open spec fn valid(self) -> bool {
        match self {
            SlotOutcomeView::Held { promise_id, start } => {
                promise_id.valid()
            },
            SlotOutcomeView::Unavailable { attempts } => {
                attempts > 0
            },
        }
    }

    open spec fn fits(self, limits: Limits) -> bool {
        match self {
            SlotOutcomeView::Held { promise_id, start } => {
                promise_id.fits(limits)
            },
            SlotOutcomeView::Unavailable { attempts } => {
                true
            },
        }
    }

    #[verifier::opaque]
    open spec fn enc(self) -> Enc {
        match self {
            SlotOutcomeView::Held { promise_id, start } => 1u8.enc().followed_by(
                promise_id.enc(),
            ).followed_by(
                start.enc(),
            ),
            SlotOutcomeView::Unavailable { attempts } => 2u8.enc().followed_by(
                attempts.enc(),
            ),
        }
    }

    #[verifier::opaque]
    open spec fn parse(data: Seq<u8>, pos: int, limits: Limits) -> Parsed<SlotOutcomeView> {
        match u8::parse(data, pos, limits) {
            Err(error) => Err(error),
            Ok((tag, p0)) => {
                if tag == 1u8 {
                    match PromiseId::parse(data, p0, limits) {
                        Err(error) => Err(error),
                        Ok((promise_id, p1)) => match i64::parse(data, p1, limits) {
                            Err(error) => Err(error),
                            Ok((start, stop)) => Ok(
                                (SlotOutcomeView::Held { promise_id, start }, stop),
                            ),
                        },
                    }
                } else if tag == 2u8 {
                    match u128::parse(data, p0, limits) {
                        Err(error) => Err(error),
                        Ok((attempts, stop)) => if attempts == 0 {
                            Err(StorageError::CorruptRecord("zero slot attempts"))
                        } else {
                            Ok((SlotOutcomeView::Unavailable { attempts }, stop))
                        },
                    }
                } else {
                    Err(StorageError::InvalidTag { kind: "slot outcome", tag })
                }
            },
        }
    }

    proof fn lemma_parse(data: Seq<u8>, pos: int, limits: Limits, cut: int) {
        broadcast use {model::lemma_at_add, model::lemma_le_len};

        reveal(<SlotOutcomeView as Wire>::enc);
        reveal(<SlotOutcomeView as Wire>::parse);
        u8::lemma_parse(data, pos, limits, cut);
        if let Ok((tag, p0)) = u8::parse(data, pos, limits) {
            if tag == 1u8 {
                PromiseId::lemma_parse(data, p0, limits, cut);
                if let Ok((_, p1)) = PromiseId::parse(data, p0, limits) {
                    i64::lemma_parse(data, p1, limits, cut);
                }
            } else if tag == 2u8 {
                u128::lemma_parse(data, p0, limits, cut);
            }
        }
    }

    proof fn lemma_enc(self, data: Seq<u8>, pos: int, limits: Limits) {
        broadcast use {model::lemma_at_add, model::lemma_le_len};

        reveal(<SlotOutcomeView as Wire>::enc);
        reveal(<SlotOutcomeView as Wire>::parse);
        let p0 = pos + 1;
        match self {
            SlotOutcomeView::Held { promise_id, start } => {
                u8::lemma_enc(1u8, data, pos, limits);
                promise_id.lemma_enc(data, p0, limits);
                let p1 = p0 + promise_id.enc().bytes.len();
                start.lemma_enc(data, p1, limits);
            },
            SlotOutcomeView::Unavailable { attempts } => {
                u8::lemma_enc(2u8, data, pos, limits);
                attempts.lemma_enc(data, p0, limits);
            },
        }
    }

    proof fn lemma_fits(self, limits: Limits) {
        reveal(<SlotOutcomeView as Wire>::enc);
        match self {
            SlotOutcomeView::Held { promise_id, start } => {
                promise_id.lemma_fits(limits);
            },
            SlotOutcomeView::Unavailable { attempts } => {},
        }
    }
}

impl Encode for SlotOutcome {
    fn encode(&self, writer: &mut Writer) -> (out: Result<(), StorageError>) {
        broadcast use crate::wire::writer::lemma_written_chain;

        reveal(<SlotOutcomeView as Wire>::enc);
        match self {
            SlotOutcome::Held { promise_id, start } => {
                writer.u8(1u8);
                promise_id.encode(writer)?;
                writer.i64(*start);
            },
            SlotOutcome::Unavailable { attempts } => {
                writer.u8(2u8);
                writer.u128(*attempts);
            },
        }
        Ok(())
    }
}

impl Decode for SlotOutcome {
    fn decode(reader: &mut Reader) -> (out: Result<SlotOutcome, StorageError>) {
        reveal(<SlotOutcomeView as Wire>::parse);
        let tag = reader.u8()?;
        if tag == 1u8 {
            let promise_id = PromiseId::decode(reader)?;
            let start = reader.i64()?;
            Ok(SlotOutcome::Held { promise_id, start })
        } else if tag == 2u8 {
            let attempts = reader.u128()?;
            if attempts == 0 {
                return Err(StorageError::CorruptRecord("zero slot attempts"));
            }
            Ok(SlotOutcome::Unavailable { attempts })
        } else {
            Err(StorageError::InvalidTag { kind: "slot outcome", tag })
        }
    }
}

/// The model of a [`ReplaceOutcome`].
#[verifier::ext_equal]
pub enum ReplaceOutcomeView {
    /// The promise was replaced.
    Replaced {
        /// The promise.
        promise_id: PromiseId,
        /// Version of the promise after the change.
        version: u64,
    },
    /// The new claims cannot be granted.
    Unavailable {
        /// Why not.
        conflicts: Seq<AvailabilityConflictView>,
    },
}

/// What an attempt to replace a promise led to.
#[derive(Debug, Clone, PartialEq, Eq)]
pub enum ReplaceOutcome {
    /// The promise was replaced.
    Replaced {
        /// The promise.
        promise_id: PromiseId,
        /// Version of the promise after the change.
        version: Version,
    },
    /// The new claims cannot be granted.
    Unavailable {
        /// Why not.
        conflicts: Vec<AvailabilityConflict>,
    },
}

impl View for ReplaceOutcome {
    type V = ReplaceOutcomeView;

    open spec fn view(&self) -> ReplaceOutcomeView {
        match self {
            ReplaceOutcome::Replaced { promise_id, version } => ReplaceOutcomeView::Replaced {
                promise_id: *promise_id,
                version: version@,
            },
            ReplaceOutcome::Unavailable { conflicts } => ReplaceOutcomeView::Unavailable {
                conflicts: model::views(conflicts@),
            },
        }
    }
}

impl Wire for ReplaceOutcomeView {
    open spec fn valid(self) -> bool {
        match self {
            ReplaceOutcomeView::Replaced { promise_id, version } => {
                &&& promise_id.valid()
                &&& version != 0
            },
            ReplaceOutcomeView::Unavailable { conflicts } => {
                &&& model::all_valid(conflicts)
                &&& conflicts.len() > 0
            },
        }
    }

    open spec fn fits(self, limits: Limits) -> bool {
        match self {
            ReplaceOutcomeView::Replaced { promise_id, version } => {
                promise_id.fits(limits)
            },
            ReplaceOutcomeView::Unavailable { conflicts } => {
                model::list_fits(conflicts, limits)
            },
        }
    }

    #[verifier::opaque]
    open spec fn enc(self) -> Enc {
        match self {
            ReplaceOutcomeView::Replaced { promise_id, version } => 1u8.enc().followed_by(
                promise_id.enc(),
            ).followed_by(
                version.enc(),
            ),
            ReplaceOutcomeView::Unavailable { conflicts } => 2u8.enc().followed_by(
                model::enc_list("availability conflicts", conflicts),
            ),
        }
    }

    #[verifier::opaque]
    open spec fn parse(data: Seq<u8>, pos: int, limits: Limits) -> Parsed<ReplaceOutcomeView> {
        match u8::parse(data, pos, limits) {
            Err(error) => Err(error),
            Ok((tag, p0)) => {
                if tag == 1u8 {
                    match PromiseId::parse(data, p0, limits) {
                        Err(error) => Err(error),
                        Ok((promise_id, p1)) => match model::parse_version(
                            data,
                            p1,
                            "zero promise version",
                        ) {
                            Err(error) => Err(error),
                            Ok((version, stop)) => Ok(
                                (ReplaceOutcomeView::Replaced { promise_id, version }, stop),
                            ),
                        },
                    }
                } else if tag == 2u8 {
                    match model::parse_list::<AvailabilityConflictView>(
                        data,
                        p0,
                        limits,
                        "availability conflicts",
                    ) {
                        Err(error) => Err(error),
                        Ok((conflicts, stop)) => if conflicts.len() == 0 {
                            Err(StorageError::CorruptRecord("empty unavailable conflict list"))
                        } else {
                            Ok((ReplaceOutcomeView::Unavailable { conflicts }, stop))
                        },
                    }
                } else {
                    Err(StorageError::InvalidTag { kind: "replace outcome", tag })
                }
            },
        }
    }

    proof fn lemma_parse(data: Seq<u8>, pos: int, limits: Limits, cut: int) {
        broadcast use {model::lemma_at_add, model::lemma_le_len};

        reveal(<ReplaceOutcomeView as Wire>::enc);
        reveal(<ReplaceOutcomeView as Wire>::parse);
        u8::lemma_parse(data, pos, limits, cut);
        if let Ok((tag, p0)) = u8::parse(data, pos, limits) {
            if tag == 1u8 {
                PromiseId::lemma_parse(data, p0, limits, cut);
                if let Ok((_, p1)) = PromiseId::parse(data, p0, limits) {
                    model::lemma_parse_version(data, p1, "zero promise version", cut);
                }
            } else if tag == 2u8 {
                model::lemma_parse_list::<AvailabilityConflictView>(
                    data,
                    p0,
                    limits,
                    "availability conflicts",
                    cut,
                );
            }
        }
    }

    proof fn lemma_enc(self, data: Seq<u8>, pos: int, limits: Limits) {
        broadcast use {model::lemma_at_add, model::lemma_le_len};

        reveal(<ReplaceOutcomeView as Wire>::enc);
        reveal(<ReplaceOutcomeView as Wire>::parse);
        let p0 = pos + 1;
        match self {
            ReplaceOutcomeView::Replaced { promise_id, version } => {
                u8::lemma_enc(1u8, data, pos, limits);
                promise_id.lemma_enc(data, p0, limits);
                let p1 = p0 + promise_id.enc().bytes.len();
                model::lemma_version_enc(version, data, p1, "zero promise version");
            },
            ReplaceOutcomeView::Unavailable { conflicts } => {
                u8::lemma_enc(2u8, data, pos, limits);
                model::lemma_list_enc(conflicts, data, p0, limits, "availability conflicts");
            },
        }
    }

    proof fn lemma_fits(self, limits: Limits) {
        reveal(<ReplaceOutcomeView as Wire>::enc);
        match self {
            ReplaceOutcomeView::Replaced { promise_id, version } => {
                promise_id.lemma_fits(limits);
            },
            ReplaceOutcomeView::Unavailable { conflicts } => {
                model::lemma_list_fits(conflicts, limits, "availability conflicts");
            },
        }
    }
}

impl Encode for ReplaceOutcome {
    fn encode(&self, writer: &mut Writer) -> (out: Result<(), StorageError>) {
        broadcast use crate::wire::writer::lemma_written_chain;

        reveal(<ReplaceOutcomeView as Wire>::enc);
        match self {
            ReplaceOutcome::Replaced { promise_id, version } => {
                writer.u8(1u8);
                promise_id.encode(writer)?;
                writer.u64(version.get());
            },
            ReplaceOutcome::Unavailable { conflicts } => {
                writer.u8(2u8);
                writer.list("availability conflicts", conflicts.as_slice())?;
            },
        }
        Ok(())
    }
}

impl Decode for ReplaceOutcome {
    fn decode(reader: &mut Reader) -> (out: Result<ReplaceOutcome, StorageError>) {
        reveal(<ReplaceOutcomeView as Wire>::parse);
        let tag = reader.u8()?;
        if tag == 1u8 {
            let promise_id = PromiseId::decode(reader)?;
            let version = Version::read(reader, "zero promise version")?;
            Ok(ReplaceOutcome::Replaced { promise_id, version })
        } else if tag == 2u8 {
            let conflicts = reader.list::<AvailabilityConflict>("availability conflicts")?;
            if conflicts.len() == 0 {
                return Err(StorageError::CorruptRecord("empty unavailable conflict list"));
            }
            Ok(ReplaceOutcome::Unavailable { conflicts })
        } else {
            Err(StorageError::InvalidTag { kind: "replace outcome", tag })
        }
    }
}

/// The model of a [`CommandResult`].
#[verifier::ext_equal]
pub enum CommandResultView {
    /// The pool was created.
    ResourcePoolCreated {
        /// The pool.
        resource_pool_id: ResourcePoolId,
    },
    /// The capacity was revised.
    CapacityRevised(CapacityRevisionOutcomeView),
    /// The hold was decided.
    HoldCompleted(HoldOutcomeView),
    /// The choice was decided.
    ChoiceCompleted(ChoiceOutcomeView),
    /// The slot search was decided.
    SlotCompleted(SlotOutcomeView),
    /// The promise was committed.
    PromiseCommitted {
        /// The promise.
        promise_id: PromiseId,
        /// Version of the promise after the change.
        version: u64,
    },
    /// The promise was released.
    PromiseReleased {
        /// The promise.
        promise_id: PromiseId,
        /// Version of the promise after the change.
        version: u64,
    },
    /// The replacement was decided.
    PromiseReplaced(ReplaceOutcomeView),
    /// Holds that had run out were expired.
    ExpirationsProcessed {
        /// How many holds were expired.
        expired_count: usize,
    },
}

/// What a successful command returns.
#[derive(Debug, Clone, PartialEq, Eq)]
pub enum CommandResult {
    /// The pool was created.
    ResourcePoolCreated {
        /// The pool.
        resource_pool_id: ResourcePoolId,
    },
    /// The capacity was revised.
    CapacityRevised(CapacityRevisionOutcome),
    /// The hold was decided.
    HoldCompleted(HoldOutcome),
    /// The choice was decided.
    ChoiceCompleted(ChoiceOutcome),
    /// The slot search was decided.
    SlotCompleted(SlotOutcome),
    /// The promise was committed.
    PromiseCommitted {
        /// The promise.
        promise_id: PromiseId,
        /// Version of the promise after the change.
        version: Version,
    },
    /// The promise was released.
    PromiseReleased {
        /// The promise.
        promise_id: PromiseId,
        /// Version of the promise after the change.
        version: Version,
    },
    /// The replacement was decided.
    PromiseReplaced(ReplaceOutcome),
    /// Holds that had run out were expired.
    ExpirationsProcessed {
        /// How many holds were expired.
        expired_count: usize,
    },
}

impl View for CommandResult {
    type V = CommandResultView;

    open spec fn view(&self) -> CommandResultView {
        match self {
            CommandResult::ResourcePoolCreated {
                resource_pool_id,
            } => CommandResultView::ResourcePoolCreated {
                resource_pool_id: *resource_pool_id,
            },
            CommandResult::CapacityRevised(outcome) => CommandResultView::CapacityRevised(outcome@),
            CommandResult::HoldCompleted(outcome) => CommandResultView::HoldCompleted(outcome@),
            CommandResult::ChoiceCompleted(outcome) => CommandResultView::ChoiceCompleted(outcome@),
            CommandResult::SlotCompleted(outcome) => CommandResultView::SlotCompleted(outcome@),
            CommandResult::PromiseCommitted {
                promise_id,
                version,
            } => CommandResultView::PromiseCommitted {
                promise_id: *promise_id,
                version: version@,
            },
            CommandResult::PromiseReleased {
                promise_id,
                version,
            } => CommandResultView::PromiseReleased {
                promise_id: *promise_id,
                version: version@,
            },
            CommandResult::PromiseReplaced(outcome) => CommandResultView::PromiseReplaced(outcome@),
            CommandResult::ExpirationsProcessed {
                expired_count,
            } => CommandResultView::ExpirationsProcessed {
                expired_count: *expired_count,
            },
        }
    }
}

/// What the lemma on decoding promises of [`CommandResultView`].
spec fn command_result_sound(data: Seq<u8>, pos: int, limits: Limits, cut: int) -> bool {
    CommandResultView::parse(data, pos, limits) matches Ok((value, end)) ==> {
        &&& pos <= end <= data.len()
        &&& value.valid()
        &&& value.fits(limits)
        &&& value.enc().ok()
        &&& end == pos + value.enc().bytes.len()
        &&& model::at(data, pos, value.enc().bytes)
        &&& pos <= cut <= data.len() ==> CommandResultView::parse(data.take(cut), pos, limits)
            == model::cut_off((value, end), cut)
    }
}

proof fn lemma_parse_resource_pool_created(data: Seq<u8>, pos: int, limits: Limits, cut: int)
    requires
        0 <= pos <= data.len(),
        u8::parse(data, pos, limits) matches Ok((tag, _)) && tag == 1u8,
    ensures
        command_result_sound(data, pos, limits, cut),
{
    broadcast use {model::lemma_at_add, model::lemma_le_len};

    reveal(<CommandResultView as Wire>::enc);
    reveal(<CommandResultView as Wire>::parse);
    u8::lemma_parse(data, pos, limits, cut);
    let p0 = pos + 1;
    ResourcePoolId::lemma_parse(data, p0, limits, cut);
}

proof fn lemma_parse_capacity_revised(data: Seq<u8>, pos: int, limits: Limits, cut: int)
    requires
        0 <= pos <= data.len(),
        u8::parse(data, pos, limits) matches Ok((tag, _)) && tag == 2u8,
    ensures
        command_result_sound(data, pos, limits, cut),
{
    broadcast use {model::lemma_at_add, model::lemma_le_len};

    reveal(<CommandResultView as Wire>::enc);
    reveal(<CommandResultView as Wire>::parse);
    u8::lemma_parse(data, pos, limits, cut);
    let p0 = pos + 1;
    CapacityRevisionOutcomeView::lemma_parse(data, p0, limits, cut);
}

proof fn lemma_parse_hold_completed(data: Seq<u8>, pos: int, limits: Limits, cut: int)
    requires
        0 <= pos <= data.len(),
        u8::parse(data, pos, limits) matches Ok((tag, _)) && tag == 3u8,
    ensures
        command_result_sound(data, pos, limits, cut),
{
    broadcast use {model::lemma_at_add, model::lemma_le_len};

    reveal(<CommandResultView as Wire>::enc);
    reveal(<CommandResultView as Wire>::parse);
    u8::lemma_parse(data, pos, limits, cut);
    let p0 = pos + 1;
    HoldOutcomeView::lemma_parse(data, p0, limits, cut);
}

proof fn lemma_parse_choice_completed(data: Seq<u8>, pos: int, limits: Limits, cut: int)
    requires
        0 <= pos <= data.len(),
        u8::parse(data, pos, limits) matches Ok((tag, _)) && tag == 4u8,
    ensures
        command_result_sound(data, pos, limits, cut),
{
    broadcast use {model::lemma_at_add, model::lemma_le_len};

    reveal(<CommandResultView as Wire>::enc);
    reveal(<CommandResultView as Wire>::parse);
    u8::lemma_parse(data, pos, limits, cut);
    let p0 = pos + 1;
    ChoiceOutcomeView::lemma_parse(data, p0, limits, cut);
}

proof fn lemma_parse_slot_completed(data: Seq<u8>, pos: int, limits: Limits, cut: int)
    requires
        0 <= pos <= data.len(),
        u8::parse(data, pos, limits) matches Ok((tag, _)) && tag == 5u8,
    ensures
        command_result_sound(data, pos, limits, cut),
{
    broadcast use {model::lemma_at_add, model::lemma_le_len};

    reveal(<CommandResultView as Wire>::enc);
    reveal(<CommandResultView as Wire>::parse);
    u8::lemma_parse(data, pos, limits, cut);
    let p0 = pos + 1;
    SlotOutcomeView::lemma_parse(data, p0, limits, cut);
}

proof fn lemma_parse_promise_committed(data: Seq<u8>, pos: int, limits: Limits, cut: int)
    requires
        0 <= pos <= data.len(),
        u8::parse(data, pos, limits) matches Ok((tag, _)) && tag == 6u8,
    ensures
        command_result_sound(data, pos, limits, cut),
{
    broadcast use {model::lemma_at_add, model::lemma_le_len};

    reveal(<CommandResultView as Wire>::enc);
    reveal(<CommandResultView as Wire>::parse);
    u8::lemma_parse(data, pos, limits, cut);
    let p0 = pos + 1;
    PromiseId::lemma_parse(data, p0, limits, cut);
    if let Ok((_, p1)) = PromiseId::parse(data, p0, limits) {
        model::lemma_parse_version(data, p1, "zero promise version", cut);
    }
}

proof fn lemma_parse_promise_released(data: Seq<u8>, pos: int, limits: Limits, cut: int)
    requires
        0 <= pos <= data.len(),
        u8::parse(data, pos, limits) matches Ok((tag, _)) && tag == 7u8,
    ensures
        command_result_sound(data, pos, limits, cut),
{
    broadcast use {model::lemma_at_add, model::lemma_le_len};

    reveal(<CommandResultView as Wire>::enc);
    reveal(<CommandResultView as Wire>::parse);
    u8::lemma_parse(data, pos, limits, cut);
    let p0 = pos + 1;
    PromiseId::lemma_parse(data, p0, limits, cut);
    if let Ok((_, p1)) = PromiseId::parse(data, p0, limits) {
        model::lemma_parse_version(data, p1, "zero promise version", cut);
    }
}

proof fn lemma_parse_promise_replaced(data: Seq<u8>, pos: int, limits: Limits, cut: int)
    requires
        0 <= pos <= data.len(),
        u8::parse(data, pos, limits) matches Ok((tag, _)) && tag == 8u8,
    ensures
        command_result_sound(data, pos, limits, cut),
{
    broadcast use {model::lemma_at_add, model::lemma_le_len};

    reveal(<CommandResultView as Wire>::enc);
    reveal(<CommandResultView as Wire>::parse);
    u8::lemma_parse(data, pos, limits, cut);
    let p0 = pos + 1;
    ReplaceOutcomeView::lemma_parse(data, p0, limits, cut);
}

proof fn lemma_parse_expirations_processed(data: Seq<u8>, pos: int, limits: Limits, cut: int)
    requires
        0 <= pos <= data.len(),
        u8::parse(data, pos, limits) matches Ok((tag, _)) && tag == 9u8,
    ensures
        command_result_sound(data, pos, limits, cut),
{
    broadcast use {model::lemma_at_add, model::lemma_le_len};

    reveal(<CommandResultView as Wire>::enc);
    reveal(<CommandResultView as Wire>::parse);
    u8::lemma_parse(data, pos, limits, cut);
    let p0 = pos + 1;
    lemma_parse_size(data, p0, limits, "expired count", cut);
}

impl Wire for CommandResultView {
    open spec fn valid(self) -> bool {
        match self {
            CommandResultView::ResourcePoolCreated { resource_pool_id } => {
                resource_pool_id.valid()
            },
            CommandResultView::CapacityRevised(outcome) => {
                outcome.valid()
            },
            CommandResultView::HoldCompleted(outcome) => {
                outcome.valid()
            },
            CommandResultView::ChoiceCompleted(outcome) => {
                outcome.valid()
            },
            CommandResultView::SlotCompleted(outcome) => {
                outcome.valid()
            },
            CommandResultView::PromiseCommitted { promise_id, version } => {
                &&& promise_id.valid()
                &&& version != 0
            },
            CommandResultView::PromiseReleased { promise_id, version } => {
                &&& promise_id.valid()
                &&& version != 0
            },
            CommandResultView::PromiseReplaced(outcome) => {
                outcome.valid()
            },
            CommandResultView::ExpirationsProcessed { expired_count } => {
                true
            },
        }
    }

    open spec fn fits(self, limits: Limits) -> bool {
        match self {
            CommandResultView::ResourcePoolCreated { resource_pool_id } => {
                resource_pool_id.fits(limits)
            },
            CommandResultView::CapacityRevised(outcome) => {
                outcome.fits(limits)
            },
            CommandResultView::HoldCompleted(outcome) => {
                outcome.fits(limits)
            },
            CommandResultView::ChoiceCompleted(outcome) => {
                outcome.fits(limits)
            },
            CommandResultView::SlotCompleted(outcome) => {
                outcome.fits(limits)
            },
            CommandResultView::PromiseCommitted { promise_id, version } => {
                promise_id.fits(limits)
            },
            CommandResultView::PromiseReleased { promise_id, version } => {
                promise_id.fits(limits)
            },
            CommandResultView::PromiseReplaced(outcome) => {
                outcome.fits(limits)
            },
            CommandResultView::ExpirationsProcessed { expired_count } => {
                true
            },
        }
    }

    #[verifier::opaque]
    open spec fn enc(self) -> Enc {
        match self {
            CommandResultView::ResourcePoolCreated { resource_pool_id } => 1u8.enc().followed_by(
                resource_pool_id.enc(),
            ),
            CommandResultView::CapacityRevised(outcome) => 2u8.enc().followed_by(
                outcome.enc(),
            ),
            CommandResultView::HoldCompleted(outcome) => 3u8.enc().followed_by(
                outcome.enc(),
            ),
            CommandResultView::ChoiceCompleted(outcome) => 4u8.enc().followed_by(
                outcome.enc(),
            ),
            CommandResultView::SlotCompleted(outcome) => 5u8.enc().followed_by(
                outcome.enc(),
            ),
            CommandResultView::PromiseCommitted { promise_id, version } => 6u8.enc().followed_by(
                promise_id.enc(),
            ).followed_by(
                version.enc(),
            ),
            CommandResultView::PromiseReleased { promise_id, version } => 7u8.enc().followed_by(
                promise_id.enc(),
            ).followed_by(
                version.enc(),
            ),
            CommandResultView::PromiseReplaced(outcome) => 8u8.enc().followed_by(
                outcome.enc(),
            ),
            CommandResultView::ExpirationsProcessed { expired_count } => 9u8.enc().followed_by(
                (expired_count as u64).enc(),
            ),
        }
    }

    #[verifier::opaque]
    open spec fn parse(data: Seq<u8>, pos: int, limits: Limits) -> Parsed<CommandResultView> {
        match u8::parse(data, pos, limits) {
            Err(error) => Err(error),
            Ok((tag, p0)) => {
                if tag == 1u8 {
                    match ResourcePoolId::parse(data, p0, limits) {
                        Err(error) => Err(error),
                        Ok((resource_pool_id, stop)) => Ok(
                            (CommandResultView::ResourcePoolCreated { resource_pool_id }, stop),
                        ),
                    }
                } else if tag == 2u8 {
                    match CapacityRevisionOutcomeView::parse(data, p0, limits) {
                        Err(error) => Err(error),
                        Ok((outcome, stop)) => Ok(
                            (CommandResultView::CapacityRevised(outcome), stop),
                        ),
                    }
                } else if tag == 3u8 {
                    match HoldOutcomeView::parse(data, p0, limits) {
                        Err(error) => Err(error),
                        Ok((outcome, stop)) => Ok(
                            (CommandResultView::HoldCompleted(outcome), stop),
                        ),
                    }
                } else if tag == 4u8 {
                    match ChoiceOutcomeView::parse(data, p0, limits) {
                        Err(error) => Err(error),
                        Ok((outcome, stop)) => Ok(
                            (CommandResultView::ChoiceCompleted(outcome), stop),
                        ),
                    }
                } else if tag == 5u8 {
                    match SlotOutcomeView::parse(data, p0, limits) {
                        Err(error) => Err(error),
                        Ok((outcome, stop)) => Ok(
                            (CommandResultView::SlotCompleted(outcome), stop),
                        ),
                    }
                } else if tag == 6u8 {
                    match PromiseId::parse(data, p0, limits) {
                        Err(error) => Err(error),
                        Ok((promise_id, p1)) => match model::parse_version(
                            data,
                            p1,
                            "zero promise version",
                        ) {
                            Err(error) => Err(error),
                            Ok((version, stop)) => Ok(
                                (CommandResultView::PromiseCommitted { promise_id, version }, stop),
                            ),
                        },
                    }
                } else if tag == 7u8 {
                    match PromiseId::parse(data, p0, limits) {
                        Err(error) => Err(error),
                        Ok((promise_id, p1)) => match model::parse_version(
                            data,
                            p1,
                            "zero promise version",
                        ) {
                            Err(error) => Err(error),
                            Ok((version, stop)) => Ok(
                                (CommandResultView::PromiseReleased { promise_id, version }, stop),
                            ),
                        },
                    }
                } else if tag == 8u8 {
                    match ReplaceOutcomeView::parse(data, p0, limits) {
                        Err(error) => Err(error),
                        Ok((outcome, stop)) => Ok(
                            (CommandResultView::PromiseReplaced(outcome), stop),
                        ),
                    }
                } else if tag == 9u8 {
                    match parse_size(data, p0, limits, "expired count") {
                        Err(error) => Err(error),
                        Ok((expired_count, stop)) => Ok(
                            (CommandResultView::ExpirationsProcessed { expired_count }, stop),
                        ),
                    }
                } else {
                    Err(StorageError::InvalidTag { kind: "command result", tag })
                }
            },
        }
    }

    proof fn lemma_parse(data: Seq<u8>, pos: int, limits: Limits, cut: int) {
        if let Ok((tag, p0)) = u8::parse(data, pos, limits) {
            if tag == 1u8 {
                lemma_parse_resource_pool_created(data, pos, limits, cut);
            } else if tag == 2u8 {
                lemma_parse_capacity_revised(data, pos, limits, cut);
            } else if tag == 3u8 {
                lemma_parse_hold_completed(data, pos, limits, cut);
            } else if tag == 4u8 {
                lemma_parse_choice_completed(data, pos, limits, cut);
            } else if tag == 5u8 {
                lemma_parse_slot_completed(data, pos, limits, cut);
            } else if tag == 6u8 {
                lemma_parse_promise_committed(data, pos, limits, cut);
            } else if tag == 7u8 {
                lemma_parse_promise_released(data, pos, limits, cut);
            } else if tag == 8u8 {
                lemma_parse_promise_replaced(data, pos, limits, cut);
            } else if tag == 9u8 {
                lemma_parse_expirations_processed(data, pos, limits, cut);
            } else {
                reveal(<CommandResultView as Wire>::parse);
            }
        } else {
            reveal(<CommandResultView as Wire>::parse);
        }
    }

    proof fn lemma_enc(self, data: Seq<u8>, pos: int, limits: Limits) {
        broadcast use {model::lemma_at_add, model::lemma_le_len};

        reveal(<CommandResultView as Wire>::enc);
        reveal(<CommandResultView as Wire>::parse);
        let p0 = pos + 1;
        match self {
            CommandResultView::ResourcePoolCreated { resource_pool_id } => {
                u8::lemma_enc(1u8, data, pos, limits);
                resource_pool_id.lemma_enc(data, p0, limits);
            },
            CommandResultView::CapacityRevised(outcome) => {
                u8::lemma_enc(2u8, data, pos, limits);
                outcome.lemma_enc(data, p0, limits);
            },
            CommandResultView::HoldCompleted(outcome) => {
                u8::lemma_enc(3u8, data, pos, limits);
                outcome.lemma_enc(data, p0, limits);
            },
            CommandResultView::ChoiceCompleted(outcome) => {
                u8::lemma_enc(4u8, data, pos, limits);
                outcome.lemma_enc(data, p0, limits);
            },
            CommandResultView::SlotCompleted(outcome) => {
                u8::lemma_enc(5u8, data, pos, limits);
                outcome.lemma_enc(data, p0, limits);
            },
            CommandResultView::PromiseCommitted { promise_id, version } => {
                u8::lemma_enc(6u8, data, pos, limits);
                promise_id.lemma_enc(data, p0, limits);
                let p1 = p0 + promise_id.enc().bytes.len();
                model::lemma_version_enc(version, data, p1, "zero promise version");
            },
            CommandResultView::PromiseReleased { promise_id, version } => {
                u8::lemma_enc(7u8, data, pos, limits);
                promise_id.lemma_enc(data, p0, limits);
                let p1 = p0 + promise_id.enc().bytes.len();
                model::lemma_version_enc(version, data, p1, "zero promise version");
            },
            CommandResultView::PromiseReplaced(outcome) => {
                u8::lemma_enc(8u8, data, pos, limits);
                outcome.lemma_enc(data, p0, limits);
            },
            CommandResultView::ExpirationsProcessed { expired_count } => {
                u8::lemma_enc(9u8, data, pos, limits);
                u64::lemma_enc(expired_count as u64, data, p0, limits);
            },
        }
    }

    proof fn lemma_fits(self, limits: Limits) {
        reveal(<CommandResultView as Wire>::enc);
        match self {
            CommandResultView::ResourcePoolCreated { resource_pool_id } => {
                resource_pool_id.lemma_fits(limits);
            },
            CommandResultView::CapacityRevised(outcome) => {
                outcome.lemma_fits(limits);
            },
            CommandResultView::HoldCompleted(outcome) => {
                outcome.lemma_fits(limits);
            },
            CommandResultView::ChoiceCompleted(outcome) => {
                outcome.lemma_fits(limits);
            },
            CommandResultView::SlotCompleted(outcome) => {
                outcome.lemma_fits(limits);
            },
            CommandResultView::PromiseCommitted { promise_id, version } => {
                promise_id.lemma_fits(limits);
            },
            CommandResultView::PromiseReleased { promise_id, version } => {
                promise_id.lemma_fits(limits);
            },
            CommandResultView::PromiseReplaced(outcome) => {
                outcome.lemma_fits(limits);
            },
            CommandResultView::ExpirationsProcessed { expired_count } => {},
        }
    }
}

impl Encode for CommandResult {
    fn encode(&self, writer: &mut Writer) -> (out: Result<(), StorageError>) {
        broadcast use crate::wire::writer::lemma_written_chain;

        reveal(<CommandResultView as Wire>::enc);
        match self {
            CommandResult::ResourcePoolCreated { resource_pool_id } => {
                writer.u8(1u8);
                resource_pool_id.encode(writer)?;
            },
            CommandResult::CapacityRevised(outcome) => {
                writer.u8(2u8);
                outcome.encode(writer)?;
            },
            CommandResult::HoldCompleted(outcome) => {
                writer.u8(3u8);
                outcome.encode(writer)?;
            },
            CommandResult::ChoiceCompleted(outcome) => {
                writer.u8(4u8);
                outcome.encode(writer)?;
            },
            CommandResult::SlotCompleted(outcome) => {
                writer.u8(5u8);
                outcome.encode(writer)?;
            },
            CommandResult::PromiseCommitted { promise_id, version } => {
                writer.u8(6u8);
                promise_id.encode(writer)?;
                writer.u64(version.get());
            },
            CommandResult::PromiseReleased { promise_id, version } => {
                writer.u8(7u8);
                promise_id.encode(writer)?;
                writer.u64(version.get());
            },
            CommandResult::PromiseReplaced(outcome) => {
                writer.u8(8u8);
                outcome.encode(writer)?;
            },
            CommandResult::ExpirationsProcessed { expired_count } => {
                writer.u8(9u8);
                writer.u64(*expired_count as u64);
            },
        }
        Ok(())
    }
}

impl Decode for CommandResult {
    fn decode(reader: &mut Reader) -> (out: Result<CommandResult, StorageError>) {
        reveal(<CommandResultView as Wire>::parse);
        let tag = reader.u8()?;
        if tag == 1u8 {
            let resource_pool_id = ResourcePoolId::decode(reader)?;
            Ok(CommandResult::ResourcePoolCreated { resource_pool_id })
        } else if tag == 2u8 {
            let outcome = CapacityRevisionOutcome::decode(reader)?;
            Ok(CommandResult::CapacityRevised(outcome))
        } else if tag == 3u8 {
            let outcome = HoldOutcome::decode(reader)?;
            Ok(CommandResult::HoldCompleted(outcome))
        } else if tag == 4u8 {
            let outcome = ChoiceOutcome::decode(reader)?;
            Ok(CommandResult::ChoiceCompleted(outcome))
        } else if tag == 5u8 {
            let outcome = SlotOutcome::decode(reader)?;
            Ok(CommandResult::SlotCompleted(outcome))
        } else if tag == 6u8 {
            let promise_id = PromiseId::decode(reader)?;
            let version = Version::read(reader, "zero promise version")?;
            Ok(CommandResult::PromiseCommitted { promise_id, version })
        } else if tag == 7u8 {
            let promise_id = PromiseId::decode(reader)?;
            let version = Version::read(reader, "zero promise version")?;
            Ok(CommandResult::PromiseReleased { promise_id, version })
        } else if tag == 8u8 {
            let outcome = ReplaceOutcome::decode(reader)?;
            Ok(CommandResult::PromiseReplaced(outcome))
        } else if tag == 9u8 {
            let expired_count = read_size(reader, "expired count")?;
            Ok(CommandResult::ExpirationsProcessed { expired_count })
        } else {
            Err(StorageError::InvalidTag { kind: "command result", tag })
        }
    }
}

/// What a command returned: a result, or the domain rule that it violated.
pub type CommandResponse = Result<CommandResult, DomainError>;

/// The model of a [`CommandResponse`].
pub open spec fn response_view(
    response: CommandResponse,
) -> Result<CommandResultView, DomainError> {
    match response {
        Ok(result) => Ok(result@),
        Err(error) => Err(error),
    }
}

impl Wire for Result<CommandResultView, DomainError> {
    open spec fn valid(self) -> bool {
        self matches Ok(result) ==> result.valid()
    }

    open spec fn fits(self, limits: Limits) -> bool {
        self matches Ok(result) ==> result.fits(limits)
    }

    #[verifier::opaque]
    open spec fn enc(self) -> Enc {
        match self {
            Ok(result) => 1u8.enc().followed_by(result.enc()),
            Err(error) => 2u8.enc().followed_by(error.enc()),
        }
    }

    #[verifier::opaque]
    open spec fn parse(
        data: Seq<u8>,
        pos: int,
        limits: Limits,
    ) -> Parsed<Result<CommandResultView, DomainError>> {
        match u8::parse(data, pos, limits) {
            Err(error) => Err(error),
            Ok((tag, p0)) => if tag == 1 {
                match CommandResultView::parse(data, p0, limits) {
                    Err(error) => Err(error),
                    Ok((result, stop)) => Ok((Ok(result), stop)),
                }
            } else if tag == 2 {
                match DomainError::parse(data, p0, limits) {
                    Err(error) => Err(error),
                    Ok((error, stop)) => Ok((Err(error), stop)),
                }
            } else {
                Err(StorageError::InvalidTag { kind: "command response", tag })
            },
        }
    }

    proof fn lemma_parse(data: Seq<u8>, pos: int, limits: Limits, cut: int) {
        broadcast use {model::lemma_at_add, model::lemma_le_len};

        reveal(<Result<CommandResultView, DomainError> as Wire>::enc);
        reveal(<Result<CommandResultView, DomainError> as Wire>::parse);
        u8::lemma_parse(data, pos, limits, cut);
        if let Ok((tag, p0)) = u8::parse(data, pos, limits) {
            if tag == 1 {
                CommandResultView::lemma_parse(data, p0, limits, cut);
            } else if tag == 2 {
                DomainError::lemma_parse(data, p0, limits, cut);
            }
        }
    }

    proof fn lemma_enc(self, data: Seq<u8>, pos: int, limits: Limits) {
        broadcast use {model::lemma_at_add, model::lemma_le_len};

        reveal(<Result<CommandResultView, DomainError> as Wire>::enc);
        reveal(<Result<CommandResultView, DomainError> as Wire>::parse);
        match self {
            Ok(result) => {
                u8::lemma_enc(1u8, data, pos, limits);
                result.lemma_enc(data, pos + 1, limits);
            },
            Err(error) => {
                u8::lemma_enc(2u8, data, pos, limits);
                error.lemma_enc(data, pos + 1, limits);
            },
        }
    }

    proof fn lemma_fits(self, limits: Limits) {
        reveal(<Result<CommandResultView, DomainError> as Wire>::enc);
        if let Ok(result) = self {
            result.lemma_fits(limits);
        }
    }
}

/// Appends a response.
pub fn write_response(response: &CommandResponse, writer: &mut Writer) -> (out: Result<
    (),
    StorageError,
>)
    ensures
        crate::wire::writer::written(
            old(writer)@,
            final(writer)@,
            response_view(*response).enc(),
        ),
        out == response_view(*response).enc().status(),
{
    broadcast use crate::wire::writer::lemma_written_chain;

    reveal(<Result<CommandResultView, DomainError> as Wire>::enc);
    match response {
        Ok(result) => {
            writer.u8(1);
            result.encode(writer)
        },
        Err(error) => {
            writer.u8(2);
            error.encode(writer)
        },
    }
}

/// The model of a decoded response.
pub open spec fn response_viewed(out: Result<CommandResponse, StorageError>) -> Result<
    Result<CommandResultView, DomainError>,
    StorageError,
> {
    match out {
        Ok(response) => Ok(response_view(response)),
        Err(error) => Err(error),
    }
}

/// Decodes a response.
pub fn read_response(reader: &mut Reader) -> (out: Result<CommandResponse, StorageError>)
    requires
        old(reader).wf(),
    ensures
        old(reader).got(
            *final(reader),
            <Result<CommandResultView, DomainError> as Wire>::parse(
                old(reader).data(),
                old(reader).pos(),
                old(reader).limits(),
            ),
            response_viewed(out),
        ),
{
    reveal(<Result<CommandResultView, DomainError> as Wire>::parse);
    let tag = reader.u8()?;
    if tag == 1 {
        let result = CommandResult::decode(reader)?;
        Ok(Ok(result))
    } else if tag == 2 {
        let error = DomainError::decode(reader)?;
        Ok(Err(error))
    } else {
        Err(StorageError::InvalidTag { kind: "command response", tag })
    }
}

/// Returns whether the conflicts are numbered by their alternative.
fn is_numbered(conflicts: &[ChoiceConflict]) -> (out: bool)
    ensures
        out == numbered(model::views(conflicts@)),
{
    let ghost models = model::views(conflicts@);
    let mut i: usize = 0;
    while i < conflicts.len()
        invariant
            i <= conflicts.len(),
            models == model::views(conflicts@),
            forall|k: int| 0 <= k < i ==> (#[trigger] models[k]).alternative_index == k,
        decreases conflicts.len() - i,
    {
        assert(models[i as int] == conflicts@[i as int]@);
        if conflicts[i].alternative_index() != i {
            return false;
        }
        i += 1;
    }
    true
}

/// Returns whether a response satisfies the rules of its type: one that says that something is
/// unavailable says why.
pub fn response_is_valid(response: &CommandResponse) -> (out: bool)
    ensures
        out == response_view(*response).valid(),
{
    match response {
        Err(_) => true,
        Ok(CommandResult::ResourcePoolCreated { .. }) => true,
        Ok(CommandResult::CapacityRevised(outcome)) => {
            outcome.assure();
            true
        },
        Ok(CommandResult::HoldCompleted(HoldOutcome::Held(_))) => true,
        Ok(CommandResult::HoldCompleted(HoldOutcome::Unavailable { conflicts })) => {
            assure_all(conflicts.as_slice());
            conflicts.len() > 0
        },
        Ok(CommandResult::ChoiceCompleted(ChoiceOutcome::Held { .. })) => true,
        Ok(CommandResult::ChoiceCompleted(ChoiceOutcome::Unavailable { conflicts })) => {
            assure_all(conflicts.as_slice());
            conflicts.len() > 0 && is_numbered(conflicts.as_slice())
        },
        Ok(CommandResult::SlotCompleted(SlotOutcome::Held { .. })) => true,
        Ok(CommandResult::SlotCompleted(SlotOutcome::Unavailable { attempts })) => *attempts > 0,
        Ok(CommandResult::PromiseCommitted { version, .. }) => version.get() != 0,
        Ok(CommandResult::PromiseReleased { version, .. }) => version.get() != 0,
        Ok(CommandResult::PromiseReplaced(ReplaceOutcome::Replaced { version, .. })) => {
            version.get() != 0
        },
        Ok(CommandResult::PromiseReplaced(ReplaceOutcome::Unavailable { conflicts })) => {
            assure_all(conflicts.as_slice());
            conflicts.len() > 0
        },
        Ok(CommandResult::ExpirationsProcessed { .. }) => true,
    }
}

} // verus!

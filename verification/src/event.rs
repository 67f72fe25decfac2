//! Events that commands cause.

use crate::domain::capacity::{Interval, IntervalView};
use crate::domain::ids::{PromiseId, ResourcePoolId};
use crate::domain::promise::{SequenceNumber, Version};
use crate::error::StorageError;
use crate::wire::assured::Assured;
use crate::wire::model;
use crate::wire::model::{Enc, Keyed, Limits, Parsed, Wire};
use crate::wire::reader::{Decode, Ranked, Reader};
use crate::wire::writer::{Encode, Writer};
use vstd::prelude::*;

verus! {

/// What happened.
#[derive(Debug, Clone, Copy, PartialEq, Eq, Hash, Structural)]
pub enum EventKind {
    /// A resource pool was created.
    ResourceCreated,
    /// The capacity of a pool was revised.
    CapacityRevised,
    /// A hold was created.
    HoldCreated,
    /// A hold was committed.
    HoldCommitted,
    /// A promise was released.
    PromiseReleased,
    /// A promise was replaced.
    PromiseReplaced,
    /// A hold expired.
    HoldExpired,
    /// A deficit appeared.
    DeficitCreated,
    /// A deficit changed.
    DeficitChanged,
    /// A deficit disappeared.
    DeficitResolved,
}

/// The wire tag of an event kind.
pub open spec fn event_kind_tag(value: EventKind) -> u8 {
    match value {
        EventKind::ResourceCreated => 1,
        EventKind::CapacityRevised => 2,
        EventKind::HoldCreated => 3,
        EventKind::HoldCommitted => 4,
        EventKind::PromiseReleased => 5,
        EventKind::PromiseReplaced => 6,
        EventKind::HoldExpired => 7,
        EventKind::DeficitCreated => 8,
        EventKind::DeficitChanged => 9,
        EventKind::DeficitResolved => 10,
    }
}

/// An event kind with the given wire tag.
pub open spec fn event_kind_of_tag(tag: u8) -> Option<EventKind> {
    if tag == 1 {
        Some(EventKind::ResourceCreated)
    } else if tag == 2 {
        Some(EventKind::CapacityRevised)
    } else if tag == 3 {
        Some(EventKind::HoldCreated)
    } else if tag == 4 {
        Some(EventKind::HoldCommitted)
    } else if tag == 5 {
        Some(EventKind::PromiseReleased)
    } else if tag == 6 {
        Some(EventKind::PromiseReplaced)
    } else if tag == 7 {
        Some(EventKind::HoldExpired)
    } else if tag == 8 {
        Some(EventKind::DeficitCreated)
    } else if tag == 9 {
        Some(EventKind::DeficitChanged)
    } else if tag == 10 {
        Some(EventKind::DeficitResolved)
    } else {
        None
    }
}

/// Returns the wire tag of an event kind.
pub fn tag_of_event_kind(value: EventKind) -> (out: u8)
    ensures
        out == event_kind_tag(value),
{
    match value {
        EventKind::ResourceCreated => 1,
        EventKind::CapacityRevised => 2,
        EventKind::HoldCreated => 3,
        EventKind::HoldCommitted => 4,
        EventKind::PromiseReleased => 5,
        EventKind::PromiseReplaced => 6,
        EventKind::HoldExpired => 7,
        EventKind::DeficitCreated => 8,
        EventKind::DeficitChanged => 9,
        EventKind::DeficitResolved => 10,
    }
}

/// Returns an event kind with the given wire tag.
pub fn event_kind_from_tag(tag: u8) -> (out: Option<EventKind>)
    ensures
        out == event_kind_of_tag(tag),
{
    if tag == 1 {
        Some(EventKind::ResourceCreated)
    } else if tag == 2 {
        Some(EventKind::CapacityRevised)
    } else if tag == 3 {
        Some(EventKind::HoldCreated)
    } else if tag == 4 {
        Some(EventKind::HoldCommitted)
    } else if tag == 5 {
        Some(EventKind::PromiseReleased)
    } else if tag == 6 {
        Some(EventKind::PromiseReplaced)
    } else if tag == 7 {
        Some(EventKind::HoldExpired)
    } else if tag == 8 {
        Some(EventKind::DeficitCreated)
    } else if tag == 9 {
        Some(EventKind::DeficitChanged)
    } else if tag == 10 {
        Some(EventKind::DeficitResolved)
    } else {
        None
    }
}

impl View for EventKind {
    type V = EventKind;

    open spec fn view(&self) -> EventKind {
        *self
    }
}

impl Wire for EventKind {
    open spec fn valid(self) -> bool {
        true
    }

    open spec fn fits(self, limits: Limits) -> bool {
        true
    }

    #[verifier::opaque]
    open spec fn enc(self) -> Enc {
        event_kind_tag(self).enc()
    }

    #[verifier::opaque]
    open spec fn parse(data: Seq<u8>, pos: int, limits: Limits) -> Parsed<EventKind> {
        match u8::parse(data, pos, limits) {
            Err(error) => Err(error),
            Ok((tag, end)) => match event_kind_of_tag(tag) {
                Some(value) => Ok((value, end)),
                None => Err(StorageError::InvalidTag { kind: "event kind", tag }),
            },
        }
    }

    proof fn lemma_parse(data: Seq<u8>, pos: int, limits: Limits, cut: int) {
        reveal(<EventKind as Wire>::enc);
        reveal(<EventKind as Wire>::parse);
        u8::lemma_parse(data, pos, limits, cut);
    }

    proof fn lemma_enc(self, data: Seq<u8>, pos: int, limits: Limits) {
        reveal(<EventKind as Wire>::enc);
        reveal(<EventKind as Wire>::parse);
        u8::lemma_enc(event_kind_tag(self), data, pos, limits);
    }

    proof fn lemma_fits(self, limits: Limits) {
    }
}

impl Encode for EventKind {
    fn encode(&self, writer: &mut Writer) -> (out: Result<(), StorageError>) {
        reveal(<EventKind as Wire>::enc);
        writer.u8(tag_of_event_kind(*self));
        Ok(())
    }
}

impl Decode for EventKind {
    fn decode(reader: &mut Reader) -> (out: Result<EventKind, StorageError>) {
        reveal(<EventKind as Wire>::parse);
        let tag = reader.u8()?;
        match event_kind_from_tag(tag) {
            Some(value) => Ok(value),
            None => Err(StorageError::InvalidTag { kind: "event kind", tag }),
        }
    }
}

/// The model of an [`EventData`].
#[verifier::ext_equal]
pub enum EventDataView {
    /// The event is about a resource pool.
    ResourcePool {
        /// The pool.
        resource_pool_id: ResourcePoolId,
    },
    /// The event is about a promise.
    Promise {
        /// The promise.
        promise_id: PromiseId,
        /// Version of the promise after the event.
        version: u64,
    },
    /// The event is about a deficit.
    Deficit {
        /// The pool.
        resource_pool_id: ResourcePoolId,
        /// When capacity is missing.
        interval: IntervalView,
        /// How much is missing.
        quantity: u64,
        /// Promises that are affected, in ascending order.
        affected_promise_ids: Seq<PromiseId>,
    },
}

/// What an event is about.
#[derive(Debug, PartialEq, Eq)]
pub enum EventData {
    /// The event is about a resource pool.
    ResourcePool {
        /// The pool.
        resource_pool_id: ResourcePoolId,
    },
    /// The event is about a promise.
    Promise {
        /// The promise.
        promise_id: PromiseId,
        /// Version of the promise after the event.
        version: Version,
    },
    /// The event is about a deficit.
    Deficit {
        /// The pool.
        resource_pool_id: ResourcePoolId,
        /// When capacity is missing.
        interval: Interval,
        /// How much is missing.
        quantity: u64,
        /// Promises that are affected, in ascending order.
        affected_promise_ids: Vec<PromiseId>,
    },
}

impl View for EventData {
    type V = EventDataView;

    open spec fn view(&self) -> EventDataView {
        match self {
            EventData::ResourcePool { resource_pool_id } => EventDataView::ResourcePool {
                resource_pool_id: *resource_pool_id,
            },
            EventData::Promise { promise_id, version } => EventDataView::Promise {
                promise_id: *promise_id,
                version: version@,
            },
            EventData::Deficit {
                resource_pool_id,
                interval,
                quantity,
                affected_promise_ids,
            } => EventDataView::Deficit {
                resource_pool_id: *resource_pool_id,
                interval: interval@,
                quantity: *quantity,
                affected_promise_ids: affected_promise_ids@,
            },
        }
    }
}

impl Clone for EventData {
    fn clone(&self) -> (out: EventData)
        ensures
            out@ == self@,
    {
        match self {
            EventData::ResourcePool { resource_pool_id } => EventData::ResourcePool {
                resource_pool_id: *resource_pool_id,
            },
            EventData::Promise { promise_id, version } => EventData::Promise {
                promise_id: *promise_id,
                version: *version,
            },
            EventData::Deficit {
                resource_pool_id,
                interval,
                quantity,
                affected_promise_ids,
            } => {
                let ids = affected_promise_ids.clone();
                assert(ids@ =~= affected_promise_ids@);
                EventData::Deficit {
                    resource_pool_id: *resource_pool_id,
                    interval: *interval,
                    quantity: *quantity,
                    affected_promise_ids: ids,
                }
            },
        }
    }
}

impl Wire for EventDataView {
    open spec fn valid(self) -> bool {
        match self {
            EventDataView::ResourcePool { resource_pool_id } => {
                resource_pool_id.valid()
            },
            EventDataView::Promise { promise_id, version } => {
                &&& promise_id.valid()
                &&& version != 0
            },
            EventDataView::Deficit {
                resource_pool_id,
                interval,
                quantity,
                affected_promise_ids,
            } => {
                &&& resource_pool_id.valid()
                &&& interval.valid()
                &&& model::all_valid(affected_promise_ids)
                &&& model::ordered(affected_promise_ids, 1)
            },
        }
    }

    open spec fn fits(self, limits: Limits) -> bool {
        match self {
            EventDataView::ResourcePool { resource_pool_id } => {
                resource_pool_id.fits(limits)
            },
            EventDataView::Promise { promise_id, version } => {
                promise_id.fits(limits)
            },
            EventDataView::Deficit {
                resource_pool_id,
                interval,
                quantity,
                affected_promise_ids,
            } => {
                &&& resource_pool_id.fits(limits)
                &&& interval.fits(limits)
                &&& model::list_fits(affected_promise_ids, limits)
            },
        }
    }

    #[verifier::opaque]
    open spec fn enc(self) -> Enc {
        match self {
            EventDataView::ResourcePool { resource_pool_id } => 1u8.enc().followed_by(
                resource_pool_id.enc(),
            ),
            EventDataView::Promise { promise_id, version } => 2u8.enc().followed_by(
                promise_id.enc(),
            ).followed_by(
                version.enc(),
            ),
            EventDataView::Deficit {
                resource_pool_id,
                interval,
                quantity,
                affected_promise_ids,
            } => 3u8.enc().followed_by(
                resource_pool_id.enc(),
            ).followed_by(
                interval.enc(),
            ).followed_by(
                quantity.enc(),
            ).followed_by(
                model::enc_list("affected promise ids", affected_promise_ids),
            ),
        }
    }

    #[verifier::opaque]
    open spec fn parse(data: Seq<u8>, pos: int, limits: Limits) -> Parsed<EventDataView> {
        match u8::parse(data, pos, limits) {
            Err(error) => Err(error),
            Ok((tag, p0)) => {
                if tag == 1u8 {
                    match ResourcePoolId::parse(data, p0, limits) {
                        Err(error) => Err(error),
                        Ok((resource_pool_id, stop)) => Ok(
                            (EventDataView::ResourcePool { resource_pool_id }, stop),
                        ),
                    }
                } else if tag == 2u8 {
                    match PromiseId::parse(data, p0, limits) {
                        Err(error) => Err(error),
                        Ok((promise_id, p1)) => match model::parse_version(
                            data,
                            p1,
                            "zero promise version",
                        ) {
                            Err(error) => Err(error),
                            Ok((version, stop)) => Ok(
                                (EventDataView::Promise { promise_id, version }, stop),
                            ),
                        },
                    }
                } else if tag == 3u8 {
                    match ResourcePoolId::parse(data, p0, limits) {
                        Err(error) => Err(error),
                        Ok((resource_pool_id, p1)) => match IntervalView::parse(data, p1, limits) {
                            Err(error) => Err(error),
                            Ok((interval, p2)) => match u64::parse(data, p2, limits) {
                                Err(error) => Err(error),
                                Ok((quantity, p3)) => match model::parse_ordered::<PromiseId>(
                                    data,
                                    p3,
                                    limits,
                                    "affected promise ids",
                                    1,
                                    "promise IDs are not sorted and unique",
                                ) {
                                    Err(error) => Err(error),
                                    Ok((affected_promise_ids, stop)) => Ok(
                                        (
                                            EventDataView::Deficit {
                                                resource_pool_id,
                                                interval,
                                                quantity,
                                                affected_promise_ids,
                                            },
                                            stop,
                                        ),
                                    ),
                                },
                            },
                        },
                    }
                } else {
                    Err(StorageError::InvalidTag { kind: "event data", tag })
                }
            },
        }
    }

    proof fn lemma_parse(data: Seq<u8>, pos: int, limits: Limits, cut: int) {
        broadcast use {model::lemma_at_add, model::lemma_le_len};

        reveal(<EventDataView as Wire>::enc);
        reveal(<EventDataView as Wire>::parse);
        u8::lemma_parse(data, pos, limits, cut);
        if let Ok((tag, p0)) = u8::parse(data, pos, limits) {
            if tag == 1u8 {
                ResourcePoolId::lemma_parse(data, p0, limits, cut);
            } else if tag == 2u8 {
                PromiseId::lemma_parse(data, p0, limits, cut);
                if let Ok((_, p1)) = PromiseId::parse(data, p0, limits) {
                    model::lemma_parse_version(data, p1, "zero promise version", cut);
                }
            } else if tag == 3u8 {
                ResourcePoolId::lemma_parse(data, p0, limits, cut);
                if let Ok((_, p1)) = ResourcePoolId::parse(data, p0, limits) {
                    IntervalView::lemma_parse(data, p1, limits, cut);
                    if let Ok((_, p2)) = IntervalView::parse(data, p1, limits) {
                        u64::lemma_parse(data, p2, limits, cut);
                        if let Ok((_, p3)) = u64::parse(data, p2, limits) {
                            model::lemma_parse_ordered::<PromiseId>(
                                data,
                                p3,
                                limits,
                                "affected promise ids",
                                1,
                                "promise IDs are not sorted and unique",
                                cut,
                            );
                        }
                    }
                }
            }
        }
    }

    proof fn lemma_enc(self, data: Seq<u8>, pos: int, limits: Limits) {
        broadcast use {model::lemma_at_add, model::lemma_le_len};

        reveal(<EventDataView as Wire>::enc);
        reveal(<EventDataView as Wire>::parse);
        let p0 = pos + 1;
        match self {
            EventDataView::ResourcePool { resource_pool_id } => {
                u8::lemma_enc(1u8, data, pos, limits);
                resource_pool_id.lemma_enc(data, p0, limits);
            },
            EventDataView::Promise { promise_id, version } => {
                u8::lemma_enc(2u8, data, pos, limits);
                promise_id.lemma_enc(data, p0, limits);
                let p1 = p0 + promise_id.enc().bytes.len();
                model::lemma_version_enc(version, data, p1, "zero promise version");
            },
            EventDataView::Deficit {
                resource_pool_id,
                interval,
                quantity,
                affected_promise_ids,
            } => {
                u8::lemma_enc(3u8, data, pos, limits);
                resource_pool_id.lemma_enc(data, p0, limits);
                let p1 = p0 + resource_pool_id.enc().bytes.len();
                interval.lemma_enc(data, p1, limits);
                let p2 = p1 + interval.enc().bytes.len();
                quantity.lemma_enc(data, p2, limits);
                let p3 = p2 + quantity.enc().bytes.len();
                model::lemma_ordered_enc(
                    affected_promise_ids,
                    data,
                    p3,
                    limits,
                    "affected promise ids",
                    1,
                    "promise IDs are not sorted and unique",
                );
            },
        }
    }

    proof fn lemma_fits(self, limits: Limits) {
        reveal(<EventDataView as Wire>::enc);
        match self {
            EventDataView::ResourcePool { resource_pool_id } => {
                resource_pool_id.lemma_fits(limits);
            },
            EventDataView::Promise { promise_id, version } => {
                promise_id.lemma_fits(limits);
            },
            EventDataView::Deficit {
                resource_pool_id,
                interval,
                quantity,
                affected_promise_ids,
            } => {
                resource_pool_id.lemma_fits(limits);
                interval.lemma_fits(limits);
                model::lemma_list_fits(affected_promise_ids, limits, "affected promise ids");
            },
        }
    }
}

impl Encode for EventData {
    fn encode(&self, writer: &mut Writer) -> (out: Result<(), StorageError>) {
        broadcast use crate::wire::writer::lemma_written_chain;

        reveal(<EventDataView as Wire>::enc);
        match self {
            EventData::ResourcePool { resource_pool_id } => {
                writer.u8(1u8);
                resource_pool_id.encode(writer)?;
            },
            EventData::Promise { promise_id, version } => {
                writer.u8(2u8);
                promise_id.encode(writer)?;
                writer.u64(version.get());
            },
            EventData::Deficit { resource_pool_id, interval, quantity, affected_promise_ids } => {
                writer.u8(3u8);
                resource_pool_id.encode(writer)?;
                interval.encode(writer)?;
                writer.u64(*quantity);
                proof {
                    crate::outcome::lemma_ids_views(affected_promise_ids@);
                }
                writer.list("affected promise ids", affected_promise_ids.as_slice())?;
            },
        }
        Ok(())
    }
}

impl Decode for EventData {
    fn decode(reader: &mut Reader) -> (out: Result<EventData, StorageError>) {
        reveal(<EventDataView as Wire>::parse);
        let tag = reader.u8()?;
        if tag == 1u8 {
            let resource_pool_id = ResourcePoolId::decode(reader)?;
            Ok(EventData::ResourcePool { resource_pool_id })
        } else if tag == 2u8 {
            let promise_id = PromiseId::decode(reader)?;
            let version = Version::read(reader, "zero promise version")?;
            Ok(EventData::Promise { promise_id, version })
        } else if tag == 3u8 {
            let resource_pool_id = ResourcePoolId::decode(reader)?;
            let interval = Interval::decode(reader)?;
            let quantity = reader.u64()?;
            let affected_promise_ids = reader.ordered::<PromiseId>(
                "affected promise ids",
                1,
                "promise IDs are not sorted and unique",
            )?;
            proof {
                crate::outcome::lemma_ids_views(affected_promise_ids@);
            }
            Ok(EventData::Deficit { resource_pool_id, interval, quantity, affected_promise_ids })
        } else {
            Err(StorageError::InvalidTag { kind: "event data", tag })
        }
    }
}

/// An event of this kind is about data like this.
pub open spec fn consistent(kind: EventKind, data: EventDataView) -> bool {
    match kind {
        EventKind::ResourceCreated | EventKind::CapacityRevised => data is ResourcePool,
        EventKind::HoldCreated
        | EventKind::HoldCommitted
        | EventKind::PromiseReleased
        | EventKind::PromiseReplaced
        | EventKind::HoldExpired => data is Promise,
        EventKind::DeficitCreated
        | EventKind::DeficitChanged
        | EventKind::DeficitResolved => data is Deficit,
    }
}

/// The model of an [`Event`].
#[verifier::ext_equal]
pub struct EventView {
    /// Position in the history.
    pub sequence: u64,
    /// When the event happened.
    pub timestamp: i64,
    /// What happened.
    pub kind: EventKind,
    /// What it is about.
    pub subject: EventDataView,
}

/// Something that happened in the commitment domain.
#[derive(Debug, PartialEq, Eq)]
pub struct Event {
    sequence: SequenceNumber,
    timestamp: i64,
    kind: EventKind,
    subject: EventData,
}

impl View for Event {
    type V = EventView;

    closed spec fn view(&self) -> EventView {
        EventView {
            sequence: self.sequence@,
            timestamp: self.timestamp,
            kind: self.kind,
            subject: self.subject@,
        }
    }
}

impl Clone for Event {
    fn clone(&self) -> (out: Event)
        ensures
            out@ == self@,
    {
        proof {
            use_type_invariant(self);
        }
        Event {
            sequence: self.sequence,
            timestamp: self.timestamp,
            kind: self.kind,
            subject: self.subject.clone(),
        }
    }
}

impl Event {
    #[verifier::type_invariant]
    spec fn kept_valid(&self) -> bool {
        self@.valid()
    }
}

impl Assured for Event {
    fn assure(&self) {
        proof {
            use_type_invariant(self);
        }
    }
}

impl Event {
    /// Rebuilds a stored event, unless its kind does not fit what it is about or the affected
    /// promises are not in ascending order.
    pub fn restore(
        sequence: SequenceNumber,
        timestamp: i64,
        kind: EventKind,
        data: EventData,
    ) -> (out: Option<Event>)
        ensures
            out is Some == (consistent(kind, data@) && (data@ matches EventDataView::Deficit {
                affected_promise_ids,
                ..
            } ==> model::ordered(affected_promise_ids, 1))),
            out matches Some(event) ==> event@ == (EventView {
                sequence: sequence@,
                timestamp,
                kind,
                subject: data@,
            }),
    {
        let fits = match (kind, &data) {
            (
                EventKind::ResourceCreated | EventKind::CapacityRevised,
                EventData::ResourcePool { .. },
            ) => true,
            (
                EventKind::HoldCreated
                | EventKind::HoldCommitted
                | EventKind::PromiseReleased
                | EventKind::PromiseReplaced
                | EventKind::HoldExpired,
                EventData::Promise { .. },
            ) => true,
            (
                EventKind::DeficitCreated
                | EventKind::DeficitChanged
                | EventKind::DeficitResolved,
                EventData::Deficit { affected_promise_ids, .. },
            ) => crate::outcome::sorted(affected_promise_ids.as_slice()),
            _ => false,
        };
        if !fits {
            return None;
        }
        match &data {
            EventData::ResourcePool { .. } => {},
            EventData::Promise { version, .. } => {
                version.get();
            },
            EventData::Deficit { interval, .. } => {
                interval.assure();
            },
        }
        Some(Event { sequence, timestamp, kind, subject: data })
    }

    /// Returns the position in the history.
    pub fn sequence(&self) -> (out: SequenceNumber)
        ensures
            out@ == self@.sequence,
    {
        self.sequence
    }

    /// Returns when the event happened.
    pub fn timestamp(&self) -> (out: i64)
        ensures
            out == self@.timestamp,
    {
        self.timestamp
    }

    /// Returns what happened.
    pub fn kind(&self) -> (out: EventKind)
        ensures
            out == self@.kind,
    {
        self.kind
    }

    /// Returns what the event is about.
    pub fn data(&self) -> (out: &EventData)
        ensures
            out@ == self@.subject,
    {
        &self.subject
    }
}

impl Wire for EventView {
    open spec fn valid(self) -> bool {
        &&& self.kind.valid()
        &&& self.subject.valid()
        &&& consistent(self.kind, self.subject)
    }

    open spec fn fits(self, limits: Limits) -> bool {
        &&& self.kind.fits(limits)
        &&& self.subject.fits(limits)
    }

    #[verifier::opaque]
    open spec fn enc(self) -> Enc {
        self.sequence.enc().followed_by(
            self.timestamp.enc(),
        ).followed_by(
            self.kind.enc(),
        ).followed_by(
            self.subject.enc(),
        )
    }

    #[verifier::opaque]
    open spec fn parse(data: Seq<u8>, pos: int, limits: Limits) -> Parsed<EventView> {
        match u64::parse(data, pos, limits) {
            Err(error) => Err(error),
            Ok((sequence, p1)) => match i64::parse(data, p1, limits) {
                Err(error) => Err(error),
                Ok((timestamp, p2)) => match EventKind::parse(data, p2, limits) {
                    Err(error) => Err(error),
                    Ok((kind, p3)) => match EventDataView::parse(data, p3, limits) {
                        Err(error) => Err(error),
                        Ok((subject, stop)) => if !consistent(kind, subject) {
                            Err(StorageError::CorruptRecord("invalid event"))
                        } else {
                            Ok((EventView { sequence, timestamp, kind, subject }, stop))
                        },
                    },
                },
            },
        }
    }

    proof fn lemma_parse(data: Seq<u8>, pos: int, limits: Limits, cut: int) {
        broadcast use {model::lemma_at_add, model::lemma_le_len};

        reveal(<EventView as Wire>::enc);
        reveal(<EventView as Wire>::parse);
        u64::lemma_parse(data, pos, limits, cut);
        if let Ok((_, p1)) = u64::parse(data, pos, limits) {
            i64::lemma_parse(data, p1, limits, cut);
            if let Ok((_, p2)) = i64::parse(data, p1, limits) {
                EventKind::lemma_parse(data, p2, limits, cut);
                if let Ok((_, p3)) = EventKind::parse(data, p2, limits) {
                    EventDataView::lemma_parse(data, p3, limits, cut);
                }
            }
        }
    }

    proof fn lemma_enc(self, data: Seq<u8>, pos: int, limits: Limits) {
        broadcast use {model::lemma_at_add, model::lemma_le_len};

        reveal(<EventView as Wire>::enc);
        reveal(<EventView as Wire>::parse);
        self.sequence.lemma_enc(data, pos, limits);
        let p1 = pos + self.sequence.enc().bytes.len();
        self.timestamp.lemma_enc(data, p1, limits);
        let p2 = p1 + self.timestamp.enc().bytes.len();
        self.kind.lemma_enc(data, p2, limits);
        let p3 = p2 + self.kind.enc().bytes.len();
        self.subject.lemma_enc(data, p3, limits);
    }

    proof fn lemma_fits(self, limits: Limits) {
        reveal(<EventView as Wire>::enc);
        self.kind.lemma_fits(limits);
        self.subject.lemma_fits(limits);
    }
}

impl Encode for Event {
    fn encode(&self, writer: &mut Writer) -> (out: Result<(), StorageError>) {
        broadcast use crate::wire::writer::lemma_written_chain;

        reveal(<EventView as Wire>::enc);
        writer.u64(self.sequence.get());
        writer.i64(self.timestamp);
        self.kind.encode(writer)?;
        self.subject.encode(writer)?;
        Ok(())
    }
}

impl Decode for Event {
    fn decode(reader: &mut Reader) -> (out: Result<Event, StorageError>) {
        reveal(<EventView as Wire>::parse);
        let sequence = SequenceNumber::new(reader.u64()?);
        let timestamp = reader.i64()?;
        let kind = EventKind::decode(reader)?;
        let ghost before = *reader;
        let subject = EventData::decode(reader)?;
        proof {
            EventDataView::lemma_parse(before.data(), before.pos(), before.limits(), 0);
        }
        match Event::restore(sequence, timestamp, kind, subject) {
            Some(event) => Ok(event),
            None => Err(StorageError::CorruptRecord("invalid event")),
        }
    }
}

impl Keyed for EventView {
    open spec fn key(self) -> nat {
        self.sequence as nat
    }
}

impl Ranked for Event {
    fn rank(&self) -> (out: u128) {
        self.sequence.get() as u128
    }
}

} // verus!

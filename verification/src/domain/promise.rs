//! Resource pools and promises.

use crate::domain::capacity::{CapacityCurve, CapacityCurveView, Unit, UnitView};
use crate::domain::claims::{Bundle, BundleView};
use crate::domain::ids::{PromiseId, ResourcePoolId};
use crate::error::{DomainError, StorageError};
use crate::wire::assured::Assured;
use crate::wire::model;
use crate::wire::model::{Enc, Keyed, Limits, Parsed, Wire};
use crate::wire::reader::{Decode, Ranked, Reader};
use crate::wire::writer::{Encode, Writer};
use vstd::prelude::*;

verus! {

/// Version of a promise, which grows with each change. It is never zero.
#[derive(Debug, Clone, Copy, PartialEq, Eq, PartialOrd, Ord, Hash, Structural)]
pub struct Version {
    value: u64,
}

impl View for Version {
    type V = u64;

    closed spec fn view(&self) -> u64 {
        self.value
    }
}

impl Version {
    #[verifier::type_invariant]
    spec fn is_counted(&self) -> bool {
        self.value != 0
    }

    /// Creates a version, unless `value` is zero.
    pub fn new(value: u64) -> (out: Option<Version>)
        ensures
            match out {
                Some(version) => value != 0 && version@ == value,
                None => value == 0,
            },
    {
        if value == 0 {
            None
        } else {
            Some(Version { value })
        }
    }

    /// Returns the number.
    pub fn get(&self) -> (out: u64)
        ensures
            out == self@,
            out != 0,
    {
        proof {
            use_type_invariant(self);
        }
        self.value
    }

    /// Decodes a version and reports zero as corrupt for `reason`.
    pub fn read(reader: &mut Reader, reason: &'static str) -> (out: Result<Version, StorageError>)
        requires
            old(reader).wf(),
        ensures
            old(reader).got(
                *final(reader),
                model::parse_version(old(reader).data(), old(reader).pos(), reason),
                crate::wire::reader::viewed(out),
            ),
    {
        let value = reader.u64()?;
        proof {
            model::lemma_spans();
            model::lemma_uint_range(old(reader).data(), old(reader).pos(), 8);
        }
        match Version::new(value) {
            Some(version) => Ok(version),
            None => Err(StorageError::CorruptRecord(reason)),
        }
    }
}

/// Position in the history of the commitment domain.
#[derive(Debug, Clone, Copy, PartialEq, Eq, PartialOrd, Ord, Hash, Structural)]
pub struct SequenceNumber {
    value: u64,
}

impl View for SequenceNumber {
    type V = u64;

    closed spec fn view(&self) -> u64 {
        self.value
    }
}

impl SequenceNumber {
    /// Creates a position.
    pub fn new(value: u64) -> (out: SequenceNumber)
        ensures
            out@ == value,
    {
        SequenceNumber { value }
    }

    /// Returns the number.
    pub fn get(&self) -> (out: u64)
        ensures
            out == self@,
    {
        self.value
    }
}

/// State of a promise after a replacement.
#[derive(Debug, Clone, Copy, PartialEq, Eq, Hash, Structural)]
pub enum ReplacementState {
    /// The promise is held until the given instant.
    Held {
        /// When the hold expires.
        expires_at: i64,
    },
    /// The promise is committed.
    Committed,
}

impl View for ReplacementState {
    type V = ReplacementState;

    open spec fn view(&self) -> ReplacementState {
        *self
    }
}

impl Wire for ReplacementState {
    open spec fn valid(self) -> bool {
        match self {
            ReplacementState::Held { expires_at } => {
                true
            },
            ReplacementState::Committed => {
                true
            },
        }
    }

    open spec fn fits(self, limits: Limits) -> bool {
        match self {
            ReplacementState::Held { expires_at } => {
                true
            },
            ReplacementState::Committed => {
                true
            },
        }
    }

    #[verifier::opaque]
    open spec fn enc(self) -> Enc {
        match self {
            ReplacementState::Held { expires_at } => 1u8.enc().followed_by(
                expires_at.enc(),
            ),
            ReplacementState::Committed => 2u8.enc(),
        }
    }

    #[verifier::opaque]
    open spec fn parse(data: Seq<u8>, pos: int, limits: Limits) -> Parsed<ReplacementState> {
        match u8::parse(data, pos, limits) {
            Err(error) => Err(error),
            Ok((tag, p0)) => {
                if tag == 1u8 {
                    match i64::parse(data, p0, limits) {
                        Err(error) => Err(error),
                        Ok((expires_at, stop)) => Ok((ReplacementState::Held { expires_at }, stop)),
                    }
                } else if tag == 2u8 {
                    Ok((ReplacementState::Committed, p0))
                } else {
                    Err(StorageError::InvalidTag { kind: "replacement state", tag })
                }
            },
        }
    }

    proof fn lemma_parse(data: Seq<u8>, pos: int, limits: Limits, cut: int) {
        broadcast use {model::lemma_at_add, model::lemma_le_len};

        reveal(<ReplacementState as Wire>::enc);
        reveal(<ReplacementState as Wire>::parse);
        u8::lemma_parse(data, pos, limits, cut);
        if let Ok((tag, p0)) = u8::parse(data, pos, limits) {
            if tag == 1u8 {
                i64::lemma_parse(data, p0, limits, cut);
            } else if tag == 2u8 {
            }
        }
    }

    proof fn lemma_enc(self, data: Seq<u8>, pos: int, limits: Limits) {
        broadcast use {model::lemma_at_add, model::lemma_le_len};

        reveal(<ReplacementState as Wire>::enc);
        reveal(<ReplacementState as Wire>::parse);
        let p0 = pos + 1;
        match self {
            ReplacementState::Held { expires_at } => {
                u8::lemma_enc(1u8, data, pos, limits);
                expires_at.lemma_enc(data, p0, limits);
            },
            ReplacementState::Committed => {
                u8::lemma_enc(2u8, data, pos, limits);
            },
        }
    }

    proof fn lemma_fits(self, limits: Limits) {
        reveal(<ReplacementState as Wire>::enc);
        match self {
            ReplacementState::Held { expires_at } => {},
            ReplacementState::Committed => {},
        }
    }
}

impl Encode for ReplacementState {
    fn encode(&self, writer: &mut Writer) -> (out: Result<(), StorageError>) {
        broadcast use crate::wire::writer::lemma_written_chain;

        reveal(<ReplacementState as Wire>::enc);
        match self {
            ReplacementState::Held { expires_at } => {
                writer.u8(1u8);
                writer.i64(*expires_at);
            },
            ReplacementState::Committed => {
                writer.u8(2u8);
            },
        }
        Ok(())
    }
}

impl Decode for ReplacementState {
    fn decode(reader: &mut Reader) -> (out: Result<ReplacementState, StorageError>) {
        reveal(<ReplacementState as Wire>::parse);
        let tag = reader.u8()?;
        if tag == 1u8 {
            let expires_at = reader.i64()?;
            Ok(ReplacementState::Held { expires_at })
        } else if tag == 2u8 {
            Ok(ReplacementState::Committed)
        } else {
            Err(StorageError::InvalidTag { kind: "replacement state", tag })
        }
    }
}

/// State of a promise.
#[derive(Debug, Clone, Copy, PartialEq, Eq, Hash, Structural)]
pub enum PromiseState {
    /// The claims are held until the given instant.
    Held {
        /// When the hold expires.
        expires_at: i64,
    },
    /// The claims are committed.
    Committed,
    /// The claims were given back.
    Released,
    /// The hold ran out.
    Expired,
}

impl View for PromiseState {
    type V = PromiseState;

    open spec fn view(&self) -> PromiseState {
        *self
    }
}

impl Wire for PromiseState {
    open spec fn valid(self) -> bool {
        match self {
            PromiseState::Held { expires_at } => {
                true
            },
            PromiseState::Committed => {
                true
            },
            PromiseState::Released => {
                true
            },
            PromiseState::Expired => {
                true
            },
        }
    }

    open spec fn fits(self, limits: Limits) -> bool {
        match self {
            PromiseState::Held { expires_at } => {
                true
            },
            PromiseState::Committed => {
                true
            },
            PromiseState::Released => {
                true
            },
            PromiseState::Expired => {
                true
            },
        }
    }

    #[verifier::opaque]
    open spec fn enc(self) -> Enc {
        match self {
            PromiseState::Held { expires_at } => 1u8.enc().followed_by(
                expires_at.enc(),
            ),
            PromiseState::Committed => 2u8.enc(),
            PromiseState::Released => 3u8.enc(),
            PromiseState::Expired => 4u8.enc(),
        }
    }

    #[verifier::opaque]
    open spec fn parse(data: Seq<u8>, pos: int, limits: Limits) -> Parsed<PromiseState> {
        match u8::parse(data, pos, limits) {
            Err(error) => Err(error),
            Ok((tag, p0)) => {
                if tag == 1u8 {
                    match i64::parse(data, p0, limits) {
                        Err(error) => Err(error),
                        Ok((expires_at, stop)) => Ok((PromiseState::Held { expires_at }, stop)),
                    }
                } else if tag == 2u8 {
                    Ok((PromiseState::Committed, p0))
                } else if tag == 3u8 {
                    Ok((PromiseState::Released, p0))
                } else if tag == 4u8 {
                    Ok((PromiseState::Expired, p0))
                } else {
                    Err(StorageError::InvalidTag { kind: "promise state", tag })
                }
            },
        }
    }

    proof fn lemma_parse(data: Seq<u8>, pos: int, limits: Limits, cut: int) {
        broadcast use {model::lemma_at_add, model::lemma_le_len};

        reveal(<PromiseState as Wire>::enc);
        reveal(<PromiseState as Wire>::parse);
        u8::lemma_parse(data, pos, limits, cut);
        if let Ok((tag, p0)) = u8::parse(data, pos, limits) {
            if tag == 1u8 {
                i64::lemma_parse(data, p0, limits, cut);
            } else if tag == 2u8 {
            } else if tag == 3u8 {
            } else if tag == 4u8 {
            }
        }
    }

    proof fn lemma_enc(self, data: Seq<u8>, pos: int, limits: Limits) {
        broadcast use {model::lemma_at_add, model::lemma_le_len};

        reveal(<PromiseState as Wire>::enc);
        reveal(<PromiseState as Wire>::parse);
        let p0 = pos + 1;
        match self {
            PromiseState::Held { expires_at } => {
                u8::lemma_enc(1u8, data, pos, limits);
                expires_at.lemma_enc(data, p0, limits);
            },
            PromiseState::Committed => {
                u8::lemma_enc(2u8, data, pos, limits);
            },
            PromiseState::Released => {
                u8::lemma_enc(3u8, data, pos, limits);
            },
            PromiseState::Expired => {
                u8::lemma_enc(4u8, data, pos, limits);
            },
        }
    }

    proof fn lemma_fits(self, limits: Limits) {
        reveal(<PromiseState as Wire>::enc);
        match self {
            PromiseState::Held { expires_at } => {},
            PromiseState::Committed => {},
            PromiseState::Released => {},
            PromiseState::Expired => {},
        }
    }
}

impl Encode for PromiseState {
    fn encode(&self, writer: &mut Writer) -> (out: Result<(), StorageError>) {
        broadcast use crate::wire::writer::lemma_written_chain;

        reveal(<PromiseState as Wire>::enc);
        match self {
            PromiseState::Held { expires_at } => {
                writer.u8(1u8);
                writer.i64(*expires_at);
            },
            PromiseState::Committed => {
                writer.u8(2u8);
            },
            PromiseState::Released => {
                writer.u8(3u8);
            },
            PromiseState::Expired => {
                writer.u8(4u8);
            },
        }
        Ok(())
    }
}

impl Decode for PromiseState {
    fn decode(reader: &mut Reader) -> (out: Result<PromiseState, StorageError>) {
        reveal(<PromiseState as Wire>::parse);
        let tag = reader.u8()?;
        if tag == 1u8 {
            let expires_at = reader.i64()?;
            Ok(PromiseState::Held { expires_at })
        } else if tag == 2u8 {
            Ok(PromiseState::Committed)
        } else if tag == 3u8 {
            Ok(PromiseState::Released)
        } else if tag == 4u8 {
            Ok(PromiseState::Expired)
        } else {
            Err(StorageError::InvalidTag { kind: "promise state", tag })
        }
    }
}

/// The model of a [`ResourcePool`].
#[verifier::ext_equal]
pub struct ResourcePoolView {
    /// Identity of the pool.
    pub id: ResourcePoolId,
    /// Name shown to people.
    pub display_name: Seq<char>,
    /// What the pool counts.
    pub unit: UnitView,
    /// Capacity over time.
    pub capacity_curve: CapacityCurveView,
}

/// A pool of a countable resource.
#[derive(Debug, PartialEq, Eq)]
pub struct ResourcePool {
    id: ResourcePoolId,
    display_name: String,
    unit: Unit,
    capacity_curve: CapacityCurve,
}

impl View for ResourcePool {
    type V = ResourcePoolView;

    closed spec fn view(&self) -> ResourcePoolView {
        ResourcePoolView {
            id: self.id,
            display_name: self.display_name@,
            unit: self.unit@,
            capacity_curve: self.capacity_curve@,
        }
    }
}

impl Clone for ResourcePool {
    fn clone(&self) -> (out: ResourcePool)
        ensures
            out@ == self@,
    {
        proof {
            use_type_invariant(self);
        }
        ResourcePool {
            id: self.id,
            display_name: self.display_name.clone(),
            unit: self.unit.clone(),
            capacity_curve: self.capacity_curve.clone(),
        }
    }
}

impl ResourcePool {
    #[verifier::type_invariant]
    spec fn kept_valid(&self) -> bool {
        self@.valid()
    }
}

impl Assured for ResourcePool {
    fn assure(&self) {
        proof {
            use_type_invariant(self);
        }
    }
}

impl ResourcePool {
    /// Creates a pool with a known identity.
    pub fn with_id(
        id: ResourcePoolId,
        display_name: String,
        unit: Unit,
        capacity_curve: CapacityCurve,
    ) -> (out: ResourcePool)
        ensures
            out@ == (ResourcePoolView {
                id,
                display_name: display_name@,
                unit: unit@,
                capacity_curve: capacity_curve@,
            }),
    {
        unit.assure();
        capacity_curve.assure();
        ResourcePool { id, display_name, unit, capacity_curve }
    }

    /// Returns the identity.
    pub fn id(&self) -> (out: ResourcePoolId)
        ensures
            out == self@.id,
    {
        self.id
    }

    /// Returns the name shown to people.
    pub fn display_name(&self) -> (out: &str)
        ensures
            out@ == self@.display_name,
    {
        self.display_name.as_str()
    }

    /// Returns what the pool counts.
    pub fn unit(&self) -> (out: &Unit)
        ensures
            out@ == self@.unit,
    {
        &self.unit
    }

    /// Returns the capacity over time.
    pub fn capacity_curve(&self) -> (out: &CapacityCurve)
        ensures
            out@ == self@.capacity_curve,
    {
        &self.capacity_curve
    }
}

impl Wire for ResourcePoolView {
    open spec fn valid(self) -> bool {
        &&& self.id.valid()
        &&& self.unit.valid()
        &&& self.capacity_curve.valid()
    }

    open spec fn fits(self, limits: Limits) -> bool {
        &&& self.id.fits(limits)
        &&& model::string_fits(self.display_name, limits)
        &&& self.unit.fits(limits)
        &&& self.capacity_curve.fits(limits)
    }

    #[verifier::opaque]
    open spec fn enc(self) -> Enc {
        self.id.enc().followed_by(
            model::enc_string("display name", self.display_name),
        ).followed_by(
            self.unit.enc(),
        ).followed_by(
            self.capacity_curve.enc(),
        )
    }

    #[verifier::opaque]
    open spec fn parse(data: Seq<u8>, pos: int, limits: Limits) -> Parsed<ResourcePoolView> {
        match ResourcePoolId::parse(data, pos, limits) {
            Err(error) => Err(error),
            Ok((id, p1)) => match model::parse_string(data, p1, limits, "display name") {
                Err(error) => Err(error),
                Ok((display_name, p2)) => match UnitView::parse(data, p2, limits) {
                    Err(error) => Err(error),
                    Ok((unit, p3)) => match CapacityCurveView::parse(data, p3, limits) {
                        Err(error) => Err(error),
                        Ok((capacity_curve, stop)) => Ok(
                            (ResourcePoolView { id, display_name, unit, capacity_curve }, stop),
                        ),
                    },
                },
            },
        }
    }

    proof fn lemma_parse(data: Seq<u8>, pos: int, limits: Limits, cut: int) {
        broadcast use {model::lemma_at_add, model::lemma_le_len};

        reveal(<ResourcePoolView as Wire>::enc);
        reveal(<ResourcePoolView as Wire>::parse);
        ResourcePoolId::lemma_parse(data, pos, limits, cut);
        if let Ok((_, p1)) = ResourcePoolId::parse(data, pos, limits) {
            model::lemma_parse_string(data, p1, limits, "display name", cut);
            if let Ok((_, p2)) = model::parse_string(data, p1, limits, "display name") {
                UnitView::lemma_parse(data, p2, limits, cut);
                if let Ok((_, p3)) = UnitView::parse(data, p2, limits) {
                    CapacityCurveView::lemma_parse(data, p3, limits, cut);
                }
            }
        }
    }

    proof fn lemma_enc(self, data: Seq<u8>, pos: int, limits: Limits) {
        broadcast use {model::lemma_at_add, model::lemma_le_len};

        reveal(<ResourcePoolView as Wire>::enc);
        reveal(<ResourcePoolView as Wire>::parse);
        self.id.lemma_enc(data, pos, limits);
        let p1 = pos + self.id.enc().bytes.len();
        model::lemma_string_enc(self.display_name, data, p1, limits, "display name");
        let p2 = p1 + model::enc_string("display name", self.display_name).bytes.len();
        self.unit.lemma_enc(data, p2, limits);
        let p3 = p2 + self.unit.enc().bytes.len();
        self.capacity_curve.lemma_enc(data, p3, limits);
    }

    proof fn lemma_fits(self, limits: Limits) {
        reveal(<ResourcePoolView as Wire>::enc);
        self.id.lemma_fits(limits);
        self.unit.lemma_fits(limits);
        self.capacity_curve.lemma_fits(limits);
    }
}

impl Encode for ResourcePool {
    fn encode(&self, writer: &mut Writer) -> (out: Result<(), StorageError>) {
        broadcast use crate::wire::writer::lemma_written_chain;

        reveal(<ResourcePoolView as Wire>::enc);
        self.id.encode(writer)?;
        writer.string("display name", self.display_name.as_str())?;
        self.unit.encode(writer)?;
        self.capacity_curve.encode(writer)?;
        Ok(())
    }
}

impl Decode for ResourcePool {
    fn decode(reader: &mut Reader) -> (out: Result<ResourcePool, StorageError>) {
        reveal(<ResourcePoolView as Wire>::parse);
        let id = ResourcePoolId::decode(reader)?;
        let display_name = reader.string("display name")?;
        let unit = Unit::decode(reader)?;
        let capacity_curve = CapacityCurve::decode(reader)?;
        Ok(ResourcePool::with_id(id, display_name, unit, capacity_curve))
    }
}

impl Keyed for ResourcePoolView {
    open spec fn key(self) -> nat {
        self.id.value as nat
    }
}

impl Ranked for ResourcePool {
    fn rank(&self) -> (out: u128) {
        self.id.value
    }
}

/// The model of a [`Promise`].
#[verifier::ext_equal]
pub struct PromiseView {
    /// Identity of the promise.
    pub id: PromiseId,
    /// Current state.
    pub state: PromiseState,
    /// The promised claims.
    pub bundle: BundleView,
    /// Current version.
    pub version: u64,
    /// When the promise was made.
    pub created_sequence: u64,
    /// When the promise last changed.
    pub updated_sequence: u64,
}

/// A promise to provide a bundle of claims.
#[derive(Debug, PartialEq, Eq)]
pub struct Promise {
    id: PromiseId,
    state: PromiseState,
    bundle: Bundle,
    version: Version,
    created_sequence: SequenceNumber,
    updated_sequence: SequenceNumber,
}

impl View for Promise {
    type V = PromiseView;

    closed spec fn view(&self) -> PromiseView {
        PromiseView {
            id: self.id,
            state: self.state,
            bundle: self.bundle@,
            version: self.version@,
            created_sequence: self.created_sequence@,
            updated_sequence: self.updated_sequence@,
        }
    }
}

impl Clone for Promise {
    fn clone(&self) -> (out: Promise)
        ensures
            out@ == self@,
    {
        proof {
            use_type_invariant(self);
        }
        Promise {
            id: self.id,
            state: self.state,
            bundle: self.bundle.clone(),
            version: self.version,
            created_sequence: self.created_sequence,
            updated_sequence: self.updated_sequence,
        }
    }
}

impl Promise {
    #[verifier::type_invariant]
    spec fn kept_valid(&self) -> bool {
        self@.valid()
    }
}

impl Assured for Promise {
    fn assure(&self) {
        proof {
            use_type_invariant(self);
        }
    }
}

impl Promise {
    /// Rebuilds a stored promise.
    pub fn restore(
        id: PromiseId,
        state: PromiseState,
        bundle: Bundle,
        version: Version,
        created_sequence: SequenceNumber,
        updated_sequence: SequenceNumber,
    ) -> (out: Result<Promise, DomainError>)
        ensures
            match out {
                Ok(promise) => created_sequence@ <= updated_sequence@ && promise@ == (PromiseView {
                    id,
                    state,
                    bundle: bundle@,
                    version: version@,
                    created_sequence: created_sequence@,
                    updated_sequence: updated_sequence@,
                }),
                Err(error) => created_sequence@ > updated_sequence@ && error
                    == DomainError::InvalidPromiseHistory,
            },
    {
        if created_sequence.get() > updated_sequence.get() {
            return Err(DomainError::InvalidPromiseHistory);
        }
        bundle.assure();
        version.get();
        Ok(Promise { id, state, bundle, version, created_sequence, updated_sequence })
    }

    /// Returns the identity.
    pub fn id(&self) -> (out: PromiseId)
        ensures
            out == self@.id,
    {
        self.id
    }

    /// Returns the current state.
    pub fn state(&self) -> (out: PromiseState)
        ensures
            out == self@.state,
    {
        self.state
    }

    /// Returns the promised claims.
    pub fn bundle(&self) -> (out: &Bundle)
        ensures
            out@ == self@.bundle,
    {
        &self.bundle
    }

    /// Returns the current version.
    pub fn version(&self) -> (out: Version)
        ensures
            out@ == self@.version,
    {
        self.version
    }

    /// Returns when the promise was made.
    pub fn created_sequence(&self) -> (out: SequenceNumber)
        ensures
            out@ == self@.created_sequence,
    {
        self.created_sequence
    }

    /// Returns when the promise last changed.
    pub fn updated_sequence(&self) -> (out: SequenceNumber)
        ensures
            out@ == self@.updated_sequence,
    {
        self.updated_sequence
    }
}

impl Wire for PromiseView {
    open spec fn valid(self) -> bool {
        &&& self.id.valid()
        &&& self.state.valid()
        &&& self.bundle.valid()
        &&& self.version != 0
        &&& self.created_sequence <= self.updated_sequence
    }

    open spec fn fits(self, limits: Limits) -> bool {
        &&& self.id.fits(limits)
        &&& self.state.fits(limits)
        &&& self.bundle.fits(limits)
    }

    #[verifier::opaque]
    open spec fn enc(self) -> Enc {
        self.id.enc().followed_by(
            self.state.enc(),
        ).followed_by(
            self.bundle.enc(),
        ).followed_by(
            self.version.enc(),
        ).followed_by(
            self.created_sequence.enc(),
        ).followed_by(
            self.updated_sequence.enc(),
        )
    }

    #[verifier::opaque]
    open spec fn parse(data: Seq<u8>, pos: int, limits: Limits) -> Parsed<PromiseView> {
        match PromiseId::parse(data, pos, limits) {
            Err(error) => Err(error),
            Ok((id, p1)) => match PromiseState::parse(data, p1, limits) {
                Err(error) => Err(error),
                Ok((state, p2)) => match BundleView::parse(data, p2, limits) {
                    Err(error) => Err(error),
                    Ok((bundle, p3)) => match model::parse_version(
                        data,
                        p3,
                        "zero promise version",
                    ) {
                        Err(error) => Err(error),
                        Ok((version, p4)) => match u64::parse(data, p4, limits) {
                            Err(error) => Err(error),
                            Ok((created_sequence, p5)) => match u64::parse(data, p5, limits) {
                                Err(error) => Err(error),
                                Ok(
                                    (updated_sequence, stop),
                                ) => if created_sequence > updated_sequence {
                                    Err(StorageError::Domain(DomainError::InvalidPromiseHistory))
                                } else {
                                    Ok(
                                        (
                                            PromiseView {
                                                id,
                                                state,
                                                bundle,
                                                version,
                                                created_sequence,
                                                updated_sequence,
                                            },
                                            stop,
                                        ),
                                    )
                                },
                            },
                        },
                    },
                },
            },
        }
    }

    proof fn lemma_parse(data: Seq<u8>, pos: int, limits: Limits, cut: int) {
        broadcast use {model::lemma_at_add, model::lemma_le_len};

        reveal(<PromiseView as Wire>::enc);
        reveal(<PromiseView as Wire>::parse);
        PromiseId::lemma_parse(data, pos, limits, cut);
        if let Ok((_, p1)) = PromiseId::parse(data, pos, limits) {
            PromiseState::lemma_parse(data, p1, limits, cut);
            if let Ok((_, p2)) = PromiseState::parse(data, p1, limits) {
                BundleView::lemma_parse(data, p2, limits, cut);
                if let Ok((_, p3)) = BundleView::parse(data, p2, limits) {
                    model::lemma_parse_version(data, p3, "zero promise version", cut);
                    if let Ok((_, p4)) = model::parse_version(data, p3, "zero promise version") {
                        u64::lemma_parse(data, p4, limits, cut);
                        if let Ok((_, p5)) = u64::parse(data, p4, limits) {
                            u64::lemma_parse(data, p5, limits, cut);
                        }
                    }
                }
            }
        }
    }

    proof fn lemma_enc(self, data: Seq<u8>, pos: int, limits: Limits) {
        broadcast use {model::lemma_at_add, model::lemma_le_len};

        reveal(<PromiseView as Wire>::enc);
        reveal(<PromiseView as Wire>::parse);
        self.id.lemma_enc(data, pos, limits);
        let p1 = pos + self.id.enc().bytes.len();
        self.state.lemma_enc(data, p1, limits);
        let p2 = p1 + self.state.enc().bytes.len();
        self.bundle.lemma_enc(data, p2, limits);
        let p3 = p2 + self.bundle.enc().bytes.len();
        model::lemma_version_enc(self.version, data, p3, "zero promise version");
        let p4 = p3 + self.version.enc().bytes.len();
        self.created_sequence.lemma_enc(data, p4, limits);
        let p5 = p4 + self.created_sequence.enc().bytes.len();
        self.updated_sequence.lemma_enc(data, p5, limits);
    }

    proof fn lemma_fits(self, limits: Limits) {
        reveal(<PromiseView as Wire>::enc);
        self.id.lemma_fits(limits);
        self.state.lemma_fits(limits);
        self.bundle.lemma_fits(limits);
    }
}

impl Encode for Promise {
    fn encode(&self, writer: &mut Writer) -> (out: Result<(), StorageError>) {
        broadcast use crate::wire::writer::lemma_written_chain;

        reveal(<PromiseView as Wire>::enc);
        self.id.encode(writer)?;
        self.state.encode(writer)?;
        self.bundle.encode(writer)?;
        writer.u64(self.version.get());
        writer.u64(self.created_sequence.get());
        writer.u64(self.updated_sequence.get());
        Ok(())
    }
}

impl Decode for Promise {
    fn decode(reader: &mut Reader) -> (out: Result<Promise, StorageError>) {
        reveal(<PromiseView as Wire>::parse);
        let id = PromiseId::decode(reader)?;
        let state = PromiseState::decode(reader)?;
        let bundle = Bundle::decode(reader)?;
        let version = Version::read(reader, "zero promise version")?;
        let created_sequence = SequenceNumber::new(reader.u64()?);
        let updated_sequence = SequenceNumber::new(reader.u64()?);
        match Promise::restore(
            id,
            state,
            bundle,
            version,
            created_sequence,
            updated_sequence,
        ) {
            Ok(value) => Ok(value),
            Err(error) => Err(StorageError::Domain(error)),
        }
    }
}

impl Keyed for PromiseView {
    open spec fn key(self) -> nat {
        self.id.value as nat
    }
}

impl Ranked for Promise {
    fn rank(&self) -> (out: u128) {
        self.id.value
    }
}

} // verus!

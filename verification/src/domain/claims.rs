//! Claims on resource pools and their combinations.

use crate::domain::capacity::{Interval, IntervalView};
use crate::domain::ids::ResourcePoolId;
use crate::error::{DomainError, StorageError};
use crate::wire::assured::{assure_all, Assured};
use crate::wire::model;
use crate::wire::model::{Enc, Limits, Parsed, Wire};
use crate::wire::reader::{Decode, Reader};
use crate::wire::writer::{Encode, Writer};
use vstd::prelude::*;

verus! {

/// The model of a [`Claim`].
pub struct ClaimView {
    /// The claimed pool.
    pub pool_id: ResourcePoolId,
    /// When it is claimed.
    pub interval: IntervalView,
    /// How much of it is claimed.
    pub quantity: u64,
}

/// A positive quantity of one resource pool over an interval.
#[derive(Debug, Clone, Copy, PartialEq, Eq, Hash, Structural)]
pub struct Claim {
    pool_id: ResourcePoolId,
    interval: Interval,
    quantity: u64,
}

impl View for Claim {
    type V = ClaimView;

    closed spec fn view(&self) -> ClaimView {
        ClaimView { pool_id: self.pool_id, interval: self.interval@, quantity: self.quantity }
    }
}

impl Claim {
    #[verifier::type_invariant]
    spec fn kept_valid(&self) -> bool {
        self@.valid()
    }
}

impl Assured for Claim {
    fn assure(&self) {
        proof {
            use_type_invariant(self);
        }
    }
}

impl Claim {
    /// Creates a claim.
    pub fn new(pool_id: ResourcePoolId, interval: Interval, quantity: u64) -> (out: Result<
        Claim,
        DomainError,
    >)
        ensures
            match out {
                Ok(claim) => quantity > 0 && claim@ == (ClaimView {
                    pool_id,
                    interval: interval@,
                    quantity,
                }),
                Err(error) => quantity == 0 && error == DomainError::InvalidQuantity,
            },
    {
        if quantity == 0 {
            return Err(DomainError::InvalidQuantity);
        }
        interval.assure();
        Ok(Claim { pool_id, interval, quantity })
    }

    /// Returns the claimed pool.
    pub fn pool_id(&self) -> (out: ResourcePoolId)
        ensures
            out == self@.pool_id,
    {
        self.pool_id
    }

    /// Returns when the pool is claimed.
    pub fn interval(&self) -> (out: Interval)
        ensures
            out@ == self@.interval,
    {
        self.interval
    }

    /// Returns how much is claimed.
    pub fn quantity(&self) -> (out: u64)
        ensures
            out == self@.quantity,
    {
        self.quantity
    }
}

impl Wire for ClaimView {
    open spec fn valid(self) -> bool {
        &&& self.pool_id.valid()
        &&& self.interval.valid()
        &&& self.quantity > 0
    }

    open spec fn fits(self, limits: Limits) -> bool {
        &&& self.pool_id.fits(limits)
        &&& self.interval.fits(limits)
    }

    #[verifier::opaque]
    open spec fn enc(self) -> Enc {
        self.pool_id.enc().followed_by(
            self.interval.enc(),
        ).followed_by(
            self.quantity.enc(),
        )
    }

    #[verifier::opaque]
    open spec fn parse(data: Seq<u8>, pos: int, limits: Limits) -> Parsed<ClaimView> {
        match ResourcePoolId::parse(data, pos, limits) {
            Err(error) => Err(error),
            Ok((pool_id, p1)) => match IntervalView::parse(data, p1, limits) {
                Err(error) => Err(error),
                Ok((interval, p2)) => match u64::parse(data, p2, limits) {
                    Err(error) => Err(error),
                    Ok((quantity, stop)) => if quantity == 0 {
                        Err(StorageError::Domain(DomainError::InvalidQuantity))
                    } else {
                        Ok((ClaimView { pool_id, interval, quantity }, stop))
                    },
                },
            },
        }
    }

    proof fn lemma_parse(data: Seq<u8>, pos: int, limits: Limits, cut: int) {
        broadcast use {model::lemma_at_add, model::lemma_le_len};

        reveal(<ClaimView as Wire>::enc);
        reveal(<ClaimView as Wire>::parse);
        ResourcePoolId::lemma_parse(data, pos, limits, cut);
        if let Ok((_, p1)) = ResourcePoolId::parse(data, pos, limits) {
            IntervalView::lemma_parse(data, p1, limits, cut);
            if let Ok((_, p2)) = IntervalView::parse(data, p1, limits) {
                u64::lemma_parse(data, p2, limits, cut);
            }
        }
    }

    proof fn lemma_enc(self, data: Seq<u8>, pos: int, limits: Limits) {
        broadcast use {model::lemma_at_add, model::lemma_le_len};

        reveal(<ClaimView as Wire>::enc);
        reveal(<ClaimView as Wire>::parse);
        self.pool_id.lemma_enc(data, pos, limits);
        let p1 = pos + self.pool_id.enc().bytes.len();
        self.interval.lemma_enc(data, p1, limits);
        let p2 = p1 + self.interval.enc().bytes.len();
        self.quantity.lemma_enc(data, p2, limits);
    }

    proof fn lemma_fits(self, limits: Limits) {
        reveal(<ClaimView as Wire>::enc);
        self.pool_id.lemma_fits(limits);
        self.interval.lemma_fits(limits);
    }
}

impl Encode for Claim {
    fn encode(&self, writer: &mut Writer) -> (out: Result<(), StorageError>) {
        broadcast use crate::wire::writer::lemma_written_chain;

        reveal(<ClaimView as Wire>::enc);
        self.pool_id.encode(writer)?;
        self.interval.encode(writer)?;
        writer.u64(self.quantity);
        Ok(())
    }
}

impl Decode for Claim {
    fn decode(reader: &mut Reader) -> (out: Result<Claim, StorageError>) {
        reveal(<ClaimView as Wire>::parse);
        let pool_id = ResourcePoolId::decode(reader)?;
        let interval = Interval::decode(reader)?;
        let quantity = reader.u64()?;
        match Claim::new(pool_id, interval, quantity) {
            Ok(value) => Ok(value),
            Err(error) => Err(StorageError::Domain(error)),
        }
    }
}

/// The model of a [`Bundle`].
#[verifier::ext_equal]
pub struct BundleView {
    /// The claims in order.
    pub claims: Seq<ClaimView>,
}

/// Claims that are granted together or not at all.
#[derive(Debug, PartialEq, Eq)]
pub struct Bundle {
    claims: Vec<Claim>,
}

impl View for Bundle {
    type V = BundleView;

    closed spec fn view(&self) -> BundleView {
        BundleView { claims: model::views(self.claims@) }
    }
}

impl Clone for Bundle {
    fn clone(&self) -> (out: Bundle)
        ensures
            out@ == self@,
    {
        proof {
            use_type_invariant(self);
        }
        let claims = self.claims.clone();
        assert(model::views(claims@) =~= model::views(self.claims@));
        Bundle { claims }
    }
}

impl Bundle {
    #[verifier::type_invariant]
    spec fn kept_valid(&self) -> bool {
        self@.valid()
    }
}

impl Assured for Bundle {
    fn assure(&self) {
        proof {
            use_type_invariant(self);
        }
    }
}

impl Bundle {
    /// Creates a bundle.
    pub fn new(claims: Vec<Claim>) -> (out: Result<Bundle, DomainError>)
        ensures
            match out {
                Ok(value) => claims@.len() > 0 && value@ == (BundleView {
                    claims: model::views(claims@),
                }),
                Err(error) => claims@.len() == 0 && error == DomainError::EmptyBundle,
            },
    {
        if claims.len() == 0 {
            return Err(DomainError::EmptyBundle);
        }
        assure_all(claims.as_slice());
        Ok(Bundle { claims })
    }

    /// Returns the claims in the order in which they were given.
    pub fn claims(&self) -> (out: &[Claim])
        ensures
            model::views(out@) == self@.claims,
    {
        self.claims.as_slice()
    }
}

impl Wire for BundleView {
    open spec fn valid(self) -> bool {
        &&& model::all_valid(self.claims)
        &&& self.claims.len() > 0
    }

    open spec fn fits(self, limits: Limits) -> bool {
        model::list_fits(self.claims, limits)
    }

    #[verifier::opaque]
    open spec fn enc(self) -> Enc {
        model::enc_list("bundle claims", self.claims)
    }

    #[verifier::opaque]
    open spec fn parse(data: Seq<u8>, pos: int, limits: Limits) -> Parsed<BundleView> {
        match model::parse_list::<ClaimView>(data, pos, limits, "bundle claims") {
            Err(error) => Err(error),
            Ok((claims, stop)) => if claims.len() == 0 {
                Err(StorageError::Domain(DomainError::EmptyBundle))
            } else {
                Ok((BundleView { claims }, stop))
            },
        }
    }

    proof fn lemma_parse(data: Seq<u8>, pos: int, limits: Limits, cut: int) {
        broadcast use {model::lemma_at_add, model::lemma_le_len};

        reveal(<BundleView as Wire>::enc);
        reveal(<BundleView as Wire>::parse);
        model::lemma_parse_list::<ClaimView>(data, pos, limits, "bundle claims", cut);
    }

    proof fn lemma_enc(self, data: Seq<u8>, pos: int, limits: Limits) {
        broadcast use {model::lemma_at_add, model::lemma_le_len};

        reveal(<BundleView as Wire>::enc);
        reveal(<BundleView as Wire>::parse);
        model::lemma_list_enc(self.claims, data, pos, limits, "bundle claims");
    }

    proof fn lemma_fits(self, limits: Limits) {
        reveal(<BundleView as Wire>::enc);
        model::lemma_list_fits(self.claims, limits, "bundle claims");
    }
}

impl Encode for Bundle {
    fn encode(&self, writer: &mut Writer) -> (out: Result<(), StorageError>) {
        broadcast use crate::wire::writer::lemma_written_chain;

        reveal(<BundleView as Wire>::enc);
        writer.list("bundle claims", self.claims.as_slice())?;
        Ok(())
    }
}

impl Decode for Bundle {
    fn decode(reader: &mut Reader) -> (out: Result<Bundle, StorageError>) {
        reveal(<BundleView as Wire>::parse);
        let claims = reader.list::<Claim>("bundle claims")?;
        match Bundle::new(claims) {
            Ok(value) => Ok(value),
            Err(error) => Err(StorageError::Domain(error)),
        }
    }
}

/// The model of a [`Choice`].
#[verifier::ext_equal]
pub struct ChoiceView {
    /// The alternatives in order of preference.
    pub alternatives: Seq<BundleView>,
}

/// Bundles of which one is granted, the first that can be.
#[derive(Debug, PartialEq, Eq)]
pub struct Choice {
    alternatives: Vec<Bundle>,
}

impl View for Choice {
    type V = ChoiceView;

    closed spec fn view(&self) -> ChoiceView {
        ChoiceView { alternatives: model::views(self.alternatives@) }
    }
}

impl Clone for Choice {
    fn clone(&self) -> (out: Choice)
        ensures
            out@ == self@,
    {
        proof {
            use_type_invariant(self);
        }
        let alternatives = self.alternatives.clone();
        assert(model::views(alternatives@) =~= model::views(self.alternatives@));
        Choice { alternatives }
    }
}

impl Choice {
    #[verifier::type_invariant]
    spec fn kept_valid(&self) -> bool {
        self@.valid()
    }
}

impl Assured for Choice {
    fn assure(&self) {
        proof {
            use_type_invariant(self);
        }
    }
}

impl Choice {
    /// Creates a choice.
    pub fn new(alternatives: Vec<Bundle>) -> (out: Result<Choice, DomainError>)
        ensures
            match out {
                Ok(value) => alternatives@.len() > 0 && value@ == (ChoiceView {
                    alternatives: model::views(alternatives@),
                }),
                Err(error) => alternatives@.len() == 0 && error == DomainError::EmptyChoice,
            },
    {
        if alternatives.len() == 0 {
            return Err(DomainError::EmptyChoice);
        }
        assure_all(alternatives.as_slice());
        Ok(Choice { alternatives })
    }

    /// Returns the alternatives in the order in which they were given.
    pub fn alternatives(&self) -> (out: &[Bundle])
        ensures
            model::views(out@) == self@.alternatives,
    {
        self.alternatives.as_slice()
    }
}

impl Wire for ChoiceView {
    open spec fn valid(self) -> bool {
        &&& model::all_valid(self.alternatives)
        &&& self.alternatives.len() > 0
    }

    open spec fn fits(self, limits: Limits) -> bool {
        model::list_fits(self.alternatives, limits)
    }

    #[verifier::opaque]
    open spec fn enc(self) -> Enc {
        model::enc_list("choice alternatives", self.alternatives)
    }

    #[verifier::opaque]
    open spec fn parse(data: Seq<u8>, pos: int, limits: Limits) -> Parsed<ChoiceView> {
        match model::parse_list::<BundleView>(data, pos, limits, "choice alternatives") {
            Err(error) => Err(error),
            Ok((alternatives, stop)) => if alternatives.len() == 0 {
                Err(StorageError::Domain(DomainError::EmptyChoice))
            } else {
                Ok((ChoiceView { alternatives }, stop))
            },
        }
    }

    proof fn lemma_parse(data: Seq<u8>, pos: int, limits: Limits, cut: int) {
        broadcast use {model::lemma_at_add, model::lemma_le_len};

        reveal(<ChoiceView as Wire>::enc);
        reveal(<ChoiceView as Wire>::parse);
        model::lemma_parse_list::<BundleView>(data, pos, limits, "choice alternatives", cut);
    }

    proof fn lemma_enc(self, data: Seq<u8>, pos: int, limits: Limits) {
        broadcast use {model::lemma_at_add, model::lemma_le_len};

        reveal(<ChoiceView as Wire>::enc);
        reveal(<ChoiceView as Wire>::parse);
        model::lemma_list_enc(self.alternatives, data, pos, limits, "choice alternatives");
    }

    proof fn lemma_fits(self, limits: Limits) {
        reveal(<ChoiceView as Wire>::enc);
        model::lemma_list_fits(self.alternatives, limits, "choice alternatives");
    }
}

impl Encode for Choice {
    fn encode(&self, writer: &mut Writer) -> (out: Result<(), StorageError>) {
        broadcast use crate::wire::writer::lemma_written_chain;

        reveal(<ChoiceView as Wire>::enc);
        writer.list("choice alternatives", self.alternatives.as_slice())?;
        Ok(())
    }
}

impl Decode for Choice {
    fn decode(reader: &mut Reader) -> (out: Result<Choice, StorageError>) {
        reveal(<ChoiceView as Wire>::parse);
        let alternatives = reader.list::<Bundle>("choice alternatives")?;
        match Choice::new(alternatives) {
            Ok(value) => Ok(value),
            Err(error) => Err(StorageError::Domain(error)),
        }
    }
}

/// The model of a [`RelativeClaim`].
pub struct RelativeClaimView {
    /// The claimed pool.
    pub pool_id: ResourcePoolId,
    /// Offset of the first instant from the start of the slot.
    pub start_offset: i64,
    /// Offset of the first instant after the claim from the start of the slot.
    pub end_offset: i64,
    /// How much of the pool is claimed.
    pub quantity: u64,
}

/// A claim whose interval is placed relative to the start of a slot.
#[derive(Debug, Clone, Copy, PartialEq, Eq, Hash, Structural)]
pub struct RelativeClaim {
    pool_id: ResourcePoolId,
    start_offset: i64,
    end_offset: i64,
    quantity: u64,
}

impl View for RelativeClaim {
    type V = RelativeClaimView;

    closed spec fn view(&self) -> RelativeClaimView {
        RelativeClaimView {
            pool_id: self.pool_id,
            start_offset: self.start_offset,
            end_offset: self.end_offset,
            quantity: self.quantity,
        }
    }
}

impl RelativeClaim {
    #[verifier::type_invariant]
    spec fn kept_valid(&self) -> bool {
        self@.valid()
    }
}

impl Assured for RelativeClaim {
    fn assure(&self) {
        proof {
            use_type_invariant(self);
        }
    }
}

impl RelativeClaim {
    /// Creates a relative claim.
    pub fn new(
        pool_id: ResourcePoolId,
        start_offset: i64,
        end_offset: i64,
        quantity: u64,
    ) -> (out: Result<RelativeClaim, DomainError>)
        ensures
            match out {
                Ok(claim) => start_offset < end_offset && quantity > 0 && claim@ == (
                RelativeClaimView { pool_id, start_offset, end_offset, quantity }),
                Err(error) => if start_offset >= end_offset {
                    error == DomainError::InvalidInterval
                } else {
                    quantity == 0 && error == DomainError::InvalidQuantity
                },
            },
    {
        if start_offset >= end_offset {
            return Err(DomainError::InvalidInterval);
        }
        if quantity == 0 {
            return Err(DomainError::InvalidQuantity);
        }
        Ok(RelativeClaim { pool_id, start_offset, end_offset, quantity })
    }

    /// Returns the claimed pool.
    pub fn pool_id(&self) -> (out: ResourcePoolId)
        ensures
            out == self@.pool_id,
    {
        self.pool_id
    }

    /// Returns the offset of the first instant.
    pub fn start_offset(&self) -> (out: i64)
        ensures
            out == self@.start_offset,
    {
        self.start_offset
    }

    /// Returns the offset of the first instant after the claim.
    pub fn end_offset(&self) -> (out: i64)
        ensures
            out == self@.end_offset,
    {
        self.end_offset
    }

    /// Returns how much is claimed.
    pub fn quantity(&self) -> (out: u64)
        ensures
            out == self@.quantity,
    {
        self.quantity
    }
}

impl Wire for RelativeClaimView {
    open spec fn valid(self) -> bool {
        &&& self.pool_id.valid()
        &&& self.start_offset < self.end_offset
        &&& self.quantity > 0
    }

    open spec fn fits(self, limits: Limits) -> bool {
        self.pool_id.fits(limits)
    }

    #[verifier::opaque]
    open spec fn enc(self) -> Enc {
        self.pool_id.enc().followed_by(
            self.start_offset.enc(),
        ).followed_by(
            self.end_offset.enc(),
        ).followed_by(
            self.quantity.enc(),
        )
    }

    #[verifier::opaque]
    open spec fn parse(data: Seq<u8>, pos: int, limits: Limits) -> Parsed<RelativeClaimView> {
        match ResourcePoolId::parse(data, pos, limits) {
            Err(error) => Err(error),
            Ok((pool_id, p1)) => match i64::parse(data, p1, limits) {
                Err(error) => Err(error),
                Ok((start_offset, p2)) => match i64::parse(data, p2, limits) {
                    Err(error) => Err(error),
                    Ok((end_offset, p3)) => match u64::parse(data, p3, limits) {
                        Err(error) => Err(error),
                        Ok((quantity, stop)) => if start_offset >= end_offset {
                            Err(StorageError::Domain(DomainError::InvalidInterval))
                        } else if quantity == 0 {
                            Err(StorageError::Domain(DomainError::InvalidQuantity))
                        } else {
                            Ok(
                                (
                                    RelativeClaimView {
                                        pool_id,
                                        start_offset,
                                        end_offset,
                                        quantity,
                                    },
                                    stop,
                                ),
                            )
                        },
                    },
                },
            },
        }
    }

    proof fn lemma_parse(data: Seq<u8>, pos: int, limits: Limits, cut: int) {
        broadcast use {model::lemma_at_add, model::lemma_le_len};

        reveal(<RelativeClaimView as Wire>::enc);
        reveal(<RelativeClaimView as Wire>::parse);
        ResourcePoolId::lemma_parse(data, pos, limits, cut);
        if let Ok((_, p1)) = ResourcePoolId::parse(data, pos, limits) {
            i64::lemma_parse(data, p1, limits, cut);
            if let Ok((_, p2)) = i64::parse(data, p1, limits) {
                i64::lemma_parse(data, p2, limits, cut);
                if let Ok((_, p3)) = i64::parse(data, p2, limits) {
                    u64::lemma_parse(data, p3, limits, cut);
                }
            }
        }
    }

    proof fn lemma_enc(self, data: Seq<u8>, pos: int, limits: Limits) {
        broadcast use {model::lemma_at_add, model::lemma_le_len};

        reveal(<RelativeClaimView as Wire>::enc);
        reveal(<RelativeClaimView as Wire>::parse);
        self.pool_id.lemma_enc(data, pos, limits);
        let p1 = pos + self.pool_id.enc().bytes.len();
        self.start_offset.lemma_enc(data, p1, limits);
        let p2 = p1 + self.start_offset.enc().bytes.len();
        self.end_offset.lemma_enc(data, p2, limits);
        let p3 = p2 + self.end_offset.enc().bytes.len();
        self.quantity.lemma_enc(data, p3, limits);
    }

    proof fn lemma_fits(self, limits: Limits) {
        reveal(<RelativeClaimView as Wire>::enc);
        self.pool_id.lemma_fits(limits);
    }
}

impl Encode for RelativeClaim {
    fn encode(&self, writer: &mut Writer) -> (out: Result<(), StorageError>) {
        broadcast use crate::wire::writer::lemma_written_chain;

        reveal(<RelativeClaimView as Wire>::enc);
        self.pool_id.encode(writer)?;
        writer.i64(self.start_offset);
        writer.i64(self.end_offset);
        writer.u64(self.quantity);
        Ok(())
    }
}

impl Decode for RelativeClaim {
    fn decode(reader: &mut Reader) -> (out: Result<RelativeClaim, StorageError>) {
        reveal(<RelativeClaimView as Wire>::parse);
        let pool_id = ResourcePoolId::decode(reader)?;
        let start_offset = reader.i64()?;
        let end_offset = reader.i64()?;
        let quantity = reader.u64()?;
        match RelativeClaim::new(pool_id, start_offset, end_offset, quantity) {
            Ok(value) => Ok(value),
            Err(error) => Err(StorageError::Domain(error)),
        }
    }
}

/// The model of a [`RelativeBundle`].
#[verifier::ext_equal]
pub struct RelativeBundleView {
    /// The claims in order.
    pub claims: Seq<RelativeClaimView>,
}

/// Relative claims that are granted together for one slot.
#[derive(Debug, PartialEq, Eq)]
pub struct RelativeBundle {
    claims: Vec<RelativeClaim>,
}

impl View for RelativeBundle {
    type V = RelativeBundleView;

    closed spec fn view(&self) -> RelativeBundleView {
        RelativeBundleView { claims: model::views(self.claims@) }
    }
}

impl Clone for RelativeBundle {
    fn clone(&self) -> (out: RelativeBundle)
        ensures
            out@ == self@,
    {
        proof {
            use_type_invariant(self);
        }
        let claims = self.claims.clone();
        assert(model::views(claims@) =~= model::views(self.claims@));
        RelativeBundle { claims }
    }
}

impl RelativeBundle {
    #[verifier::type_invariant]
    spec fn kept_valid(&self) -> bool {
        self@.valid()
    }
}

impl Assured for RelativeBundle {
    fn assure(&self) {
        proof {
            use_type_invariant(self);
        }
    }
}

impl RelativeBundle {
    /// Creates a relative bundle.
    pub fn new(claims: Vec<RelativeClaim>) -> (out: Result<RelativeBundle, DomainError>)
        ensures
            match out {
                Ok(value) => claims@.len() > 0 && value@ == (RelativeBundleView {
                    claims: model::views(claims@),
                }),
                Err(error) => claims@.len() == 0 && error == DomainError::EmptyRelativeBundle,
            },
    {
        if claims.len() == 0 {
            return Err(DomainError::EmptyRelativeBundle);
        }
        assure_all(claims.as_slice());
        Ok(RelativeBundle { claims })
    }

    /// Returns the claims in the order in which they were given.
    pub fn claims(&self) -> (out: &[RelativeClaim])
        ensures
            model::views(out@) == self@.claims,
    {
        self.claims.as_slice()
    }
}

impl Wire for RelativeBundleView {
    open spec fn valid(self) -> bool {
        &&& model::all_valid(self.claims)
        &&& self.claims.len() > 0
    }

    open spec fn fits(self, limits: Limits) -> bool {
        model::list_fits(self.claims, limits)
    }

    #[verifier::opaque]
    open spec fn enc(self) -> Enc {
        model::enc_list("relative bundle claims", self.claims)
    }

    #[verifier::opaque]
    open spec fn parse(data: Seq<u8>, pos: int, limits: Limits) -> Parsed<RelativeBundleView> {
        match model::parse_list::<RelativeClaimView>(data, pos, limits, "relative bundle claims") {
            Err(error) => Err(error),
            Ok((claims, stop)) => if claims.len() == 0 {
                Err(StorageError::Domain(DomainError::EmptyRelativeBundle))
            } else {
                Ok((RelativeBundleView { claims }, stop))
            },
        }
    }

    proof fn lemma_parse(data: Seq<u8>, pos: int, limits: Limits, cut: int) {
        broadcast use {model::lemma_at_add, model::lemma_le_len};

        reveal(<RelativeBundleView as Wire>::enc);
        reveal(<RelativeBundleView as Wire>::parse);
        model::lemma_parse_list::<RelativeClaimView>(
            data,
            pos,
            limits,
            "relative bundle claims",
            cut,
        );
    }

    proof fn lemma_enc(self, data: Seq<u8>, pos: int, limits: Limits) {
        broadcast use {model::lemma_at_add, model::lemma_le_len};

        reveal(<RelativeBundleView as Wire>::enc);
        reveal(<RelativeBundleView as Wire>::parse);
        model::lemma_list_enc(self.claims, data, pos, limits, "relative bundle claims");
    }

    proof fn lemma_fits(self, limits: Limits) {
        reveal(<RelativeBundleView as Wire>::enc);
        model::lemma_list_fits(self.claims, limits, "relative bundle claims");
    }
}

impl Encode for RelativeBundle {
    fn encode(&self, writer: &mut Writer) -> (out: Result<(), StorageError>) {
        broadcast use crate::wire::writer::lemma_written_chain;

        reveal(<RelativeBundleView as Wire>::enc);
        writer.list("relative bundle claims", self.claims.as_slice())?;
        Ok(())
    }
}

impl Decode for RelativeBundle {
    fn decode(reader: &mut Reader) -> (out: Result<RelativeBundle, StorageError>) {
        reveal(<RelativeBundleView as Wire>::parse);
        let claims = reader.list::<RelativeClaim>("relative bundle claims")?;
        match RelativeBundle::new(claims) {
            Ok(value) => Ok(value),
            Err(error) => Err(StorageError::Domain(error)),
        }
    }
}

} // verus!

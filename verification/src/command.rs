//! Commands that clients submit.

use crate::domain::capacity::{CapacityCurve, CapacityCurveView, Unit, UnitView};
use crate::domain::claims::{
    Bundle, BundleView, Choice, ChoiceView, RelativeBundle, RelativeBundleView,
};
use crate::domain::ids::{PromiseId, ResourcePoolId};
use crate::domain::promise::{ReplacementState, Version};
use crate::error::StorageError;
use crate::wire::assured::Assured;
use crate::wire::model;
use crate::wire::model::{Enc, Limits, Parsed, Wire};
use crate::wire::reader::{Decode, Reader};
use crate::wire::writer::{Encode, Writer};
use vstd::prelude::*;

verus! {

/// Tag of [`CommandOperation::CreateResourcePool`].
pub const CREATE_POOL: u8 = 1;

/// Tag of [`CommandOperation::ReviseCapacity`].
pub const REVISE_CAPACITY: u8 = 2;

/// Tag of [`CommandOperation::Hold`].
pub const HOLD: u8 = 3;

/// Tag of [`CommandOperation::Commit`].
pub const COMMIT: u8 = 4;

/// Tag of [`CommandOperation::Release`].
pub const RELEASE: u8 = 5;

/// Tag of [`CommandOperation::Replace`].
pub const REPLACE: u8 = 6;

/// Tag of [`CommandOperation::ProcessExpirations`].
pub const PROCESS_EXPIRATIONS: u8 = 7;

/// Tag of [`CommandOperation::HoldOneOf`].
pub const HOLD_ONE_OF: u8 = 8;

/// Tag of [`CommandOperation::HoldFirstSlot`].
pub const HOLD_FIRST_SLOT: u8 = 9;

/// Identity of a client.
#[derive(Debug, PartialEq, Eq)]
pub struct ClientId {
    value: String,
}

impl View for ClientId {
    type V = Seq<char>;

    closed spec fn view(&self) -> Seq<char> {
        self.value@
    }
}

impl Clone for ClientId {
    fn clone(&self) -> (out: ClientId)
        ensures
            out@ == self@,
    {
        ClientId { value: self.value.clone() }
    }
}

impl ClientId {
    /// Creates an identity.
    pub fn new(value: String) -> (out: ClientId)
        ensures
            out@ == value@,
    {
        ClientId { value }
    }

    /// Returns the text.
    pub fn as_str(&self) -> (out: &str)
        ensures
            out@ == self@,
    {
        self.value.as_str()
    }
}

/// Key under which a client repeats a command.
#[derive(Debug, PartialEq, Eq)]
pub struct IdempotencyKey {
    value: String,
}

impl View for IdempotencyKey {
    type V = Seq<char>;

    closed spec fn view(&self) -> Seq<char> {
        self.value@
    }
}

impl Clone for IdempotencyKey {
    fn clone(&self) -> (out: IdempotencyKey)
        ensures
            out@ == self@,
    {
        IdempotencyKey { value: self.value.clone() }
    }
}

impl IdempotencyKey {
    /// Creates a key.
    pub fn new(value: String) -> (out: IdempotencyKey)
        ensures
            out@ == value@,
    {
        IdempotencyKey { value }
    }

    /// Returns the text.
    pub fn as_str(&self) -> (out: &str)
        ensures
            out@ == self@,
    {
        self.value.as_str()
    }
}

/// Whether a capacity revision may create deficits.
#[derive(Debug, Clone, Copy, PartialEq, Eq, Hash, Structural)]
pub enum CapacityRevisionMode {
    /// A revision that would create a deficit is refused.
    Strict,
    /// Deficits are created and reported.
    Force,
}

impl View for CapacityRevisionMode {
    type V = CapacityRevisionMode;

    open spec fn view(&self) -> CapacityRevisionMode {
        *self
    }
}

impl Wire for CapacityRevisionMode {
    open spec fn valid(self) -> bool {
        match self {
            CapacityRevisionMode::Strict => {
                true
            },
            CapacityRevisionMode::Force => {
                true
            },
        }
    }

    open spec fn fits(self, limits: Limits) -> bool {
        match self {
            CapacityRevisionMode::Strict => {
                true
            },
            CapacityRevisionMode::Force => {
                true
            },
        }
    }

    #[verifier::opaque]
    open spec fn enc(self) -> Enc {
        match self {
            CapacityRevisionMode::Strict => 1u8.enc(),
            CapacityRevisionMode::Force => 2u8.enc(),
        }
    }

    #[verifier::opaque]
    open spec fn parse(data: Seq<u8>, pos: int, limits: Limits) -> Parsed<CapacityRevisionMode> {
        match u8::parse(data, pos, limits) {
            Err(error) => Err(error),
            Ok((tag, p0)) => {
                if tag == 1u8 {
                    Ok((CapacityRevisionMode::Strict, p0))
                } else if tag == 2u8 {
                    Ok((CapacityRevisionMode::Force, p0))
                } else {
                    Err(StorageError::InvalidTag { kind: "capacity revision mode", tag })
                }
            },
        }
    }

    proof fn lemma_parse(data: Seq<u8>, pos: int, limits: Limits, cut: int) {
        broadcast use {model::lemma_at_add, model::lemma_le_len};

        reveal(<CapacityRevisionMode as Wire>::enc);
        reveal(<CapacityRevisionMode as Wire>::parse);
        u8::lemma_parse(data, pos, limits, cut);
        if let Ok((tag, p0)) = u8::parse(data, pos, limits) {
            if tag == 1u8 {
            } else if tag == 2u8 {
            }
        }
    }

    proof fn lemma_enc(self, data: Seq<u8>, pos: int, limits: Limits) {
        broadcast use {model::lemma_at_add, model::lemma_le_len};

        reveal(<CapacityRevisionMode as Wire>::enc);
        reveal(<CapacityRevisionMode as Wire>::parse);
        let p0 = pos + 1;
        match self {
            CapacityRevisionMode::Strict => {
                u8::lemma_enc(1u8, data, pos, limits);
            },
            CapacityRevisionMode::Force => {
                u8::lemma_enc(2u8, data, pos, limits);
            },
        }
    }

    proof fn lemma_fits(self, limits: Limits) {
        reveal(<CapacityRevisionMode as Wire>::enc);
        match self {
            CapacityRevisionMode::Strict => {},
            CapacityRevisionMode::Force => {},
        }
    }
}

impl Encode for CapacityRevisionMode {
    fn encode(&self, writer: &mut Writer) -> (out: Result<(), StorageError>) {
        broadcast use crate::wire::writer::lemma_written_chain;

        reveal(<CapacityRevisionMode as Wire>::enc);
        match self {
            CapacityRevisionMode::Strict => {
                writer.u8(1u8);
            },
            CapacityRevisionMode::Force => {
                writer.u8(2u8);
            },
        }
        Ok(())
    }
}

impl Decode for CapacityRevisionMode {
    fn decode(reader: &mut Reader) -> (out: Result<CapacityRevisionMode, StorageError>) {
        reveal(<CapacityRevisionMode as Wire>::parse);
        let tag = reader.u8()?;
        if tag == 1u8 {
            Ok(CapacityRevisionMode::Strict)
        } else if tag == 2u8 {
            Ok(CapacityRevisionMode::Force)
        } else {
            Err(StorageError::InvalidTag { kind: "capacity revision mode", tag })
        }
    }
}

/// The model of a [`CommandOperation`].
#[verifier::ext_equal]
pub enum CommandOperationView {
    /// Creates a resource pool.
    CreateResourcePool {
        /// The pool.
        resource_pool_id: ResourcePoolId,
        /// Name shown to people.
        display_name: Seq<char>,
        /// What the pool counts.
        unit: UnitView,
        /// Capacity over time.
        capacity_curve: CapacityCurveView,
    },
    /// Replaces the capacity of a pool.
    ReviseCapacity {
        /// The pool.
        resource_pool_id: ResourcePoolId,
        /// Capacity over time.
        capacity_curve: CapacityCurveView,
        /// Whether deficits are admitted.
        mode: CapacityRevisionMode,
    },
    /// Holds a bundle.
    Hold {
        /// The promise.
        promise_id: PromiseId,
        /// The claims.
        bundle: BundleView,
        /// When the hold expires.
        expires_at: i64,
    },
    /// Commits a held promise.
    Commit {
        /// The promise.
        promise_id: PromiseId,
        /// Version that the promise must have.
        expected_version: u64,
    },
    /// Gives the claims of a promise back.
    Release {
        /// The promise.
        promise_id: PromiseId,
        /// Version that the promise must have.
        expected_version: u64,
    },
    /// Replaces the claims and the state of a promise.
    Replace {
        /// The promise.
        promise_id: PromiseId,
        /// Version that the promise must have.
        expected_version: u64,
        /// The new claims.
        new_bundle: BundleView,
        /// The new state.
        new_state: ReplacementState,
    },
    /// Expires every hold that has run out.
    ProcessExpirations,
    /// Holds the first available alternative.
    HoldOneOf {
        /// The promise.
        promise_id: PromiseId,
        /// The alternatives.
        choice: ChoiceView,
        /// When the hold expires.
        expires_at: i64,
    },
    /// Holds the first available slot.
    HoldFirstSlot {
        /// The promise.
        promise_id: PromiseId,
        /// The claims relative to the start of the slot.
        relative_bundle: RelativeBundleView,
        /// First start that is tried.
        earliest_start: i64,
        /// Last start that may be tried.
        latest_start: i64,
        /// Distance between the starts that are tried.
        step: i64,
        /// When the hold expires.
        expires_at: i64,
    },
}

/// What a command asks for.
#[derive(Debug, PartialEq, Eq)]
pub enum CommandOperation {
    /// Creates a resource pool.
    CreateResourcePool {
        /// The pool.
        resource_pool_id: ResourcePoolId,
        /// Name shown to people.
        display_name: String,
        /// What the pool counts.
        unit: Unit,
        /// Capacity over time.
        capacity_curve: CapacityCurve,
    },
    /// Replaces the capacity of a pool.
    ReviseCapacity {
        /// The pool.
        resource_pool_id: ResourcePoolId,
        /// Capacity over time.
        capacity_curve: CapacityCurve,
        /// Whether deficits are admitted.
        mode: CapacityRevisionMode,
    },
    /// Holds a bundle.
    Hold {
        /// The promise.
        promise_id: PromiseId,
        /// The claims.
        bundle: Bundle,
        /// When the hold expires.
        expires_at: i64,
    },
    /// Commits a held promise.
    Commit {
        /// The promise.
        promise_id: PromiseId,
        /// Version that the promise must have.
        expected_version: Version,
    },
    /// Gives the claims of a promise back.
    Release {
        /// The promise.
        promise_id: PromiseId,
        /// Version that the promise must have.
        expected_version: Version,
    },
    /// Replaces the claims and the state of a promise.
    Replace {
        /// The promise.
        promise_id: PromiseId,
        /// Version that the promise must have.
        expected_version: Version,
        /// The new claims.
        new_bundle: Bundle,
        /// The new state.
        new_state: ReplacementState,
    },
    /// Expires every hold that has run out.
    ProcessExpirations,
    /// Holds the first available alternative.
    HoldOneOf {
        /// The promise.
        promise_id: PromiseId,
        /// The alternatives.
        choice: Choice,
        /// When the hold expires.
        expires_at: i64,
    },
    /// Holds the first available slot.
    HoldFirstSlot {
        /// The promise.
        promise_id: PromiseId,
        /// The claims relative to the start of the slot.
        relative_bundle: RelativeBundle,
        /// First start that is tried.
        earliest_start: i64,
        /// Last start that may be tried.
        latest_start: i64,
        /// Distance between the starts that are tried.
        step: i64,
        /// When the hold expires.
        expires_at: i64,
    },
}

impl View for CommandOperation {
    type V = CommandOperationView;

    open spec fn view(&self) -> CommandOperationView {
        match self {
            CommandOperation::CreateResourcePool {
                resource_pool_id,
                display_name,
                unit,
                capacity_curve,
            } => CommandOperationView::CreateResourcePool {
                resource_pool_id: *resource_pool_id,
                display_name: display_name@,
                unit: unit@,
                capacity_curve: capacity_curve@,
            },
            CommandOperation::ReviseCapacity {
                resource_pool_id,
                capacity_curve,
                mode,
            } => CommandOperationView::ReviseCapacity {
                resource_pool_id: *resource_pool_id,
                capacity_curve: capacity_curve@,
                mode: *mode,
            },
            CommandOperation::Hold {
                promise_id,
                bundle,
                expires_at,
            } => CommandOperationView::Hold {
                promise_id: *promise_id,
                bundle: bundle@,
                expires_at: *expires_at,
            },
            CommandOperation::Commit {
                promise_id,
                expected_version,
            } => CommandOperationView::Commit {
                promise_id: *promise_id,
                expected_version: expected_version@,
            },
            CommandOperation::Release {
                promise_id,
                expected_version,
            } => CommandOperationView::Release {
                promise_id: *promise_id,
                expected_version: expected_version@,
            },
            CommandOperation::Replace {
                promise_id,
                expected_version,
                new_bundle,
                new_state,
            } => CommandOperationView::Replace {
                promise_id: *promise_id,
                expected_version: expected_version@,
                new_bundle: new_bundle@,
                new_state: *new_state,
            },
            CommandOperation::ProcessExpirations => CommandOperationView::ProcessExpirations,
            CommandOperation::HoldOneOf {
                promise_id,
                choice,
                expires_at,
            } => CommandOperationView::HoldOneOf {
                promise_id: *promise_id,
                choice: choice@,
                expires_at: *expires_at,
            },
            CommandOperation::HoldFirstSlot {
                promise_id,
                relative_bundle,
                earliest_start,
                latest_start,
                step,
                expires_at,
            } => CommandOperationView::HoldFirstSlot {
                promise_id: *promise_id,
                relative_bundle: relative_bundle@,
                earliest_start: *earliest_start,
                latest_start: *latest_start,
                step: *step,
                expires_at: *expires_at,
            },
        }
    }
}

impl Clone for CommandOperation {
    fn clone(&self) -> (out: CommandOperation)
        ensures
            out@ == self@,
    {
        match self {
            CommandOperation::CreateResourcePool { resource_pool_id, display_name, unit, capacity_curve } => {
                CommandOperation::CreateResourcePool {
                    resource_pool_id: *resource_pool_id,
                    display_name: display_name.clone(),
                    unit: unit.clone(),
                    capacity_curve: capacity_curve.clone(),
                }
            },
            CommandOperation::ReviseCapacity { resource_pool_id, capacity_curve, mode } => {
                CommandOperation::ReviseCapacity {
                    resource_pool_id: *resource_pool_id,
                    capacity_curve: capacity_curve.clone(),
                    mode: *mode,
                }
            },
            CommandOperation::Hold { promise_id, bundle, expires_at } => {
                CommandOperation::Hold {
                    promise_id: *promise_id,
                    bundle: bundle.clone(),
                    expires_at: *expires_at,
                }
            },
            CommandOperation::Commit { promise_id, expected_version } => {
                CommandOperation::Commit {
                    promise_id: *promise_id,
                    expected_version: *expected_version,
                }
            },
            CommandOperation::Release { promise_id, expected_version } => {
                CommandOperation::Release {
                    promise_id: *promise_id,
                    expected_version: *expected_version,
                }
            },
            CommandOperation::Replace { promise_id, expected_version, new_bundle, new_state } => {
                CommandOperation::Replace {
                    promise_id: *promise_id,
                    expected_version: *expected_version,
                    new_bundle: new_bundle.clone(),
                    new_state: *new_state,
                }
            },
            CommandOperation::ProcessExpirations => CommandOperation::ProcessExpirations,
            CommandOperation::HoldOneOf { promise_id, choice, expires_at } => {
                CommandOperation::HoldOneOf {
                    promise_id: *promise_id,
                    choice: choice.clone(),
                    expires_at: *expires_at,
                }
            },
            CommandOperation::HoldFirstSlot { promise_id, relative_bundle, earliest_start, latest_start, step, expires_at } => {
                CommandOperation::HoldFirstSlot {
                    promise_id: *promise_id,
                    relative_bundle: relative_bundle.clone(),
                    earliest_start: *earliest_start,
                    latest_start: *latest_start,
                    step: *step,
                    expires_at: *expires_at,
                }
            },
        }
    }
}

/// What the lemma on decoding promises of [`CommandOperationView`].
spec fn command_operation_sound(data: Seq<u8>, pos: int, limits: Limits, cut: int) -> bool {
    CommandOperationView::parse(data, pos, limits) matches Ok((value, end)) ==> {
        &&& pos <= end <= data.len()
        &&& value.valid()
        &&& value.fits(limits)
        &&& value.enc().ok()
        &&& end == pos + value.enc().bytes.len()
        &&& model::at(data, pos, value.enc().bytes)
        &&& pos <= cut <= data.len() ==> CommandOperationView::parse(data.take(cut), pos, limits)
            == model::cut_off((value, end), cut)
    }
}

proof fn lemma_parse_create_resource_pool(data: Seq<u8>, pos: int, limits: Limits, cut: int)
    requires
        0 <= pos <= data.len(),
        u8::parse(data, pos, limits) matches Ok((tag, _)) && tag == CREATE_POOL,
    ensures
        command_operation_sound(data, pos, limits, cut),
{
    broadcast use {model::lemma_at_add, model::lemma_le_len};

    reveal(<CommandOperationView as Wire>::enc);
    reveal(<CommandOperationView as Wire>::parse);
    u8::lemma_parse(data, pos, limits, cut);
    let p0 = pos + 1;
    ResourcePoolId::lemma_parse(data, p0, limits, cut);
    if let Ok((_, p1)) = ResourcePoolId::parse(data, p0, limits) {
        model::lemma_parse_string(data, p1, limits, "display name", cut);
        if let Ok((_, p2)) = model::parse_string(data, p1, limits, "display name") {
            UnitView::lemma_parse(data, p2, limits, cut);
            if let Ok((_, p3)) = UnitView::parse(data, p2, limits) {
                CapacityCurveView::lemma_parse(data, p3, limits, cut);
            }
        }
    }
}

proof fn lemma_parse_revise_capacity(data: Seq<u8>, pos: int, limits: Limits, cut: int)
    requires
        0 <= pos <= data.len(),
        u8::parse(data, pos, limits) matches Ok((tag, _)) && tag == REVISE_CAPACITY,
    ensures
        command_operation_sound(data, pos, limits, cut),
{
    broadcast use {model::lemma_at_add, model::lemma_le_len};

    reveal(<CommandOperationView as Wire>::enc);
    reveal(<CommandOperationView as Wire>::parse);
    u8::lemma_parse(data, pos, limits, cut);
    let p0 = pos + 1;
    ResourcePoolId::lemma_parse(data, p0, limits, cut);
    if let Ok((_, p1)) = ResourcePoolId::parse(data, p0, limits) {
        CapacityCurveView::lemma_parse(data, p1, limits, cut);
        if let Ok((_, p2)) = CapacityCurveView::parse(data, p1, limits) {
            CapacityRevisionMode::lemma_parse(data, p2, limits, cut);
        }
    }
}

proof fn lemma_parse_hold(data: Seq<u8>, pos: int, limits: Limits, cut: int)
    requires
        0 <= pos <= data.len(),
        u8::parse(data, pos, limits) matches Ok((tag, _)) && tag == HOLD,
    ensures
        command_operation_sound(data, pos, limits, cut),
{
    broadcast use {model::lemma_at_add, model::lemma_le_len};

    reveal(<CommandOperationView as Wire>::enc);
    reveal(<CommandOperationView as Wire>::parse);
    u8::lemma_parse(data, pos, limits, cut);
    let p0 = pos + 1;
    PromiseId::lemma_parse(data, p0, limits, cut);
    if let Ok((_, p1)) = PromiseId::parse(data, p0, limits) {
        BundleView::lemma_parse(data, p1, limits, cut);
        if let Ok((_, p2)) = BundleView::parse(data, p1, limits) {
            i64::lemma_parse(data, p2, limits, cut);
        }
    }
}

proof fn lemma_parse_commit(data: Seq<u8>, pos: int, limits: Limits, cut: int)
    requires
        0 <= pos <= data.len(),
        u8::parse(data, pos, limits) matches Ok((tag, _)) && tag == COMMIT,
    ensures
        command_operation_sound(data, pos, limits, cut),
{
    broadcast use {model::lemma_at_add, model::lemma_le_len};

    reveal(<CommandOperationView as Wire>::enc);
    reveal(<CommandOperationView as Wire>::parse);
    u8::lemma_parse(data, pos, limits, cut);
    let p0 = pos + 1;
    PromiseId::lemma_parse(data, p0, limits, cut);
    if let Ok((_, p1)) = PromiseId::parse(data, p0, limits) {
        model::lemma_parse_version(data, p1, "promise version must be non-zero", cut);
    }
}

proof fn lemma_parse_release(data: Seq<u8>, pos: int, limits: Limits, cut: int)
    requires
        0 <= pos <= data.len(),
        u8::parse(data, pos, limits) matches Ok((tag, _)) && tag == RELEASE,
    ensures
        command_operation_sound(data, pos, limits, cut),
{
    broadcast use {model::lemma_at_add, model::lemma_le_len};

    reveal(<CommandOperationView as Wire>::enc);
    reveal(<CommandOperationView as Wire>::parse);
    u8::lemma_parse(data, pos, limits, cut);
    let p0 = pos + 1;
    PromiseId::lemma_parse(data, p0, limits, cut);
    if let Ok((_, p1)) = PromiseId::parse(data, p0, limits) {
        model::lemma_parse_version(data, p1, "promise version must be non-zero", cut);
    }
}

proof fn lemma_parse_replace(data: Seq<u8>, pos: int, limits: Limits, cut: int)
    requires
        0 <= pos <= data.len(),
        u8::parse(data, pos, limits) matches Ok((tag, _)) && tag == REPLACE,
    ensures
        command_operation_sound(data, pos, limits, cut),
{
    broadcast use {model::lemma_at_add, model::lemma_le_len};

    reveal(<CommandOperationView as Wire>::enc);
    reveal(<CommandOperationView as Wire>::parse);
    u8::lemma_parse(data, pos, limits, cut);
    let p0 = pos + 1;
    PromiseId::lemma_parse(data, p0, limits, cut);
    if let Ok((_, p1)) = PromiseId::parse(data, p0, limits) {
        model::lemma_parse_version(data, p1, "promise version must be non-zero", cut);
        if let Ok((_, p2)) = model::parse_version(data, p1, "promise version must be non-zero") {
            BundleView::lemma_parse(data, p2, limits, cut);
            if let Ok((_, p3)) = BundleView::parse(data, p2, limits) {
                ReplacementState::lemma_parse(data, p3, limits, cut);
            }
        }
    }
}

proof fn lemma_parse_process_expirations(data: Seq<u8>, pos: int, limits: Limits, cut: int)
    requires
        0 <= pos <= data.len(),
        u8::parse(data, pos, limits) matches Ok((tag, _)) && tag == PROCESS_EXPIRATIONS,
    ensures
        command_operation_sound(data, pos, limits, cut),
{
    broadcast use {model::lemma_at_add, model::lemma_le_len};

    reveal(<CommandOperationView as Wire>::enc);
    reveal(<CommandOperationView as Wire>::parse);
    u8::lemma_parse(data, pos, limits, cut);
    let p0 = pos + 1;

}

proof fn lemma_parse_hold_one_of(data: Seq<u8>, pos: int, limits: Limits, cut: int)
    requires
        0 <= pos <= data.len(),
        u8::parse(data, pos, limits) matches Ok((tag, _)) && tag == HOLD_ONE_OF,
    ensures
        command_operation_sound(data, pos, limits, cut),
{
    broadcast use {model::lemma_at_add, model::lemma_le_len};

    reveal(<CommandOperationView as Wire>::enc);
    reveal(<CommandOperationView as Wire>::parse);
    u8::lemma_parse(data, pos, limits, cut);
    let p0 = pos + 1;
    PromiseId::lemma_parse(data, p0, limits, cut);
    if let Ok((_, p1)) = PromiseId::parse(data, p0, limits) {
        ChoiceView::lemma_parse(data, p1, limits, cut);
        if let Ok((_, p2)) = ChoiceView::parse(data, p1, limits) {
            i64::lemma_parse(data, p2, limits, cut);
        }
    }
}

proof fn lemma_parse_hold_first_slot(data: Seq<u8>, pos: int, limits: Limits, cut: int)
    requires
        0 <= pos <= data.len(),
        u8::parse(data, pos, limits) matches Ok((tag, _)) && tag == HOLD_FIRST_SLOT,
    ensures
        command_operation_sound(data, pos, limits, cut),
{
    broadcast use {model::lemma_at_add, model::lemma_le_len};

    reveal(<CommandOperationView as Wire>::enc);
    reveal(<CommandOperationView as Wire>::parse);
    u8::lemma_parse(data, pos, limits, cut);
    let p0 = pos + 1;
    PromiseId::lemma_parse(data, p0, limits, cut);
    if let Ok((_, p1)) = PromiseId::parse(data, p0, limits) {
        RelativeBundleView::lemma_parse(data, p1, limits, cut);
        if let Ok((_, p2)) = RelativeBundleView::parse(data, p1, limits) {
            i64::lemma_parse(data, p2, limits, cut);
            if let Ok((_, p3)) = i64::parse(data, p2, limits) {
                i64::lemma_parse(data, p3, limits, cut);
                if let Ok((_, p4)) = i64::parse(data, p3, limits) {
                    i64::lemma_parse(data, p4, limits, cut);
                    if let Ok((_, p5)) = i64::parse(data, p4, limits) {
                        i64::lemma_parse(data, p5, limits, cut);
                    }
                }
            }
        }
    }
}

impl Wire for CommandOperationView {
    open spec fn valid(self) -> bool {
        match self {
            CommandOperationView::CreateResourcePool {
                resource_pool_id,
                display_name,
                unit,
                capacity_curve,
            } => {
                &&& resource_pool_id.valid()
                &&& unit.valid()
                &&& capacity_curve.valid()
            },
            CommandOperationView::ReviseCapacity { resource_pool_id, capacity_curve, mode } => {
                &&& resource_pool_id.valid()
                &&& capacity_curve.valid()
                &&& mode.valid()
            },
            CommandOperationView::Hold { promise_id, bundle, expires_at } => {
                &&& promise_id.valid()
                &&& bundle.valid()
            },
            CommandOperationView::Commit { promise_id, expected_version } => {
                &&& promise_id.valid()
                &&& expected_version != 0
            },
            CommandOperationView::Release { promise_id, expected_version } => {
                &&& promise_id.valid()
                &&& expected_version != 0
            },
            CommandOperationView::Replace {
                promise_id,
                expected_version,
                new_bundle,
                new_state,
            } => {
                &&& promise_id.valid()
                &&& expected_version != 0
                &&& new_bundle.valid()
                &&& new_state.valid()
            },
            CommandOperationView::ProcessExpirations => {
                true
            },
            CommandOperationView::HoldOneOf { promise_id, choice, expires_at } => {
                &&& promise_id.valid()
                &&& choice.valid()
            },
            CommandOperationView::HoldFirstSlot {
                promise_id,
                relative_bundle,
                earliest_start,
                latest_start,
                step,
                expires_at,
            } => {
                &&& promise_id.valid()
                &&& relative_bundle.valid()
            },
        }
    }

    open spec fn fits(self, limits: Limits) -> bool {
        match self {
            CommandOperationView::CreateResourcePool {
                resource_pool_id,
                display_name,
                unit,
                capacity_curve,
            } => {
                &&& resource_pool_id.fits(limits)
                &&& model::string_fits(display_name, limits)
                &&& unit.fits(limits)
                &&& capacity_curve.fits(limits)
            },
            CommandOperationView::ReviseCapacity { resource_pool_id, capacity_curve, mode } => {
                &&& resource_pool_id.fits(limits)
                &&& capacity_curve.fits(limits)
                &&& mode.fits(limits)
            },
            CommandOperationView::Hold { promise_id, bundle, expires_at } => {
                &&& promise_id.fits(limits)
                &&& bundle.fits(limits)
            },
            CommandOperationView::Commit { promise_id, expected_version } => {
                promise_id.fits(limits)
            },
            CommandOperationView::Release { promise_id, expected_version } => {
                promise_id.fits(limits)
            },
            CommandOperationView::Replace {
                promise_id,
                expected_version,
                new_bundle,
                new_state,
            } => {
                &&& promise_id.fits(limits)
                &&& new_bundle.fits(limits)
                &&& new_state.fits(limits)
            },
            CommandOperationView::ProcessExpirations => {
                true
            },
            CommandOperationView::HoldOneOf { promise_id, choice, expires_at } => {
                &&& promise_id.fits(limits)
                &&& choice.fits(limits)
            },
            CommandOperationView::HoldFirstSlot {
                promise_id,
                relative_bundle,
                earliest_start,
                latest_start,
                step,
                expires_at,
            } => {
                &&& promise_id.fits(limits)
                &&& relative_bundle.fits(limits)
            },
        }
    }

    #[verifier::opaque]
    open spec fn enc(self) -> Enc {
        match self {
            CommandOperationView::CreateResourcePool {
                resource_pool_id,
                display_name,
                unit,
                capacity_curve,
            } => CREATE_POOL.enc().followed_by(
                resource_pool_id.enc(),
            ).followed_by(
                model::enc_string("display name", display_name),
            ).followed_by(
                unit.enc(),
            ).followed_by(
                capacity_curve.enc(),
            ),
            CommandOperationView::ReviseCapacity {
                resource_pool_id,
                capacity_curve,
                mode,
            } => REVISE_CAPACITY.enc().followed_by(
                resource_pool_id.enc(),
            ).followed_by(
                capacity_curve.enc(),
            ).followed_by(
                mode.enc(),
            ),
            CommandOperationView::Hold { promise_id, bundle, expires_at } => HOLD.enc().followed_by(
                promise_id.enc(),
            ).followed_by(
                bundle.enc(),
            ).followed_by(
                expires_at.enc(),
            ),
            CommandOperationView::Commit {
                promise_id,
                expected_version,
            } => COMMIT.enc().followed_by(
                promise_id.enc(),
            ).followed_by(
                expected_version.enc(),
            ),
            CommandOperationView::Release {
                promise_id,
                expected_version,
            } => RELEASE.enc().followed_by(
                promise_id.enc(),
            ).followed_by(
                expected_version.enc(),
            ),
            CommandOperationView::Replace {
                promise_id,
                expected_version,
                new_bundle,
                new_state,
            } => REPLACE.enc().followed_by(
                promise_id.enc(),
            ).followed_by(
                expected_version.enc(),
            ).followed_by(
                new_bundle.enc(),
            ).followed_by(
                new_state.enc(),
            ),
            CommandOperationView::ProcessExpirations => PROCESS_EXPIRATIONS.enc(),
            CommandOperationView::HoldOneOf {
                promise_id,
                choice,
                expires_at,
            } => HOLD_ONE_OF.enc().followed_by(
                promise_id.enc(),
            ).followed_by(
                choice.enc(),
            ).followed_by(
                expires_at.enc(),
            ),
            CommandOperationView::HoldFirstSlot {
                promise_id,
                relative_bundle,
                earliest_start,
                latest_start,
                step,
                expires_at,
            } => HOLD_FIRST_SLOT.enc().followed_by(
                promise_id.enc(),
            ).followed_by(
                relative_bundle.enc(),
            ).followed_by(
                earliest_start.enc(),
            ).followed_by(
                latest_start.enc(),
            ).followed_by(
                step.enc(),
            ).followed_by(
                expires_at.enc(),
            ),
        }
    }

    #[verifier::opaque]
    open spec fn parse(data: Seq<u8>, pos: int, limits: Limits) -> Parsed<CommandOperationView> {
        match u8::parse(data, pos, limits) {
            Err(error) => Err(error),
            Ok((tag, p0)) => {
                if tag == CREATE_POOL {
                    match ResourcePoolId::parse(data, p0, limits) {
                        Err(error) => Err(error),
                        Ok((resource_pool_id, p1)) => match model::parse_string(
                            data,
                            p1,
                            limits,
                            "display name",
                        ) {
                            Err(error) => Err(error),
                            Ok((display_name, p2)) => match UnitView::parse(data, p2, limits) {
                                Err(error) => Err(error),
                                Ok((unit, p3)) => match CapacityCurveView::parse(data, p3, limits) {
                                    Err(error) => Err(error),
                                    Ok((capacity_curve, stop)) => Ok(
                                        (
                                            CommandOperationView::CreateResourcePool {
                                                resource_pool_id,
                                                display_name,
                                                unit,
                                                capacity_curve,
                                            },
                                            stop,
                                        ),
                                    ),
                                },
                            },
                        },
                    }
                } else if tag == REVISE_CAPACITY {
                    match ResourcePoolId::parse(data, p0, limits) {
                        Err(error) => Err(error),
                        Ok(
                            (resource_pool_id, p1),
                        ) => match CapacityCurveView::parse(data, p1, limits) {
                            Err(error) => Err(error),
                            Ok(
                                (capacity_curve, p2),
                            ) => match CapacityRevisionMode::parse(data, p2, limits) {
                                Err(error) => Err(error),
                                Ok((mode, stop)) => Ok(
                                    (
                                        CommandOperationView::ReviseCapacity {
                                            resource_pool_id,
                                            capacity_curve,
                                            mode,
                                        },
                                        stop,
                                    ),
                                ),
                            },
                        },
                    }
                } else if tag == HOLD {
                    match PromiseId::parse(data, p0, limits) {
                        Err(error) => Err(error),
                        Ok((promise_id, p1)) => match BundleView::parse(data, p1, limits) {
                            Err(error) => Err(error),
                            Ok((bundle, p2)) => match i64::parse(data, p2, limits) {
                                Err(error) => Err(error),
                                Ok((expires_at, stop)) => Ok(
                                    (
                                        CommandOperationView::Hold {
                                            promise_id,
                                            bundle,
                                            expires_at,
                                        },
                                        stop,
                                    ),
                                ),
                            },
                        },
                    }
                } else if tag == COMMIT {
                    match PromiseId::parse(data, p0, limits) {
                        Err(error) => Err(error),
                        Ok((promise_id, p1)) => match model::parse_version(
                            data,
                            p1,
                            "promise version must be non-zero",
                        ) {
                            Err(error) => Err(error),
                            Ok((expected_version, stop)) => Ok(
                                (
                                    CommandOperationView::Commit { promise_id, expected_version },
                                    stop,
                                ),
                            ),
                        },
                    }
                } else if tag == RELEASE {
                    match PromiseId::parse(data, p0, limits) {
                        Err(error) => Err(error),
                        Ok((promise_id, p1)) => match model::parse_version(
                            data,
                            p1,
                            "promise version must be non-zero",
                        ) {
                            Err(error) => Err(error),
                            Ok((expected_version, stop)) => Ok(
                                (
                                    CommandOperationView::Release { promise_id, expected_version },
                                    stop,
                                ),
                            ),
                        },
                    }
                } else if tag == REPLACE {
                    match PromiseId::parse(data, p0, limits) {
                        Err(error) => Err(error),
                        Ok((promise_id, p1)) => match model::parse_version(
                            data,
                            p1,
                            "promise version must be non-zero",
                        ) {
                            Err(error) => Err(error),
                            Ok(
                                (expected_version, p2),
                            ) => match BundleView::parse(data, p2, limits) {
                                Err(error) => Err(error),
                                Ok(
                                    (new_bundle, p3),
                                ) => match ReplacementState::parse(data, p3, limits) {
                                    Err(error) => Err(error),
                                    Ok((new_state, stop)) => Ok(
                                        (
                                            CommandOperationView::Replace {
                                                promise_id,
                                                expected_version,
                                                new_bundle,
                                                new_state,
                                            },
                                            stop,
                                        ),
                                    ),
                                },
                            },
                        },
                    }
                } else if tag == PROCESS_EXPIRATIONS {
                    Ok((CommandOperationView::ProcessExpirations, p0))
                } else if tag == HOLD_ONE_OF {
                    match PromiseId::parse(data, p0, limits) {
                        Err(error) => Err(error),
                        Ok((promise_id, p1)) => match ChoiceView::parse(data, p1, limits) {
                            Err(error) => Err(error),
                            Ok((choice, p2)) => match i64::parse(data, p2, limits) {
                                Err(error) => Err(error),
                                Ok((expires_at, stop)) => Ok(
                                    (
                                        CommandOperationView::HoldOneOf {
                                            promise_id,
                                            choice,
                                            expires_at,
                                        },
                                        stop,
                                    ),
                                ),
                            },
                        },
                    }
                } else if tag == HOLD_FIRST_SLOT {
                    match PromiseId::parse(data, p0, limits) {
                        Err(error) => Err(error),
                        Ok((promise_id, p1)) => match RelativeBundleView::parse(data, p1, limits) {
                            Err(error) => Err(error),
                            Ok((relative_bundle, p2)) => match i64::parse(data, p2, limits) {
                                Err(error) => Err(error),
                                Ok((earliest_start, p3)) => match i64::parse(data, p3, limits) {
                                    Err(error) => Err(error),
                                    Ok((latest_start, p4)) => match i64::parse(data, p4, limits) {
                                        Err(error) => Err(error),
                                        Ok((step, p5)) => match i64::parse(data, p5, limits) {
                                            Err(error) => Err(error),
                                            Ok((expires_at, stop)) => Ok(
                                                (
                                                    CommandOperationView::HoldFirstSlot {
                                                        promise_id,
                                                        relative_bundle,
                                                        earliest_start,
                                                        latest_start,
                                                        step,
                                                        expires_at,
                                                    },
                                                    stop,
                                                ),
                                            ),
                                        },
                                    },
                                },
                            },
                        },
                    }
                } else {
                    Err(StorageError::InvalidTag { kind: "command operation", tag })
                }
            },
        }
    }

    proof fn lemma_parse(data: Seq<u8>, pos: int, limits: Limits, cut: int) {
        if let Ok((tag, p0)) = u8::parse(data, pos, limits) {
            if tag == CREATE_POOL {
                lemma_parse_create_resource_pool(data, pos, limits, cut);
            } else if tag == REVISE_CAPACITY {
                lemma_parse_revise_capacity(data, pos, limits, cut);
            } else if tag == HOLD {
                lemma_parse_hold(data, pos, limits, cut);
            } else if tag == COMMIT {
                lemma_parse_commit(data, pos, limits, cut);
            } else if tag == RELEASE {
                lemma_parse_release(data, pos, limits, cut);
            } else if tag == REPLACE {
                lemma_parse_replace(data, pos, limits, cut);
            } else if tag == PROCESS_EXPIRATIONS {
                lemma_parse_process_expirations(data, pos, limits, cut);
            } else if tag == HOLD_ONE_OF {
                lemma_parse_hold_one_of(data, pos, limits, cut);
            } else if tag == HOLD_FIRST_SLOT {
                lemma_parse_hold_first_slot(data, pos, limits, cut);
            } else {
                reveal(<CommandOperationView as Wire>::parse);
            }
        } else {
            reveal(<CommandOperationView as Wire>::parse);
        }
    }

    #[verifier::rlimit(60)]
    #[verifier::spinoff_prover]
    proof fn lemma_enc(self, data: Seq<u8>, pos: int, limits: Limits) {
        broadcast use {model::lemma_at_add, model::lemma_le_len};

        reveal(<CommandOperationView as Wire>::enc);
        reveal(<CommandOperationView as Wire>::parse);
        let p0 = pos + 1;
        match self {
            CommandOperationView::CreateResourcePool {
                resource_pool_id,
                display_name,
                unit,
                capacity_curve,
            } => {
                u8::lemma_enc(CREATE_POOL, data, pos, limits);
                resource_pool_id.lemma_enc(data, p0, limits);
                let p1 = p0 + resource_pool_id.enc().bytes.len();
                model::lemma_string_enc(display_name, data, p1, limits, "display name");
                let p2 = p1 + model::enc_string("display name", display_name).bytes.len();
                unit.lemma_enc(data, p2, limits);
                let p3 = p2 + unit.enc().bytes.len();
                capacity_curve.lemma_enc(data, p3, limits);
            },
            CommandOperationView::ReviseCapacity { resource_pool_id, capacity_curve, mode } => {
                u8::lemma_enc(REVISE_CAPACITY, data, pos, limits);
                resource_pool_id.lemma_enc(data, p0, limits);
                let p1 = p0 + resource_pool_id.enc().bytes.len();
                capacity_curve.lemma_enc(data, p1, limits);
                let p2 = p1 + capacity_curve.enc().bytes.len();
                mode.lemma_enc(data, p2, limits);
            },
            CommandOperationView::Hold { promise_id, bundle, expires_at } => {
                u8::lemma_enc(HOLD, data, pos, limits);
                promise_id.lemma_enc(data, p0, limits);
                let p1 = p0 + promise_id.enc().bytes.len();
                bundle.lemma_enc(data, p1, limits);
                let p2 = p1 + bundle.enc().bytes.len();
                expires_at.lemma_enc(data, p2, limits);
            },
            CommandOperationView::Commit { promise_id, expected_version } => {
                u8::lemma_enc(COMMIT, data, pos, limits);
                promise_id.lemma_enc(data, p0, limits);
                let p1 = p0 + promise_id.enc().bytes.len();
                model::lemma_version_enc(
                    expected_version,
                    data,
                    p1,
                    "promise version must be non-zero",
                );
            },
            CommandOperationView::Release { promise_id, expected_version } => {
                u8::lemma_enc(RELEASE, data, pos, limits);
                promise_id.lemma_enc(data, p0, limits);
                let p1 = p0 + promise_id.enc().bytes.len();
                model::lemma_version_enc(
                    expected_version,
                    data,
                    p1,
                    "promise version must be non-zero",
                );
            },
            CommandOperationView::Replace {
                promise_id,
                expected_version,
                new_bundle,
                new_state,
            } => {
                u8::lemma_enc(REPLACE, data, pos, limits);
                promise_id.lemma_enc(data, p0, limits);
                let p1 = p0 + promise_id.enc().bytes.len();
                model::lemma_version_enc(
                    expected_version,
                    data,
                    p1,
                    "promise version must be non-zero",
                );
                let p2 = p1 + expected_version.enc().bytes.len();
                new_bundle.lemma_enc(data, p2, limits);
                let p3 = p2 + new_bundle.enc().bytes.len();
                new_state.lemma_enc(data, p3, limits);
            },
            CommandOperationView::ProcessExpirations => {
                u8::lemma_enc(PROCESS_EXPIRATIONS, data, pos, limits);
            },
            CommandOperationView::HoldOneOf { promise_id, choice, expires_at } => {
                u8::lemma_enc(HOLD_ONE_OF, data, pos, limits);
                promise_id.lemma_enc(data, p0, limits);
                let p1 = p0 + promise_id.enc().bytes.len();
                choice.lemma_enc(data, p1, limits);
                let p2 = p1 + choice.enc().bytes.len();
                expires_at.lemma_enc(data, p2, limits);
            },
            CommandOperationView::HoldFirstSlot {
                promise_id,
                relative_bundle,
                earliest_start,
                latest_start,
                step,
                expires_at,
            } => {
                u8::lemma_enc(HOLD_FIRST_SLOT, data, pos, limits);
                promise_id.lemma_enc(data, p0, limits);
                let p1 = p0 + promise_id.enc().bytes.len();
                relative_bundle.lemma_enc(data, p1, limits);
                let p2 = p1 + relative_bundle.enc().bytes.len();
                earliest_start.lemma_enc(data, p2, limits);
                let p3 = p2 + earliest_start.enc().bytes.len();
                latest_start.lemma_enc(data, p3, limits);
                let p4 = p3 + latest_start.enc().bytes.len();
                step.lemma_enc(data, p4, limits);
                let p5 = p4 + step.enc().bytes.len();
                expires_at.lemma_enc(data, p5, limits);
            },
        }
    }

    proof fn lemma_fits(self, limits: Limits) {
        reveal(<CommandOperationView as Wire>::enc);
        match self {
            CommandOperationView::CreateResourcePool {
                resource_pool_id,
                display_name,
                unit,
                capacity_curve,
            } => {
                resource_pool_id.lemma_fits(limits);
                unit.lemma_fits(limits);
                capacity_curve.lemma_fits(limits);
            },
            CommandOperationView::ReviseCapacity { resource_pool_id, capacity_curve, mode } => {
                resource_pool_id.lemma_fits(limits);
                capacity_curve.lemma_fits(limits);
                mode.lemma_fits(limits);
            },
            CommandOperationView::Hold { promise_id, bundle, expires_at } => {
                promise_id.lemma_fits(limits);
                bundle.lemma_fits(limits);
            },
            CommandOperationView::Commit { promise_id, expected_version } => {
                promise_id.lemma_fits(limits);
            },
            CommandOperationView::Release { promise_id, expected_version } => {
                promise_id.lemma_fits(limits);
            },
            CommandOperationView::Replace {
                promise_id,
                expected_version,
                new_bundle,
                new_state,
            } => {
                promise_id.lemma_fits(limits);
                new_bundle.lemma_fits(limits);
                new_state.lemma_fits(limits);
            },
            CommandOperationView::ProcessExpirations => {},
            CommandOperationView::HoldOneOf { promise_id, choice, expires_at } => {
                promise_id.lemma_fits(limits);
                choice.lemma_fits(limits);
            },
            CommandOperationView::HoldFirstSlot {
                promise_id,
                relative_bundle,
                earliest_start,
                latest_start,
                step,
                expires_at,
            } => {
                promise_id.lemma_fits(limits);
                relative_bundle.lemma_fits(limits);
            },
        }
    }
}

impl Encode for CommandOperation {
    fn encode(&self, writer: &mut Writer) -> (out: Result<(), StorageError>) {
        broadcast use crate::wire::writer::lemma_written_chain;

        reveal(<CommandOperationView as Wire>::enc);
        match self {
            CommandOperation::CreateResourcePool {
                resource_pool_id,
                display_name,
                unit,
                capacity_curve,
            } => {
                writer.u8(CREATE_POOL);
                resource_pool_id.encode(writer)?;
                writer.string("display name", display_name.as_str())?;
                unit.encode(writer)?;
                capacity_curve.encode(writer)?;
            },
            CommandOperation::ReviseCapacity { resource_pool_id, capacity_curve, mode } => {
                writer.u8(REVISE_CAPACITY);
                resource_pool_id.encode(writer)?;
                capacity_curve.encode(writer)?;
                mode.encode(writer)?;
            },
            CommandOperation::Hold { promise_id, bundle, expires_at } => {
                writer.u8(HOLD);
                promise_id.encode(writer)?;
                bundle.encode(writer)?;
                writer.i64(*expires_at);
            },
            CommandOperation::Commit { promise_id, expected_version } => {
                writer.u8(COMMIT);
                promise_id.encode(writer)?;
                writer.u64(expected_version.get());
            },
            CommandOperation::Release { promise_id, expected_version } => {
                writer.u8(RELEASE);
                promise_id.encode(writer)?;
                writer.u64(expected_version.get());
            },
            CommandOperation::Replace { promise_id, expected_version, new_bundle, new_state } => {
                writer.u8(REPLACE);
                promise_id.encode(writer)?;
                writer.u64(expected_version.get());
                new_bundle.encode(writer)?;
                new_state.encode(writer)?;
            },
            CommandOperation::ProcessExpirations => {
                writer.u8(PROCESS_EXPIRATIONS);
            },
            CommandOperation::HoldOneOf { promise_id, choice, expires_at } => {
                writer.u8(HOLD_ONE_OF);
                promise_id.encode(writer)?;
                choice.encode(writer)?;
                writer.i64(*expires_at);
            },
            CommandOperation::HoldFirstSlot {
                promise_id,
                relative_bundle,
                earliest_start,
                latest_start,
                step,
                expires_at,
            } => {
                writer.u8(HOLD_FIRST_SLOT);
                promise_id.encode(writer)?;
                relative_bundle.encode(writer)?;
                writer.i64(*earliest_start);
                writer.i64(*latest_start);
                writer.i64(*step);
                writer.i64(*expires_at);
            },
        }
        Ok(())
    }
}

impl Decode for CommandOperation {
    fn decode(reader: &mut Reader) -> (out: Result<CommandOperation, StorageError>) {
        reveal(<CommandOperationView as Wire>::parse);
        let tag = reader.u8()?;
        if tag == CREATE_POOL {
            let resource_pool_id = ResourcePoolId::decode(reader)?;
            let display_name = reader.string("display name")?;
            let unit = Unit::decode(reader)?;
            let capacity_curve = CapacityCurve::decode(reader)?;
            Ok(
                CommandOperation::CreateResourcePool {
                    resource_pool_id,
                    display_name,
                    unit,
                    capacity_curve,
                },
            )
        } else if tag == REVISE_CAPACITY {
            let resource_pool_id = ResourcePoolId::decode(reader)?;
            let capacity_curve = CapacityCurve::decode(reader)?;
            let mode = CapacityRevisionMode::decode(reader)?;
            Ok(CommandOperation::ReviseCapacity { resource_pool_id, capacity_curve, mode })
        } else if tag == HOLD {
            let promise_id = PromiseId::decode(reader)?;
            let bundle = Bundle::decode(reader)?;
            let expires_at = reader.i64()?;
            Ok(CommandOperation::Hold { promise_id, bundle, expires_at })
        } else if tag == COMMIT {
            let promise_id = PromiseId::decode(reader)?;
            let expected_version = Version::read(reader, "promise version must be non-zero")?;
            Ok(CommandOperation::Commit { promise_id, expected_version })
        } else if tag == RELEASE {
            let promise_id = PromiseId::decode(reader)?;
            let expected_version = Version::read(reader, "promise version must be non-zero")?;
            Ok(CommandOperation::Release { promise_id, expected_version })
        } else if tag == REPLACE {
            let promise_id = PromiseId::decode(reader)?;
            let expected_version = Version::read(reader, "promise version must be non-zero")?;
            let new_bundle = Bundle::decode(reader)?;
            let new_state = ReplacementState::decode(reader)?;
            Ok(CommandOperation::Replace { promise_id, expected_version, new_bundle, new_state })
        } else if tag == PROCESS_EXPIRATIONS {
            Ok(CommandOperation::ProcessExpirations)
        } else if tag == HOLD_ONE_OF {
            let promise_id = PromiseId::decode(reader)?;
            let choice = Choice::decode(reader)?;
            let expires_at = reader.i64()?;
            Ok(CommandOperation::HoldOneOf { promise_id, choice, expires_at })
        } else if tag == HOLD_FIRST_SLOT {
            let promise_id = PromiseId::decode(reader)?;
            let relative_bundle = RelativeBundle::decode(reader)?;
            let earliest_start = reader.i64()?;
            let latest_start = reader.i64()?;
            let step = reader.i64()?;
            let expires_at = reader.i64()?;
            Ok(
                CommandOperation::HoldFirstSlot {
                    promise_id,
                    relative_bundle,
                    earliest_start,
                    latest_start,
                    step,
                    expires_at,
                },
            )
        } else {
            Err(StorageError::InvalidTag { kind: "command operation", tag })
        }
    }
}

/// The model of a [`Command`].
#[verifier::ext_equal]
pub struct CommandView {
    /// Who submits the command.
    pub client_id: Seq<char>,
    /// Key under which it is repeated.
    pub idempotency_key: Seq<char>,
    /// What it asks for.
    pub operation: CommandOperationView,
}

impl Assured for CommandOperation {
    fn assure(&self) {
        match self {
            CommandOperation::CreateResourcePool { unit, capacity_curve, .. } => {
                unit.assure();
                capacity_curve.assure();
            },
            CommandOperation::ReviseCapacity { capacity_curve, .. } => {
                capacity_curve.assure();
            },
            CommandOperation::Hold { bundle, .. } => {
                bundle.assure();
            },
            CommandOperation::Commit { expected_version, .. } => {
                expected_version.get();
            },
            CommandOperation::Release { expected_version, .. } => {
                expected_version.get();
            },
            CommandOperation::Replace { expected_version, new_bundle, .. } => {
                expected_version.get();
                new_bundle.assure();
            },
            CommandOperation::ProcessExpirations => {},
            CommandOperation::HoldOneOf { choice, .. } => {
                choice.assure();
            },
            CommandOperation::HoldFirstSlot { relative_bundle, .. } => {
                relative_bundle.assure();
            },
        }
    }
}

/// A command with the identity under which it is repeated.
#[derive(Debug, PartialEq, Eq)]
pub struct Command {
    client_id: ClientId,
    idempotency_key: IdempotencyKey,
    operation: CommandOperation,
}

impl View for Command {
    type V = CommandView;

    closed spec fn view(&self) -> CommandView {
        CommandView {
            client_id: self.client_id@,
            idempotency_key: self.idempotency_key@,
            operation: self.operation@,
        }
    }
}

impl Clone for Command {
    fn clone(&self) -> (out: Command)
        ensures
            out@ == self@,
    {
        proof {
            use_type_invariant(self);
        }
        Command {
            client_id: self.client_id.clone(),
            idempotency_key: self.idempotency_key.clone(),
            operation: self.operation.clone(),
        }
    }
}

impl Command {
    #[verifier::type_invariant]
    spec fn kept_valid(&self) -> bool {
        self@.valid()
    }
}

impl Assured for Command {
    fn assure(&self) {
        proof {
            use_type_invariant(self);
        }
    }
}

impl Command {
    /// Creates a command.
    pub fn new(
        client_id: ClientId,
        idempotency_key: IdempotencyKey,
        operation: CommandOperation,
    ) -> (out: Command)
        ensures
            out@ == (CommandView {
                client_id: client_id@,
                idempotency_key: idempotency_key@,
                operation: operation@,
            }),
    {
        operation.assure();
        Command { client_id, idempotency_key, operation }
    }

    /// Returns who submits the command.
    pub fn client_id(&self) -> (out: &ClientId)
        ensures
            out@ == self@.client_id,
    {
        &self.client_id
    }

    /// Returns the key under which it is repeated.
    pub fn idempotency_key(&self) -> (out: &IdempotencyKey)
        ensures
            out@ == self@.idempotency_key,
    {
        &self.idempotency_key
    }

    /// Returns what it asks for.
    pub fn operation(&self) -> (out: &CommandOperation)
        ensures
            out@ == self@.operation,
    {
        &self.operation
    }
}

impl Wire for CommandView {
    open spec fn valid(self) -> bool {
        self.operation.valid()
    }

    open spec fn fits(self, limits: Limits) -> bool {
        &&& model::string_fits(self.client_id, limits)
        &&& model::string_fits(self.idempotency_key, limits)
        &&& self.operation.fits(limits)
    }

    #[verifier::opaque]
    open spec fn enc(self) -> Enc {
        model::enc_string("client_id", self.client_id).followed_by(
            model::enc_string("idempotency_key", self.idempotency_key),
        ).followed_by(
            self.operation.enc(),
        )
    }

    #[verifier::opaque]
    open spec fn parse(data: Seq<u8>, pos: int, limits: Limits) -> Parsed<CommandView> {
        match model::parse_string(data, pos, limits, "client_id") {
            Err(error) => Err(error),
            Ok((client_id, p1)) => match model::parse_string(data, p1, limits, "idempotency_key") {
                Err(error) => Err(error),
                Ok((idempotency_key, p2)) => match CommandOperationView::parse(data, p2, limits) {
                    Err(error) => Err(error),
                    Ok((operation, stop)) => Ok(
                        (CommandView { client_id, idempotency_key, operation }, stop),
                    ),
                },
            },
        }
    }

    proof fn lemma_parse(data: Seq<u8>, pos: int, limits: Limits, cut: int) {
        broadcast use {model::lemma_at_add, model::lemma_le_len};

        reveal(<CommandView as Wire>::enc);
        reveal(<CommandView as Wire>::parse);
        model::lemma_parse_string(data, pos, limits, "client_id", cut);
        if let Ok((_, p1)) = model::parse_string(data, pos, limits, "client_id") {
            model::lemma_parse_string(data, p1, limits, "idempotency_key", cut);
            if let Ok((_, p2)) = model::parse_string(data, p1, limits, "idempotency_key") {
                CommandOperationView::lemma_parse(data, p2, limits, cut);
            }
        }
    }

    proof fn lemma_enc(self, data: Seq<u8>, pos: int, limits: Limits) {
        broadcast use {model::lemma_at_add, model::lemma_le_len};

        reveal(<CommandView as Wire>::enc);
        reveal(<CommandView as Wire>::parse);
        model::lemma_string_enc(self.client_id, data, pos, limits, "client_id");
        let p1 = pos + model::enc_string("client_id", self.client_id).bytes.len();
        model::lemma_string_enc(self.idempotency_key, data, p1, limits, "idempotency_key");
        let p2 = p1 + model::enc_string("idempotency_key", self.idempotency_key).bytes.len();
        self.operation.lemma_enc(data, p2, limits);
    }

    proof fn lemma_fits(self, limits: Limits) {
        reveal(<CommandView as Wire>::enc);
        self.operation.lemma_fits(limits);
    }
}

impl Encode for Command {
    fn encode(&self, writer: &mut Writer) -> (out: Result<(), StorageError>) {
        broadcast use crate::wire::writer::lemma_written_chain;

        reveal(<CommandView as Wire>::enc);
        writer.string("client_id", self.client_id.as_str())?;
        writer.string("idempotency_key", self.idempotency_key.as_str())?;
        self.operation.encode(writer)?;
        Ok(())
    }
}

impl Decode for Command {
    fn decode(reader: &mut Reader) -> (out: Result<Command, StorageError>) {
        reveal(<CommandView as Wire>::parse);
        let client_id = reader.string("client_id")?;
        let idempotency_key = reader.string("idempotency_key")?;
        let operation = CommandOperation::decode(reader)?;
        Ok(Command::new(ClientId::new(client_id), IdempotencyKey::new(idempotency_key), operation))
    }
}

} // verus!

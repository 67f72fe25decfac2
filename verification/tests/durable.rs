//! Durable databases over a small engine: coordination, recovery, directories and snapshots.

use promisedb::backend::{Durability, MemoryWal, WalBackend};
use promisedb::batch::{assign_sequences, frame_batch, frame_batch_granted};
use promisedb::codec::encode_command;
use promisedb::command::{ClientId, Command, CommandOperation, IdempotencyKey};
use promisedb::database::{
    take_response, Database, DatabaseError, DatabaseOptions, DatabasePreparationError,
};
use promisedb::domain::capacity::{CapacityCurve, CapacitySegment, Interval, Unit};
use promisedb::domain::claims::{Bundle, Claim};
use promisedb::domain::ids::{PromiseId, ResourcePoolId};
use promisedb::domain::promise::{Promise, PromiseState, ResourcePool, SequenceNumber, Version};
use promisedb::engine::{
    DurableItem, Engine, EngineSnapshot, IdempotencyRecord, PreparationError, PreparedBatch,
    RecoveryInstallError, TimedCommand,
};
use promisedb::error::{DomainError, RecordCorruption, StorageError};
use promisedb::event::{Event, EventData, EventKind};
use promisedb::file::compaction::Compaction;
use promisedb::file::identity::DatabaseUuid;
use promisedb::file::manifest::{
    manifest_bytes, parse_manifest, Manifest, ManifestError, STATE_MACHINE_SEMANTICS_VERSION,
};
use promisedb::file::manifest_v1;
use promisedb::file::names::{
    is_segment_temp, parse_segment_name, segment_name, segment_temp_name, snapshot_name,
};
use promisedb::file::opening::{
    check_limits, check_segment, check_snapshot_length, classify_segment, minimum_sequence,
    note_snapshot, order_segments, plan_snapshot, SegmentEntry, SegmentInfo,
};
use promisedb::file::options::{
    FileDatabaseError, FileDatabaseOptions, SnapshotOutcome, MIN_SEGMENT_TARGET,
};
use promisedb::file::segment::{
    parse_segment_header, segment_header, SegmentHeaderError, SEGMENT_HEADER_LEN,
};
use promisedb::file::segmented::ActiveSegment;
use promisedb::file::walk::SegmentWalk;
use promisedb::outcome::{CommandResponse, CommandResult, HoldOutcome};
use promisedb::record::{
    encode, Record, RecordLimits, RecordSequence, Timestamp, MIN_RECORD_LEN,
};
use promisedb::recovery::recover;
use promisedb::replay::{
    recover_engine, recover_engine_granted, recover_engine_with_expected, EngineRecovery,
    RecoveryError,
};
use promisedb::snapshot::codec as snapshot;
use promisedb::snapshot::codec::{DecodedSnapshot, SnapshotFile};
use promisedb::snapshot::limits::{SnapshotError, SnapshotLimits};
use promisedb::transition::{encode_transition, CommandHash, DurableTransition};
use std::cell::RefCell;
use std::collections::BTreeMap;
use std::path::PathBuf;
use std::rc::Rc;

// A small engine: pools, holds, releases and expirations.

#[derive(Debug)]
struct TestEngine {
    pools: Vec<ResourcePool>,
    promises: Vec<Promise>,
    events: Vec<Event>,
    records: Vec<IdempotencyRecord>,
    sequence: u64,
    revision: u128,
    slack: Vec<(ResourcePoolId, u64)>,
    restored: bool,
    installed: usize,
}

struct Changes {
    base: u128,
    engine: TestEngine,
}

fn copy_response(response: &CommandResponse) -> CommandResponse {
    match response {
        Ok(result) => Ok(result.clone()),
        Err(error) => Err(*error),
    }
}

fn copy_record(record: &IdempotencyRecord) -> IdempotencyRecord {
    IdempotencyRecord::new(
        record.client_id().clone(),
        record.idempotency_key().clone(),
        *record.command_hash(),
        copy_response(record.response()),
    )
}

impl TestEngine {
    fn copy(&self) -> TestEngine {
        TestEngine {
            pools: self.pools.clone(),
            promises: self.promises.clone(),
            events: self.events.clone(),
            records: self.records.iter().map(copy_record).collect(),
            sequence: self.sequence,
            revision: self.revision,
            slack: self.slack.clone(),
            restored: self.restored,
            installed: self.installed,
        }
    }

    fn resource_pool(&self, id: ResourcePoolId) -> Option<&ResourcePool> {
        self.pools.iter().find(|pool| pool.id() == id)
    }

    fn promise(&self, id: PromiseId) -> Option<&Promise> {
        self.promises.iter().find(|promise| promise.id() == id)
    }

    fn sequence(&self) -> SequenceNumber {
        SequenceNumber::new(self.sequence)
    }

    fn watch_events(&self, after: SequenceNumber) -> &[Event] {
        let start = self
            .events
            .iter()
            .position(|event| event.sequence().get() > after.get())
            .unwrap_or(self.events.len());
        &self.events[start..]
    }

    fn idempotency_record_count(&self) -> usize {
        self.records.len()
    }

    fn slack_timeline(&self, id: ResourcePoolId) -> Option<&u64> {
        self.slack
            .iter()
            .find(|(pool, _)| *pool == id)
            .map(|(_, slack)| slack)
    }

    fn used(&self, id: ResourcePoolId) -> u64 {
        self.promises
            .iter()
            .filter(|promise| {
                matches!(
                    promise.state(),
                    PromiseState::Held { .. } | PromiseState::Committed
                )
            })
            .flat_map(|promise| promise.bundle().claims().iter())
            .filter(|claim| claim.pool_id() == id)
            .map(|claim| claim.quantity())
            .sum()
    }

    fn capacity(&self, id: ResourcePoolId) -> u64 {
        self.resource_pool(id)
            .and_then(|pool| pool.capacity_curve().segments().first())
            .map_or(0, |segment| segment.capacity())
    }

    fn index(&mut self) {
        self.slack = self
            .pools
            .iter()
            .map(|pool| (pool.id(), self.capacity(pool.id()) - self.used(pool.id())))
            .collect();
    }

    fn put_pool(&mut self, pool: ResourcePool) {
        self.pools.retain(|other| other.id() != pool.id());
        self.pools.push(pool);
        self.pools.sort_by_key(|pool| pool.id().as_bytes());
    }

    fn put_promise(&mut self, promise: Promise) {
        self.promises.retain(|other| other.id() != promise.id());
        self.promises.push(promise);
        self.promises.sort_by_key(|promise| promise.id().as_bytes());
    }

    fn next_event(&self, at: Timestamp, kind: EventKind, data: EventData) -> Event {
        Event::restore(SequenceNumber::new(self.sequence + 1), at, kind, data).unwrap()
    }

    /// Executes one command that was not seen before.
    fn execute(&mut self, command: &Command, at: Timestamp) -> DurableTransition {
        let mut pools = Vec::new();
        let mut promises = Vec::new();
        let mut events = Vec::new();
        let response = self.decide(command, at, &mut pools, &mut promises, &mut events);
        let hash = command_hash(command);
        let transition = DurableTransition::restore(
            command.clone(),
            command.client_id().clone(),
            command.idempotency_key().clone(),
            hash,
            copy_response(&response),
            pools,
            promises,
            events,
            SequenceNumber::new(self.sequence),
        );
        self.records.push(IdempotencyRecord::new(
            command.client_id().clone(),
            command.idempotency_key().clone(),
            hash,
            response,
        ));
        transition
    }

    fn decide(
        &mut self,
        command: &Command,
        at: Timestamp,
        pools: &mut Vec<ResourcePool>,
        promises: &mut Vec<Promise>,
        events: &mut Vec<Event>,
    ) -> CommandResponse {
        match command.operation() {
            CommandOperation::CreateResourcePool {
                resource_pool_id,
                display_name,
                unit,
                capacity_curve,
            } => {
                if self.resource_pool(*resource_pool_id).is_some() {
                    return Err(DomainError::ResourcePoolAlreadyExists);
                }
                let pool = ResourcePool::with_id(
                    *resource_pool_id,
                    display_name.clone(),
                    unit.clone(),
                    capacity_curve.clone(),
                );
                let event = self.next_event(
                    at,
                    EventKind::ResourceCreated,
                    EventData::ResourcePool {
                        resource_pool_id: *resource_pool_id,
                    },
                );
                self.sequence += 1;
                self.put_pool(pool.clone());
                self.events.push(event.clone());
                pools.push(pool);
                events.push(event);
                Ok(CommandResult::ResourcePoolCreated {
                    resource_pool_id: *resource_pool_id,
                })
            }
            CommandOperation::Hold {
                promise_id,
                bundle,
                expires_at,
            } => {
                for claim in bundle.claims() {
                    if self.resource_pool(claim.pool_id()).is_none() {
                        return Err(DomainError::ResourcePoolNotFound);
                    }
                    if self.used(claim.pool_id()) + claim.quantity()
                        > self.capacity(claim.pool_id())
                    {
                        return Err(DomainError::CapacityExceeded);
                    }
                }
                let sequence = SequenceNumber::new(self.sequence + 1);
                let version = Version::new(1).unwrap();
                let promise = Promise::restore(
                    *promise_id,
                    PromiseState::Held {
                        expires_at: *expires_at,
                    },
                    bundle.clone(),
                    version,
                    sequence,
                    sequence,
                )
                .unwrap();
                let event = self.next_event(
                    at,
                    EventKind::HoldCreated,
                    EventData::Promise {
                        promise_id: *promise_id,
                        version,
                    },
                );
                self.sequence += 1;
                self.put_promise(promise.clone());
                self.events.push(event.clone());
                promises.push(promise);
                events.push(event);
                Ok(CommandResult::HoldCompleted(HoldOutcome::Held(*promise_id)))
            }
            CommandOperation::Release {
                promise_id,
                expected_version,
            } => {
                let Some(promise) = self.promise(*promise_id) else {
                    return Err(DomainError::PromiseNotFound);
                };
                if promise.version() != *expected_version {
                    return Err(DomainError::VersionConflict);
                }
                let version = Version::new(promise.version().get() + 1).unwrap();
                let released = Promise::restore(
                    *promise_id,
                    PromiseState::Released,
                    promise.bundle().clone(),
                    version,
                    promise.created_sequence(),
                    SequenceNumber::new(self.sequence + 1),
                )
                .unwrap();
                let event = self.next_event(
                    at,
                    EventKind::PromiseReleased,
                    EventData::Promise {
                        promise_id: *promise_id,
                        version,
                    },
                );
                self.sequence += 1;
                self.put_promise(released.clone());
                self.events.push(event.clone());
                promises.push(released);
                events.push(event);
                Ok(CommandResult::PromiseReleased {
                    promise_id: *promise_id,
                    version,
                })
            }
            _ => Ok(CommandResult::ExpirationsProcessed { expired_count: 0 }),
        }
    }
}

fn command_hash(command: &Command) -> CommandHash {
    CommandHash::from_bytes(*blake3::hash(&encode_command(command).unwrap()).as_bytes())
}

impl Engine for TestEngine {
    type Changes = Changes;

    fn empty() -> TestEngine {
        TestEngine {
            pools: Vec::new(),
            promises: Vec::new(),
            events: Vec::new(),
            records: Vec::new(),
            sequence: 0,
            revision: 0,
            slack: Vec::new(),
            restored: false,
            installed: 0,
        }
    }

    fn prepare_batch(
        &self,
        commands: Vec<TimedCommand>,
    ) -> Result<PreparedBatch<Changes>, PreparationError> {
        if self.revision == u128::MAX {
            return Err(PreparationError::RevisionOverflow);
        }
        let mut engine = self.copy();
        let mut responses = Vec::new();
        let mut durable_items = Vec::new();
        for timed in commands {
            let (command, timestamp) = timed.into_parts();
            let seen = engine.records.iter().find(|record| {
                record.client_id() == command.client_id()
                    && record.idempotency_key() == command.idempotency_key()
            });
            if let Some(record) = seen {
                responses.push(if *record.command_hash() == command_hash(&command) {
                    copy_response(record.response())
                } else {
                    Err(DomainError::IdempotencyConflict)
                });
                continue;
            }
            let transition = engine.execute(&command, timestamp);
            responses.push(copy_response(transition.response()));
            durable_items.push(DurableItem::new(timestamp, transition));
        }
        engine.revision += 1;
        engine.index();
        Ok(PreparedBatch {
            responses,
            durable_items,
            changes: Changes {
                base: self.revision,
                engine,
            },
        })
    }

    fn can_publish(&self, changes: &Changes) -> Result<(), PreparationError> {
        if changes.base != self.revision {
            return Err(PreparationError::StaleRevision {
                expected: changes.base,
                actual: self.revision,
            });
        }
        Ok(())
    }

    fn publish_batch(&mut self, changes: Changes) {
        *self = changes.engine;
    }

    fn install(&mut self, transition: DurableTransition) -> Result<(), RecoveryInstallError> {
        if transition.final_sequence().get() < self.sequence {
            return Err(RecoveryInstallError::Sequence);
        }
        for pool in transition.resource_pools() {
            self.put_pool(pool.clone());
        }
        for promise in transition.promises() {
            self.put_promise(promise.clone());
        }
        self.events.extend_from_slice(transition.events());
        self.records.push(IdempotencyRecord::new(
            transition.client_id().clone(),
            transition.idempotency_key().clone(),
            *transition.command_hash(),
            copy_response(transition.response()),
        ));
        self.sequence = transition.final_sequence().get();
        self.installed += 1;
        Ok(())
    }

    fn finish_recovery(&mut self) -> Result<(), RecoveryInstallError> {
        let overdrawn = self
            .pools
            .iter()
            .any(|pool| self.used(pool.id()) > self.capacity(pool.id()));
        if overdrawn {
            return Err(RecoveryInstallError::Index);
        }
        self.index();
        Ok(())
    }

    fn capture_snapshot(&self) -> EngineSnapshot {
        EngineSnapshot {
            resource_pools: self.pools.clone(),
            promises: self.promises.clone(),
            events: self.events.clone(),
            idempotency_records: self.records.iter().map(copy_record).collect(),
            sequence: SequenceNumber::new(self.sequence),
            publication_revision: self.revision,
            events_pruned_through: SequenceNumber::new(0),
        }
    }

    fn restore_snapshot(snapshot: EngineSnapshot) -> Option<TestEngine> {
        let last = snapshot.events.last().map_or(0, |event| event.sequence().get());
        if last > snapshot.sequence.get() {
            return None;
        }
        Some(TestEngine {
            pools: snapshot.resource_pools,
            promises: snapshot.promises,
            events: snapshot.events,
            records: snapshot.idempotency_records,
            sequence: snapshot.sequence.get(),
            revision: snapshot.publication_revision,
            slack: Vec::new(),
            restored: true,
            installed: 0,
        })
    }
}

// Coordination.

fn pool(byte: u8) -> ResourcePoolId {
    ResourcePoolId::from_bytes([byte; 16])
}

fn promise(byte: u8) -> PromiseId {
    PromiseId::from_bytes([byte; 16])
}

fn curve(capacity: u64) -> CapacityCurve {
    CapacityCurve::from_sorted(vec![CapacitySegment::new(
        Interval::new(0, 1_000).unwrap(),
        capacity,
    )])
    .unwrap()
}

fn bundle(pool_id: ResourcePoolId, quantity: u64) -> Bundle {
    Bundle::new(vec![Claim::new(
        pool_id,
        Interval::new(10, 20).unwrap(),
        quantity,
    )
    .unwrap()])
    .unwrap()
}

fn command(key: &str, operation: CommandOperation) -> Command {
    Command::new(
        ClientId::new("database-tests".to_string()),
        IdempotencyKey::new(key.to_string()),
        operation,
    )
}

fn create(key: &str, capacity: u64) -> Command {
    command(
        key,
        CommandOperation::CreateResourcePool {
            resource_pool_id: pool(1),
            display_name: "pool".into(),
            unit: Unit::new("units".into(), 1).unwrap(),
            capacity_curve: curve(capacity),
        },
    )
}

fn hold(key: &str, quantity: u64) -> Command {
    command(
        key,
        CommandOperation::Hold {
            promise_id: promise(1),
            bundle: bundle(pool(1), quantity),
            expires_at: 100,
        },
    )
}

fn options(durability: Durability) -> DatabaseOptions {
    DatabaseOptions {
        durability,
        record_limits: RecordLimits::default(),
    }
}

type MemoryDatabase = Database<MemoryWal, TestEngine>;

#[test]
fn group_commit_is_sequential_and_uses_one_append_and_sync() {
    let mut database = MemoryDatabase::new(MemoryWal::new(), options(Durability::Sync));
    let responses = database
        .apply_batch(vec![
            TimedCommand::new(create("create", 10), 0),
            TimedCommand::new(hold("hold", 2), 1),
        ])
        .unwrap();

    assert_eq!(responses.len(), 2);
    assert!(matches!(
        responses[1],
        Ok(CommandResult::HoldCompleted(HoldOutcome::Held(id))) if id == promise(1)
    ));
    assert!(database.engine().promise(promise(1)).is_some());
    assert_eq!(database.backend().append_count(), 1);
    assert_eq!(database.backend().sync_count(), 1);
    assert_eq!(database.next_record_sequence().unwrap().get(), 3);
    assert_eq!(
        recover(database.backend().bytes(), RecordLimits::default())
            .unwrap()
            .len(),
        2
    );
}

#[test]
fn empty_and_retry_only_batches_do_no_io_but_first_seen_rejection_is_persisted() {
    let mut database = MemoryDatabase::new(MemoryWal::new(), options(Durability::Flush));
    assert!(database.apply_batch(Vec::new()).unwrap().is_empty());
    assert_eq!(database.backend().append_count(), 0);

    let missing = command(
        "missing",
        CommandOperation::Hold {
            promise_id: promise(2),
            bundle: bundle(pool(9), 1),
            expires_at: 100,
        },
    );
    assert_eq!(
        database.apply(missing.clone(), 1).unwrap(),
        Err(DomainError::ResourcePoolNotFound)
    );
    assert_eq!(database.backend().append_count(), 1);
    assert_eq!(database.backend().flush_count(), 1);

    let bytes = database.backend().bytes().len();
    let responses = database
        .apply_batch(vec![
            TimedCommand::new(missing, 999),
            TimedCommand::new(
                command("missing", CommandOperation::ProcessExpirations),
                999,
            ),
        ])
        .unwrap();
    assert_eq!(responses[0], Err(DomainError::ResourcePoolNotFound));
    assert_eq!(responses[1], Err(DomainError::IdempotencyConflict));
    assert_eq!(database.backend().append_count(), 1);
    assert_eq!(database.backend().bytes().len(), bytes);
}

#[derive(Debug, Clone, Copy)]
enum FailAt {
    Append,
    Flush,
    Sync,
}

#[derive(Debug)]
struct FaultWal {
    inner: MemoryWal,
    fail_at: FailAt,
}

impl FaultWal {
    fn error() -> StorageError {
        StorageError::Io {
            kind: std::io::ErrorKind::Other,
            message: "injected WAL failure".to_string(),
        }
    }
}

impl WalBackend for FaultWal {
    fn append(&mut self, bytes: &[u8]) -> Result<(), StorageError> {
        self.inner.append(bytes)?;
        if matches!(self.fail_at, FailAt::Append) {
            return Err(Self::error());
        }
        Ok(())
    }

    fn flush(&mut self) -> Result<(), StorageError> {
        self.inner.flush()?;
        if matches!(self.fail_at, FailAt::Flush) {
            return Err(Self::error());
        }
        Ok(())
    }

    fn sync(&mut self) -> Result<(), StorageError> {
        self.inner.sync()?;
        if matches!(self.fail_at, FailAt::Sync) {
            return Err(Self::error());
        }
        Ok(())
    }
}

#[test]
fn encoding_and_sequence_preflight_errors_do_not_poison() {
    let mut limited = MemoryDatabase::new(
        MemoryWal::new(),
        DatabaseOptions {
            durability: Durability::Sync,
            record_limits: RecordLimits::new(MIN_RECORD_LEN).unwrap(),
        },
    );
    assert!(matches!(
        limited.apply(create("too-large", 10), 0),
        Err(DatabaseError::Storage(StorageError::RecordTooLarge { .. }))
    ));
    assert!(!limited.is_poisoned());
    assert_eq!(limited.backend().append_count(), 0);
    assert!(limited.engine().resource_pool(pool(1)).is_none());

    let engine = TestEngine::empty();
    let prepared = engine
        .prepare_batch(vec![TimedCommand::new(create("max-record", 10), 0)])
        .unwrap();
    let payload = encode_transition(prepared.durable_items[0].transition()).unwrap();
    let record = encode(
        &Record::new(RecordSequence::new(u64::MAX).unwrap(), 0, payload),
        RecordLimits::default(),
    )
    .unwrap();
    let outcome = recover_engine_with_expected(
        &record,
        RecordLimits::default(),
        RecordSequence::new(u64::MAX).unwrap(),
        TestEngine::empty(),
    )
    .unwrap();
    assert_eq!(outcome.next_record_sequence(), None);
    let mut exhausted = Database::from_recovered(
        outcome,
        MemoryWal::from_bytes(record),
        options(Durability::Sync),
    );
    assert_eq!(
        exhausted.apply(
            command("after-max", CommandOperation::ProcessExpirations),
            1,
        ),
        Err(DatabaseError::SequenceExhausted)
    );
    assert!(!exhausted.is_poisoned());
    assert_eq!(exhausted.backend().append_count(), 0);
    assert_eq!(exhausted.engine().idempotency_record_count(), 1);
}

#[test]
fn every_io_failure_poison_writes_without_publishing() {
    for (fail_at, durability) in [
        (FailAt::Append, Durability::Buffered),
        (FailAt::Flush, Durability::Flush),
        (FailAt::Sync, Durability::Sync),
    ] {
        let backend = FaultWal {
            inner: MemoryWal::new(),
            fail_at,
        };
        let mut database = Database::<FaultWal, TestEngine>::new(backend, options(durability));
        assert!(matches!(
            database.apply(create("create", 10), 0),
            Err(DatabaseError::Indeterminate(_))
        ));
        assert!(database.engine().resource_pool(pool(1)).is_none());
        assert!(database.is_poisoned());
        assert_eq!(
            database.apply(create("later", 10), 0),
            Err(DatabaseError::Poisoned)
        );
    }
}

#[test]
fn persisted_but_unpublished_bytes_recover_exactly_once() {
    let backend = FaultWal {
        inner: MemoryWal::new(),
        fail_at: FailAt::Sync,
    };
    let mut database = Database::<FaultWal, TestEngine>::new(backend, options(Durability::Sync));
    assert!(matches!(
        database.apply(create("create", 10), 0),
        Err(DatabaseError::Indeterminate(_))
    ));
    assert!(database.engine().resource_pool(pool(1)).is_none());

    let bytes = database.backend().inner.bytes().to_vec();
    let recovered = recover_engine::<TestEngine>(&bytes, RecordLimits::default()).unwrap();
    assert!(recovered.engine().resource_pool(pool(1)).is_some());
    assert_eq!(recovered.engine().idempotency_record_count(), 1);
}

#[test]
fn restart_restores_events_idempotency_indexes_and_sequence_continuation() {
    let mut original = MemoryDatabase::new(MemoryWal::new(), options(Durability::Sync));
    let hold_command = hold("hold", 2);
    original
        .apply_batch(vec![
            TimedCommand::new(create("create", 10), 0),
            TimedCommand::new(hold_command.clone(), 1),
        ])
        .unwrap();
    let bytes = original.backend().bytes().to_vec();
    let source_slack = *original.engine().slack_timeline(pool(1)).unwrap();

    let outcome = recover_engine::<TestEngine>(&bytes, RecordLimits::default()).unwrap();
    assert_eq!(outcome.next_record_sequence().unwrap().get(), 3);
    assert_eq!(outcome.engine().sequence(), original.engine().sequence());
    assert_eq!(
        outcome.engine().watch_events(SequenceNumber::new(0)),
        original.engine().watch_events(SequenceNumber::new(0))
    );
    assert_eq!(outcome.engine().idempotency_record_count(), 2);
    assert_eq!(
        outcome.engine().slack_timeline(pool(1)),
        Some(&source_slack)
    );

    let mut restarted = Database::from_recovered(
        outcome,
        MemoryWal::from_bytes(bytes),
        options(Durability::Sync),
    );
    assert!(matches!(
        restarted.apply(hold_command, 999).unwrap(),
        Ok(CommandResult::HoldCompleted(HoldOutcome::Held(_)))
    ));
    assert_eq!(restarted.backend().append_count(), 0);

    let release_response = restarted
        .apply(
            command(
                "release",
                CommandOperation::Release {
                    promise_id: promise(1),
                    expected_version: Version::new(1).unwrap(),
                },
            ),
            2,
        )
        .unwrap();
    assert!(release_response.is_ok());
    assert_eq!(restarted.backend().append_count(), 1);
    assert_eq!(restarted.next_record_sequence().unwrap().get(), 4);
    let recovered =
        recover_engine::<TestEngine>(restarted.backend().bytes(), RecordLimits::default()).unwrap();
    assert_eq!(recovered.next_record_sequence().unwrap().get(), 4);
}

#[test]
fn recovery_rejects_event_timestamp_mismatch() {
    let engine = TestEngine::empty();
    let prepared = engine
        .prepare_batch(vec![TimedCommand::new(create("create", 10), 1)])
        .unwrap();
    let payload = encode_transition(prepared.durable_items[0].transition()).unwrap();
    let bytes = encode(
        &Record::new(RecordSequence::first(), 2, payload),
        RecordLimits::default(),
    )
    .unwrap();
    assert!(matches!(
        recover_engine::<TestEngine>(&bytes, RecordLimits::default()),
        Err(RecoveryError::TimestampMismatch { .. })
    ));
}

#[test]
fn recover_attaches_a_backend_to_the_recovered_state() {
    let mut original = MemoryDatabase::new(MemoryWal::new(), DatabaseOptions::default());
    original.apply(create("create", 10), 4).unwrap().unwrap();
    let bytes = original.backend().bytes().to_vec();

    let recovered = MemoryDatabase::recover(
        &bytes,
        MemoryWal::from_bytes(bytes.clone()),
        DatabaseOptions::default(),
    );
    let recovered = match recovered {
        Ok(database) => database,
        Err(error) => panic!("{error:?}"),
    };
    assert_eq!(recovered.next_record_sequence().unwrap().get(), 2);
    assert!(recovered.engine().resource_pool(pool(1)).is_some());
    assert_eq!(recovered.backend().bytes(), &bytes[..]);

    let mut broken = bytes;
    let last = broken.len() - 1;
    broken[last] ^= 1;
    assert!(matches!(
        MemoryDatabase::recover(&broken, MemoryWal::new(), DatabaseOptions::default()),
        Err(DatabaseError::Recovery(RecoveryError::Storage {
            last_valid_offset: 0,
            source: StorageError::CorruptWalRecord {
                offset: 0,
                reason: RecordCorruption::ChecksumMismatch,
            },
        }))
    ));
}

#[test]
fn preparation_failures_change_nothing() {
    let mut database = MemoryDatabase::new(MemoryWal::new(), options(Durability::Sync));
    let stale = database
        .engine()
        .prepare_batch(vec![TimedCommand::new(create("first", 10), 0)])
        .unwrap();
    database.apply(create("second", 10), 0).unwrap().unwrap();
    assert_eq!(
        database.engine().can_publish(&stale.changes),
        Err(PreparationError::StaleRevision {
            expected: 0,
            actual: 1
        })
    );
    assert_eq!(
        DatabasePreparationError::from(PreparationError::StaleRevision {
            expected: 0,
            actual: 1
        }),
        DatabasePreparationError::StaleRevision
    );

    let outcome = EngineRecovery::with_expected(
        RecordSequence::first(),
        TestEngine {
            revision: u128::MAX,
            ..TestEngine::empty()
        },
    )
    .finish(0)
    .unwrap();
    let mut exhausted =
        Database::from_recovered(outcome, MemoryWal::new(), options(Durability::Sync));
    assert_eq!(
        exhausted.apply(create("third", 10), 0),
        Err(DatabaseError::Preparation(
            DatabasePreparationError::RevisionOverflow
        ))
    );
    assert_eq!(exhausted.backend().append_count(), 0);
    assert!(!exhausted.is_poisoned());
}

#[test]
fn a_group_without_a_response_is_an_invariant_failure() {
    assert_eq!(
        take_response(Vec::new()),
        Err(DatabaseError::CoordinatorInvariant)
    );
    assert_eq!(
        take_response(vec![
            Err(DomainError::PromiseNotFound),
            Err(DomainError::VersionConflict)
        ]),
        Ok(Err(DomainError::VersionConflict))
    );
}

#[test]
fn recovery_reports_what_the_engine_refuses() {
    let mut original = MemoryDatabase::new(MemoryWal::new(), options(Durability::Sync));
    original.apply(create("create", 10), 0).unwrap().unwrap();
    let first = original.backend().bytes().len() as u64;
    original.apply(hold("hold", 2), 1).unwrap().unwrap();
    let bytes = original.backend().bytes().to_vec();

    let behind = TestEngine {
        sequence: 2,
        ..TestEngine::empty()
    };
    assert_eq!(
        recover_engine_with_expected(
            &bytes,
            RecordLimits::default(),
            RecordSequence::first(),
            behind
        )
        .err(),
        Some(RecoveryError::Install {
            last_valid_offset: 0,
            source: RecoveryInstallError::Sequence,
        })
    );

    let overdrawn = EngineRecovery::with_expected(
        RecordSequence::first(),
        TestEngine {
            promises: vec![Promise::restore(
                promise(3),
                PromiseState::Held { expires_at: 9 },
                bundle(pool(1), 9),
                Version::new(1).unwrap(),
                SequenceNumber::new(1),
                SequenceNumber::new(1),
            )
            .unwrap()],
            ..TestEngine::empty()
        },
    );
    let mut overdrawn = overdrawn;
    let end = overdrawn.feed(&bytes, RecordLimits::default()).unwrap();
    assert_eq!(end, bytes.len() as u64);
    assert!(first < end);
    assert_eq!(
        overdrawn.finish(end).err(),
        Some(RecoveryError::Install {
            last_valid_offset: end,
            source: RecoveryInstallError::Index,
        })
    );
}

// Database directories in memory.

#[derive(Debug, Default)]
struct Files {
    manifest: Vec<u8>,
    wal: BTreeMap<String, Vec<u8>>,
    snapshots: BTreeMap<String, Vec<u8>>,
    temporary_snapshot: bool,
}

type Directory = Rc<RefCell<Files>>;

fn directory() -> Directory {
    Rc::new(RefCell::new(Files::default()))
}

struct DirectoryWal {
    files: Directory,
    database_uuid: DatabaseUuid,
    active_name: String,
    active: ActiveSegment,
    snapshot_limits: SnapshotLimits,
}

fn install_segment(files: &Directory, uuid: DatabaseUuid, first: RecordSequence) -> String {
    let name = segment_name(first);
    files
        .borrow_mut()
        .wal
        .insert(name.clone(), segment_header(uuid, first));
    name
}

impl DirectoryWal {
    fn rotate(&mut self, first: RecordSequence) {
        self.active_name = install_segment(&self.files, self.database_uuid, first);
        self.active.rotated();
    }

    fn physical_len(&self) -> u64 {
        self.files.borrow().wal[&self.active_name].len() as u64
    }
}

impl WalBackend for DirectoryWal {
    fn append(&mut self, bytes: &[u8]) -> Result<(), StorageError> {
        let plan = self.active.plan_append(bytes)?;
        if let Some(first) = plan.rotate_to {
            self.rotate(first);
        }
        self.files
            .borrow_mut()
            .wal
            .get_mut(&self.active_name)
            .unwrap()
            .extend_from_slice(bytes);
        self.active.appended(plan);
        Ok(())
    }

    fn flush(&mut self) -> Result<(), StorageError> {
        Ok(())
    }

    fn sync(&mut self) -> Result<(), StorageError> {
        Ok(())
    }
}

type FileDatabase = Database<DirectoryWal, TestEngine>;

#[derive(Clone, Copy, PartialEq)]
enum Format {
    One,
    Two,
}

fn create_files(
    files: &Directory,
    options: FileDatabaseOptions,
    format: Format,
) -> Result<FileDatabase, FileDatabaseError> {
    let options = options.validate()?;
    let database_uuid = DatabaseUuid::generate();
    files.borrow_mut().manifest = match format {
        Format::One => manifest_v1::manifest_bytes(manifest_v1::Manifest {
            database_uuid,
            record_limits: options.record_limits,
        }),
        Format::Two => manifest_bytes(Manifest {
            database_uuid,
            record_limits: options.record_limits,
            snapshot_limits: options.snapshot_limits,
        }),
    };
    let active_name = install_segment(files, database_uuid, RecordSequence::first());
    let backend = DirectoryWal {
        files: files.clone(),
        database_uuid,
        active_name,
        active: ActiveSegment::fresh(options.segment_target, options.record_limits),
        snapshot_limits: options.snapshot_limits,
    };
    Ok(Database::new(backend, options.database_options()))
}

fn read_manifest(
    files: &Directory,
    options: &FileDatabaseOptions,
    format: Format,
) -> Result<Manifest, FileDatabaseError> {
    let bytes = files.borrow().manifest.clone();
    match format {
        Format::One => manifest_v1::parse_manifest(&bytes)
            .map(|manifest| Manifest {
                database_uuid: manifest.database_uuid,
                record_limits: manifest.record_limits,
                snapshot_limits: options.snapshot_limits,
            })
            .map_err(FileDatabaseError::Manifest),
        Format::Two => parse_manifest(&bytes).map_err(FileDatabaseError::Manifest),
    }
}

fn load_snapshot(
    files: &Directory,
    manifest: &Manifest,
) -> Result<Option<DecodedSnapshot<TestEngine>>, FileDatabaseError> {
    files.borrow_mut().temporary_snapshot = false;
    let mut latest: Option<u64> = None;
    for name in files.borrow().snapshots.keys() {
        latest = note_snapshot(latest, Some(name), true).map_err(|()| {
            FileDatabaseError::Snapshot {
                path: PathBuf::from(name),
                source: SnapshotError::InvalidFilename(PathBuf::from(name)),
            }
        })?;
    }
    let Some(watermark) = latest else {
        return Ok(None);
    };
    let name = snapshot_name(watermark);
    let bytes = files.borrow().snapshots[&name].clone();
    let failed = |source| FileDatabaseError::Snapshot {
        path: PathBuf::from(&name),
        source,
    };
    check_snapshot_length(bytes.len() as u64, manifest.snapshot_limits).map_err(failed)?;
    snapshot::decode(
        &bytes,
        manifest.snapshot_limits,
        manifest.database_uuid,
        STATE_MACHINE_SEMANTICS_VERSION,
        watermark,
    )
    .map(Some)
    .map_err(failed)
}

fn read_segments(
    files: &Directory,
    uuid: DatabaseUuid,
    minimum: u64,
) -> Result<(Vec<SegmentInfo>, Vec<String>), FileDatabaseError> {
    let mut segments = Vec::new();
    let mut obsolete = Vec::new();
    for (name, bytes) in &files.borrow().wal {
        let path = PathBuf::from(name);
        match classify_segment(Some(name), true, minimum) {
            SegmentEntry::Foreign => return Err(FileDatabaseError::InvalidSegmentName(path)),
            SegmentEntry::Obsolete => obsolete.push(name.clone()),
            SegmentEntry::Live(sequence) => {
                let header = parse_segment_header(bytes, uuid);
                segments.push(check_segment(path, sequence, header)?);
            }
        }
    }
    Ok((order_segments(PathBuf::from("wal"), segments)?, obsolete))
}

fn open_files(
    files: &Directory,
    options: FileDatabaseOptions,
    format: Format,
) -> Result<FileDatabase, FileDatabaseError> {
    let options = options.validate()?;
    let manifest = read_manifest(files, &options, format)?;
    check_limits(&manifest, &options)?;
    files.borrow_mut().wal.retain(|name, _| !is_segment_temp(name));
    let loaded = load_snapshot(files, &manifest)?.map(|value| (value.wal_watermark, value.engine));
    let minimum = minimum_sequence(loaded.as_ref().map(|(watermark, _)| *watermark));
    let (segments, obsolete) = read_segments(files, manifest.database_uuid, minimum)?;
    let mut walk = SegmentWalk::begin(loaded, segments);
    while let Some(segment) = walk.next_segment()? {
        let name = segment.path.to_str().unwrap().to_string();
        let records = files.borrow().wal[&name][SEGMENT_HEADER_LEN as usize..].to_vec();
        let fed = walk.recovery_mut().feed(&records, options.record_limits);
        if let Some(length) = walk.conclude(fed)? {
            files
                .borrow_mut()
                .wal
                .get_mut(&name)
                .unwrap()
                .truncate(length as usize);
        }
    }
    let (outcome, active) = walk.finish()?;
    for name in obsolete {
        files.borrow_mut().wal.remove(&name);
    }
    let active_name = active.path.to_str().unwrap().to_string();
    let active_len = files.borrow().wal[&active_name].len() as u64;
    let backend = DirectoryWal {
        files: files.clone(),
        database_uuid: manifest.database_uuid,
        active_name,
        active: ActiveSegment::resumed(
            active_len,
            options.segment_target,
            options.record_limits,
            outcome.next_record_sequence(),
        ),
        snapshot_limits: options.snapshot_limits,
    };
    Ok(Database::from_recovered(
        outcome,
        backend,
        options.database_options(),
    ))
}

fn create_snapshot(database: &mut FileDatabase) -> Result<SnapshotOutcome, FileDatabaseError> {
    let plan = plan_snapshot(
        database.is_poisoned(),
        database.next_record_sequence(),
        database.backend().active.has_records(),
    )?;
    if let Some(first) = plan.rotate_to {
        database.backend_mut().rotate(first);
    }
    let name = snapshot_name(plan.watermark);
    let bytes = snapshot::encode(
        &SnapshotFile {
            database_uuid: database.backend().database_uuid,
            semantics_version: STATE_MACHINE_SEMANTICS_VERSION,
            wal_watermark: plan.watermark,
            engine: database.engine_snapshot(),
        },
        database.backend().snapshot_limits,
    )
    .map_err(|source| FileDatabaseError::Snapshot {
        path: PathBuf::from(&name),
        source,
    })?;
    let length = bytes.len() as u64;
    let backend = database.backend();
    let mut files = backend.files.borrow_mut();
    files.snapshots.insert(name.clone(), bytes);
    let active = parse_segment_name(&backend.active_name).unwrap();
    let mut compaction = Compaction::new(active, plan.watermark);
    files
        .wal
        .retain(|other, _| !compaction.removes_segment(Some(other)));
    files
        .snapshots
        .retain(|other, _| !compaction.removes_snapshot(Some(other)));
    Ok(compaction.outcome(PathBuf::from(name), length))
}

fn target(segment_target: u64) -> FileDatabaseOptions {
    FileDatabaseOptions {
        segment_target,
        ..FileDatabaseOptions::default()
    }
}

fn create_pool(byte: u8) -> Command {
    Command::new(
        ClientId::new("file-tests".to_string()),
        IdempotencyKey::new(format!("create-{byte}")),
        CommandOperation::CreateResourcePool {
            resource_pool_id: ResourcePoolId::from_bytes([byte; 16]),
            display_name: format!("pool-{byte}"),
            unit: Unit::new("unit".into(), 1).unwrap(),
            capacity_curve: CapacityCurve::empty(),
        },
    )
}

fn wal_names(files: &Directory) -> Vec<String> {
    files.borrow().wal.keys().cloned().collect()
}

fn mutate(files: &Directory, name: &str, update: impl FnOnce(&mut Vec<u8>)) {
    update(files.borrow_mut().wal.get_mut(name).unwrap());
}

fn resign_header(bytes: &mut [u8]) {
    let checksum = blake3::hash(&bytes[..48]);
    bytes[48..64].copy_from_slice(&checksum.as_bytes()[..16]);
}

fn resign_first_record(bytes: &mut [u8]) {
    let start = SEGMENT_HEADER_LEN as usize;
    let length = u32::from_le_bytes(bytes[start + 8..start + 12].try_into().unwrap()) as usize;
    let checksum_start = start + length - 16;
    let checksum = blake3::hash(&bytes[start..checksum_start]);
    bytes[checksum_start..start + length].copy_from_slice(&checksum.as_bytes()[..16]);
}

fn encoded_empty_record() -> Vec<u8> {
    encode(
        &Record::new(RecordSequence::first(), 0, Vec::new()),
        RecordLimits::default(),
    )
    .unwrap()
}

fn opened(result: Result<FileDatabase, FileDatabaseError>) -> FileDatabase {
    match result {
        Ok(database) => database,
        Err(error) => panic!("{error:?}"),
    }
}

fn refused(result: Result<FileDatabase, FileDatabaseError>) -> FileDatabaseError {
    match result {
        Ok(_) => panic!("the database was opened"),
        Err(error) => error,
    }
}

fn check_defaults() {
    let defaults = FileDatabaseOptions::default();
    assert_eq!(defaults.durability, Durability::Sync);
    assert_eq!(defaults.record_limits.max_record_len(), 64 * 1024 * 1024);
    assert_eq!(defaults.segment_target, 256 * 1024 * 1024);
    assert!(matches!(
        target(MIN_SEGMENT_TARGET - 1).validate(),
        Err(FileDatabaseError::InvalidSegmentTarget { .. })
    ));
}

#[test]
fn file_defaults_are_sync_and_production_sized() {
    check_defaults();
}

#[test]
fn tests_defaults_are_sync_and_production_sized() {
    check_defaults();
    assert_eq!(
        FileDatabaseOptions::default().snapshot_limits,
        SnapshotLimits::default()
    );
}

fn check_append_length(format: Format) {
    let files = directory();
    let database = opened(create_files(&files, FileDatabaseOptions::default(), format));
    let uuid = database.backend().database_uuid;
    let active_name = database.backend().active_name.clone();
    drop(database);

    let mut backend = DirectoryWal {
        files: files.clone(),
        database_uuid: uuid,
        active_name,
        active: ActiveSegment::new(
            SEGMENT_HEADER_LEN,
            false,
            u64::MAX,
            RecordLimits::default(),
            Some(RecordSequence::first()),
        ),
        snapshot_limits: SnapshotLimits::default(),
    };
    let bytes = encoded_empty_record();

    backend.append(&bytes).unwrap();

    let expected_len = SEGMENT_HEADER_LEN + u64::try_from(bytes.len()).unwrap();
    assert_eq!(backend.active.len(), expected_len);
    assert_eq!(backend.physical_len(), expected_len);
    assert_eq!(
        backend.active.expected_sequence(),
        Some(RecordSequence::new(2).unwrap())
    );
}

#[test]
fn file_append_tracks_the_exact_checked_physical_length() {
    check_append_length(Format::One);
}

#[test]
fn tests_append_tracks_the_exact_checked_physical_length() {
    check_append_length(Format::Two);
}

fn check_length_overflow(format: Format) {
    let files = directory();
    let database = opened(create_files(&files, FileDatabaseOptions::default(), format));
    let uuid = database.backend().database_uuid;
    let active_name = database.backend().active_name.clone();
    drop(database);

    let bytes = encoded_empty_record();
    let append_len = u64::try_from(bytes.len()).unwrap();
    let active_len = u64::MAX - append_len + 1;
    let mut backend = DirectoryWal {
        files: files.clone(),
        database_uuid: uuid,
        active_name: active_name.clone(),
        active: ActiveSegment::new(
            active_len,
            true,
            u64::MAX - 1,
            RecordLimits::default(),
            Some(RecordSequence::first()),
        ),
        snapshot_limits: SnapshotLimits::default(),
    };
    let physical_len = backend.physical_len();
    let names = wal_names(&files);

    assert_eq!(
        backend.append(&bytes),
        Err(StorageError::SegmentLengthOverflow {
            current: active_len,
            append: bytes.len(),
        })
    );
    assert_eq!(backend.active.len(), active_len);
    assert_eq!(backend.active_name, active_name);
    assert!(backend.active.has_records());
    assert_eq!(
        backend.active.expected_sequence(),
        Some(RecordSequence::first())
    );
    assert_eq!(backend.physical_len(), physical_len);
    assert_eq!(wal_names(&files), names);
}

#[test]
fn file_segment_length_overflow_fails_before_write_or_rotation_mutation() {
    check_length_overflow(Format::One);
}

#[test]
fn tests_segment_length_overflow_fails_before_write_or_rotation_mutation() {
    check_length_overflow(Format::Two);
}

#[test]
fn file_manifest_is_canonical_and_corruption_and_limit_mismatch_are_structured() {
    let files = directory();
    let database = opened(create_files(
        &files,
        FileDatabaseOptions::default(),
        Format::One,
    ));
    let uuid = database.backend().database_uuid;
    drop(database);
    assert_eq!(
        files.borrow().manifest,
        manifest_v1::manifest_bytes(manifest_v1::Manifest {
            database_uuid: uuid,
            record_limits: RecordLimits::default(),
        })
    );

    let mismatched = FileDatabaseOptions {
        record_limits: RecordLimits::new(1024).unwrap(),
        ..FileDatabaseOptions::default()
    };
    assert!(matches!(
        refused(open_files(&files, mismatched, Format::One)),
        FileDatabaseError::RecordLimitsMismatch { persisted, requested }
            if persisted == 64 * 1024 * 1024 && requested == 1024
    ));

    files.borrow_mut().manifest[48] ^= 1;
    assert_eq!(
        refused(open_files(
            &files,
            FileDatabaseOptions::default(),
            Format::One
        )),
        FileDatabaseError::Manifest(ManifestError::ChecksumMismatch)
    );
}

#[test]
fn tests_manifest_is_canonical_and_corruption_and_limit_mismatch_are_structured() {
    let files = directory();
    let database = opened(create_files(
        &files,
        FileDatabaseOptions::default(),
        Format::Two,
    ));
    let uuid = database.backend().database_uuid;
    drop(database);
    assert_eq!(
        files.borrow().manifest,
        manifest_bytes(Manifest {
            database_uuid: uuid,
            record_limits: RecordLimits::default(),
            snapshot_limits: SnapshotLimits::default(),
        })
    );

    let mismatched = FileDatabaseOptions {
        record_limits: RecordLimits::new(1024).unwrap(),
        ..FileDatabaseOptions::default()
    };
    assert!(matches!(
        refused(open_files(&files, mismatched, Format::Two)),
        FileDatabaseError::RecordLimitsMismatch { persisted, requested }
            if persisted == 64 * 1024 * 1024 && requested == 1024
    ));

    files.borrow_mut().manifest[48] ^= 1;
    assert_eq!(
        refused(open_files(
            &files,
            FileDatabaseOptions::default(),
            Format::Two
        )),
        FileDatabaseError::Manifest(ManifestError::ChecksumMismatch)
    );
}

#[test]
fn snapshot_limits_must_match_the_manifest() {
    let files = directory();
    drop(opened(create_files(
        &files,
        FileDatabaseOptions::default(),
        Format::Two,
    )));
    let requested = SnapshotLimits {
        max_total_bytes: 4096,
        ..SnapshotLimits::default()
    };
    let mismatched = FileDatabaseOptions {
        snapshot_limits: requested,
        ..FileDatabaseOptions::default()
    };
    assert_eq!(
        refused(open_files(&files, mismatched, Format::Two)),
        FileDatabaseError::SnapshotLimitsMismatch {
            persisted: SnapshotLimits::default(),
            requested,
        }
    );
}

fn check_names_and_uuid(format: Format) {
    let files = directory();
    drop(opened(create_files(
        &files,
        FileDatabaseOptions::default(),
        format,
    )));
    let segment = wal_names(&files).pop().unwrap();
    let bytes = files.borrow_mut().wal.remove(&segment).unwrap();
    files
        .borrow_mut()
        .wal
        .insert("1.wal".to_string(), bytes.clone());
    assert_eq!(
        refused(open_files(&files, FileDatabaseOptions::default(), format)),
        FileDatabaseError::InvalidSegmentName(PathBuf::from("1.wal"))
    );
    files.borrow_mut().wal.remove("1.wal");
    files.borrow_mut().wal.insert(segment.clone(), bytes);

    mutate(&files, &segment, |bytes| {
        bytes[8..24].copy_from_slice(DatabaseUuid::generate().as_bytes());
        resign_header(bytes);
    });
    assert!(matches!(
        refused(open_files(&files, FileDatabaseOptions::default(), format)),
        FileDatabaseError::SegmentHeader {
            source: SegmentHeaderError::DatabaseUuidMismatch { .. },
            ..
        }
    ));
}

#[test]
fn file_segment_names_are_canonical_and_uuid_is_bound_to_manifest() {
    check_names_and_uuid(Format::One);
}

#[test]
fn tests_segment_names_are_canonical_and_uuid_is_bound_to_manifest() {
    check_names_and_uuid(Format::Two);
}

fn check_rotation(format: Format) {
    let files = directory();
    let options = target(MIN_SEGMENT_TARGET);
    let mut database = opened(create_files(&files, options, format));
    let uuid = database.backend().database_uuid;
    let _ = database.apply(create_pool(1), 1).unwrap();
    let _ = database.apply(create_pool(2), 2).unwrap();
    let _ = database.apply(create_pool(3), 3).unwrap();
    assert_eq!(wal_names(&files).len(), 3);
    assert_eq!(database.next_record_sequence().unwrap().get(), 4);
    drop(database);

    let mut reopened = opened(open_files(&files, options, format));
    assert_eq!(reopened.backend().database_uuid, uuid);
    for byte in 1..=3 {
        assert!(reopened
            .engine()
            .resource_pool(ResourcePoolId::from_bytes([byte; 16]))
            .is_some());
    }
    assert_eq!(reopened.next_record_sequence().unwrap().get(), 4);
    let _ = reopened.apply(create_pool(4), 4).unwrap();
    assert_eq!(reopened.next_record_sequence().unwrap().get(), 5);
}

#[test]
fn file_rotates_whole_groups_and_streams_recovery_across_segments() {
    check_rotation(Format::One);
}

#[test]
fn tests_rotates_whole_groups_and_streams_recovery_across_segments() {
    check_rotation(Format::Two);
}

fn check_oversized_group(format: Format) {
    let files = directory();
    let options = target(MIN_SEGMENT_TARGET);
    let mut database = opened(create_files(&files, options, format));
    database
        .apply_batch(vec![
            TimedCommand::new(create_pool(1), 1),
            TimedCommand::new(create_pool(2), 2),
        ])
        .unwrap();
    assert_eq!(wal_names(&files).len(), 1);
    let _ = database.apply(create_pool(3), 3).unwrap();
    assert_eq!(wal_names(&files).len(), 2);
}

#[test]
fn file_oversized_group_occupies_a_fresh_segment_without_splitting() {
    check_oversized_group(Format::One);
}

#[test]
fn tests_oversized_group_occupies_a_fresh_segment_without_splitting() {
    check_oversized_group(Format::Two);
}

fn check_tail_repair(format: Format) {
    let files = directory();
    let defaults = FileDatabaseOptions::default();
    let mut database = opened(create_files(&files, defaults, format));
    let _ = database.apply(create_pool(1), 1).unwrap();
    let active = database.backend().active_name.clone();
    drop(database);
    let valid_length = files.borrow().wal[&active].len();
    mutate(&files, &active, |bytes| bytes.extend_from_slice(&[0xaa; 10]));

    let mut reopened = opened(open_files(&files, defaults, format));
    assert_eq!(files.borrow().wal[&active].len(), valid_length);
    assert_eq!(reopened.next_record_sequence().unwrap().get(), 2);
    let _ = reopened.apply(create_pool(2), 2).unwrap();
    drop(reopened);
    let reopened = opened(open_files(&files, defaults, format));
    assert_eq!(reopened.next_record_sequence().unwrap().get(), 3);
}

#[test]
fn file_final_partial_tail_is_truncated_and_sequence_continues() {
    check_tail_repair(Format::One);
}

#[test]
fn tests_final_partial_tail_is_truncated_and_sequence_continues() {
    check_tail_repair(Format::Two);
}

fn check_sealed_tail(format: Format) {
    let files = directory();
    let options = target(MIN_SEGMENT_TARGET);
    let mut database = opened(create_files(&files, options, format));
    let _ = database.apply(create_pool(1), 1).unwrap();
    let _ = database.apply(create_pool(2), 2).unwrap();
    drop(database);
    let sealed = wal_names(&files)[0].clone();
    mutate(&files, &sealed, |bytes| bytes.extend_from_slice(&[0xbb; 10]));
    assert!(matches!(
        refused(open_files(&files, options, format)),
        FileDatabaseError::SegmentRecovery {
            sealed: true,
            source: RecoveryError::Storage {
                source: StorageError::PartialTail { .. },
                ..
            },
            ..
        }
    ));
}

#[test]
fn file_partial_tail_in_sealed_segment_is_fatal() {
    check_sealed_tail(Format::One);
}

#[test]
fn tests_partial_tail_in_sealed_segment_is_fatal() {
    check_sealed_tail(Format::Two);
}

fn check_corruption_stays(format: Format) {
    let files = directory();
    let defaults = FileDatabaseOptions::default();
    let mut database = opened(create_files(&files, defaults, format));
    let _ = database.apply(create_pool(1), 1).unwrap();
    drop(database);
    let segment = wal_names(&files).pop().unwrap();
    mutate(&files, &segment, |bytes| {
        let last = bytes.len() - 1;
        bytes[last] ^= 1;
    });
    let length = files.borrow().wal[&segment].len();
    assert!(matches!(
        refused(open_files(&files, defaults, format)),
        FileDatabaseError::SegmentRecovery {
            sealed: false,
            physical_offset: SEGMENT_HEADER_LEN,
            source: RecoveryError::Storage {
                source: StorageError::CorruptWalRecord {
                    reason: RecordCorruption::ChecksumMismatch,
                    ..
                },
                ..
            },
            ..
        }
    ));
    assert_eq!(files.borrow().wal[&segment].len(), length);
}

#[test]
fn file_complete_checksum_corruption_is_never_repaired() {
    check_corruption_stays(Format::One);
}

#[test]
fn tests_complete_checksum_corruption_is_never_repaired() {
    check_corruption_stays(Format::Two);
}

fn check_sequence_gap(format: Format) {
    let files = directory();
    let options = target(MIN_SEGMENT_TARGET);
    let mut database = opened(create_files(&files, options, format));
    let _ = database.apply(create_pool(1), 1).unwrap();
    let _ = database.apply(create_pool(2), 2).unwrap();
    drop(database);
    let second = wal_names(&files)[1].clone();
    mutate(&files, &second, |bytes| {
        let sequence = SEGMENT_HEADER_LEN as usize + 16;
        bytes[sequence..sequence + 8].copy_from_slice(&3_u64.to_le_bytes());
        resign_first_record(bytes);
    });
    assert!(matches!(
        refused(open_files(&files, options, format)),
        FileDatabaseError::SegmentRecovery {
            source: RecoveryError::Storage {
                source: StorageError::CorruptWalRecord {
                    reason: RecordCorruption::SequenceMismatch {
                        expected: 2,
                        actual: 3
                    },
                    ..
                },
                ..
            },
            ..
        }
    ));
}

#[test]
fn file_sequence_gap_is_fatal_without_resynchronization() {
    check_sequence_gap(Format::One);
}

#[test]
fn tests_sequence_gap_is_fatal_without_resynchronization() {
    check_sequence_gap(Format::Two);
}

fn check_empty_active_segment(format: Format) {
    let files = directory();
    let defaults = FileDatabaseOptions::default();
    let mut database = opened(create_files(&files, defaults, format));
    let _ = database.apply(create_pool(1), 1).unwrap();
    let uuid = database.backend().database_uuid;
    drop(database);
    install_segment(&files, uuid, RecordSequence::new(2).unwrap());
    let reopened = opened(open_files(&files, defaults, format));
    assert_eq!(reopened.next_record_sequence().unwrap().get(), 2);
    assert_eq!(reopened.backend().active_name, "00000000000000000002.wal");
}

#[test]
fn file_empty_final_active_segment_is_valid() {
    check_empty_active_segment(Format::One);
}

#[test]
fn tests_empty_final_active_segment_is_valid() {
    check_empty_active_segment(Format::Two);
}

fn check_retry(format: Format) {
    let files = directory();
    let defaults = FileDatabaseOptions::default();
    let command = create_pool(1);
    let mut database = opened(create_files(&files, defaults, format));
    let first_response = database.apply(command.clone(), 1).unwrap();
    drop(database);
    let mut reopened = opened(open_files(&files, defaults, format));
    assert_eq!(reopened.apply(command, 999).unwrap(), first_response);
    assert_eq!(reopened.next_record_sequence().unwrap().get(), 2);
}

#[test]
fn file_recovered_retry_does_not_duplicate_apply() {
    check_retry(Format::One);
}

#[test]
fn tests_recovered_retry_does_not_duplicate_apply() {
    check_retry(Format::Two);
}

fn check_segment_temps(format: Format) {
    let files = directory();
    let defaults = FileDatabaseOptions::default();
    drop(opened(create_files(&files, defaults, format)));
    let temp = "00000000000000000002.wal.tmp";
    assert_eq!(segment_temp_name(RecordSequence::new(2).unwrap()), temp);
    files
        .borrow_mut()
        .wal
        .insert(temp.to_string(), b"crash debris".to_vec());
    let database = opened(open_files(&files, defaults, format));
    assert!(!files.borrow().wal.contains_key(temp));
    drop(database);
}

#[test]
fn file_recognized_segment_temp_files_are_removed_while_opening_locked() {
    check_segment_temps(Format::One);
}

#[test]
fn tests_recognized_segment_temp_files_are_removed_while_opening_locked() {
    check_segment_temps(Format::Two);
}

#[test]
fn segments_must_follow_each_other_and_carry_their_names() {
    let files = directory();
    let defaults = FileDatabaseOptions::default();
    let mut database = opened(create_files(&files, defaults, Format::Two));
    let _ = database.apply(create_pool(1), 1).unwrap();
    let uuid = database.backend().database_uuid;
    drop(database);
    let late = install_segment(&files, uuid, RecordSequence::new(3).unwrap());
    assert_eq!(
        refused(open_files(&files, defaults, Format::Two)),
        FileDatabaseError::SegmentSequence {
            path: PathBuf::from(&late),
            expected: Some(2),
            actual: 3,
        }
    );

    let bytes = files.borrow_mut().wal.remove(&late).unwrap();
    let wrong = segment_name(RecordSequence::new(2).unwrap());
    files.borrow_mut().wal.insert(wrong.clone(), bytes);
    assert_eq!(
        refused(open_files(&files, defaults, Format::Two)),
        FileDatabaseError::SegmentNameSequence {
            path: PathBuf::from(&wrong),
            filename_sequence: 2,
            header_sequence: 3,
        }
    );

    files.borrow_mut().wal.clear();
    assert_eq!(
        refused(open_files(&files, defaults, Format::Two)),
        FileDatabaseError::MissingSegments(PathBuf::from("wal"))
    );
}

// Snapshots.

#[test]
fn empty_snapshot_at_watermark_zero_reopens_and_cleans_temp() {
    let files = directory();
    let defaults = FileDatabaseOptions::default();
    let mut database = opened(create_files(&files, defaults, Format::Two));
    let outcome = create_snapshot(&mut database).unwrap();
    assert_eq!(outcome.watermark, 0);
    assert!(outcome.path.ends_with("00000000000000000000.snapshot"));
    drop(database);
    files.borrow_mut().temporary_snapshot = true;
    let reopened = opened(open_files(&files, defaults, Format::Two));
    assert_eq!(reopened.engine().sequence().get(), 0);
    assert_eq!(reopened.next_record_sequence().unwrap().get(), 1);
    assert!(!files.borrow().temporary_snapshot);
}

#[test]
fn snapshot_round_trip_replays_suffix_and_preserves_retry_events_and_compaction() {
    let files = directory();
    let defaults = FileDatabaseOptions::default();
    let mut database = opened(create_files(&files, defaults, Format::Two));
    let first = create_pool(1);
    let first_response = database.apply(first.clone(), 11).unwrap();
    let outcome = create_snapshot(&mut database).unwrap();
    assert_eq!(outcome.watermark, 1);
    assert_eq!(outcome.segments_removed, 1);
    assert_eq!(database.backend().active_name, "00000000000000000002.wal");
    let _ = database.apply(create_pool(2), 22).unwrap();
    let expected_events = database
        .engine()
        .watch_events(SequenceNumber::new(0))
        .to_vec();
    drop(database);

    let mut reopened = opened(open_files(&files, defaults, Format::Two));
    assert!(reopened.engine().restored);
    assert_eq!(reopened.engine().installed, 1);
    assert!(reopened
        .engine()
        .resource_pool(ResourcePoolId::from_bytes([1; 16]))
        .is_some());
    assert!(reopened
        .engine()
        .resource_pool(ResourcePoolId::from_bytes([2; 16]))
        .is_some());
    assert_eq!(
        reopened.engine().watch_events(SequenceNumber::new(0)),
        expected_events
    );
    assert_eq!(reopened.engine().idempotency_record_count(), 2);
    assert_eq!(reopened.apply(first, 999).unwrap(), first_response);
    assert_eq!(reopened.next_record_sequence().unwrap().get(), 3);
}

#[test]
fn corrupt_highest_snapshot_is_fatal_without_fallback() {
    let files = directory();
    let defaults = FileDatabaseOptions::default();
    let mut database = opened(create_files(&files, defaults, Format::Two));
    let _ = database.apply(create_pool(1), 1).unwrap();
    create_snapshot(&mut database).unwrap();
    let first_bytes = files.borrow().snapshots[&snapshot_name(1)].clone();
    let _ = database.apply(create_pool(2), 2).unwrap();
    let highest = create_snapshot(&mut database).unwrap();
    assert_eq!(highest.older_snapshots_removed, 1);
    files
        .borrow_mut()
        .snapshots
        .insert(snapshot_name(1), first_bytes);
    files
        .borrow_mut()
        .snapshots
        .get_mut(&snapshot_name(2))
        .unwrap()[128] ^= 1;
    drop(database);
    assert_eq!(
        refused(open_files(&files, defaults, Format::Two)),
        FileDatabaseError::Snapshot {
            path: PathBuf::from(snapshot_name(2)),
            source: SnapshotError::ChecksumMismatch,
        }
    );
}

#[test]
fn hostile_snapshot_lengths_and_counts_fail_before_large_allocation() {
    let files = directory();
    let mut database = opened(create_files(
        &files,
        FileDatabaseOptions::default(),
        Format::Two,
    ));
    create_snapshot(&mut database).unwrap();
    let uuid = database.backend().database_uuid;
    drop(database);
    let written = files.borrow().snapshots[&snapshot_name(0)].clone();
    let limits = SnapshotLimits {
        max_total_bytes: 4096,
        max_collection_items: 32,
        max_string_bytes: 64,
        max_nested_items: 32,
    };

    let mut huge_length = written.clone();
    huge_length[16..24].copy_from_slice(&u64::MAX.to_le_bytes());
    huge_length[24..32].copy_from_slice(&u64::MAX.to_le_bytes());
    assert!(matches!(
        snapshot::decode::<TestEngine>(
            &huge_length,
            limits,
            uuid,
            STATE_MACHINE_SEMANTICS_VERSION,
            0
        ),
        Err(SnapshotError::Limit {
            field: "total bytes",
            ..
        })
    ));

    let mut huge_count = written;
    huge_count[128..132].copy_from_slice(&u32::MAX.to_le_bytes());
    let checksum_start = huge_count.len() - 32;
    let checksum = blake3::hash(&huge_count[..checksum_start]);
    huge_count[checksum_start..].copy_from_slice(checksum.as_bytes());
    assert!(matches!(
        snapshot::decode::<TestEngine>(
            &huge_count,
            limits,
            uuid,
            STATE_MACHINE_SEMANTICS_VERSION,
            0
        ),
        Err(SnapshotError::MalformedPayload(
            StorageError::InvalidLength {
                field: "resource pools",
                ..
            }
        ))
    ));

    assert!(matches!(
        SnapshotLimits {
            max_total_bytes: 159,
            ..SnapshotLimits::default()
        }
        .validate(),
        Err(SnapshotError::InvalidLimits {
            field: "maximum total bytes",
            ..
        })
    ));
}

#[test]
fn snapshot_decoder_handles_arbitrary_bytes_without_panicking() {
    let limits = SnapshotLimits {
        max_total_bytes: 4096,
        max_collection_items: 32,
        max_string_bytes: 64,
        max_nested_items: 32,
    };
    let uuid = DatabaseUuid::generate();
    let mut state = 0x1234_5678_u64;
    for length in 0..512 {
        let mut bytes = vec![0_u8; length];
        for byte in &mut bytes {
            state = state.wrapping_mul(6364136223846793005).wrapping_add(1);
            *byte = (state >> 56) as u8;
        }
        let result = snapshot::decode::<TestEngine>(
            &bytes,
            limits,
            uuid,
            STATE_MACHINE_SEMANTICS_VERSION,
            0,
        );
        assert!(result.is_err());
    }
}

#[test]
fn an_inconsistent_state_is_refused_after_decoding() {
    let uuid = DatabaseUuid::from_bytes([0x41; 16]);
    let mut engine = TestEngine::empty();
    engine.execute(&create_pool(1), 3);
    engine.sequence = 0;
    let bytes = snapshot::encode(
        &SnapshotFile {
            database_uuid: uuid,
            semantics_version: 1,
            wal_watermark: 1,
            engine: engine.capture_snapshot(),
        },
        SnapshotLimits::default(),
    )
    .unwrap();
    assert!(matches!(
        snapshot::decode::<TestEngine>(&bytes, SnapshotLimits::default(), uuid, 1, 1),
        Err(SnapshotError::InvalidEngineState)
    ));
}

#[test]
fn a_snapshot_at_the_last_watermark_ends_the_log() {
    let files = directory();
    let defaults = FileDatabaseOptions::default();
    let database = opened(create_files(&files, defaults, Format::Two));
    let uuid = database.backend().database_uuid;
    let bytes = snapshot::encode(
        &SnapshotFile {
            database_uuid: uuid,
            semantics_version: STATE_MACHINE_SEMANTICS_VERSION,
            wal_watermark: u64::MAX,
            engine: database.engine_snapshot(),
        },
        SnapshotLimits::default(),
    )
    .unwrap();
    drop(database);
    files
        .borrow_mut()
        .snapshots
        .insert(snapshot_name(u64::MAX), bytes);
    let mut reopened = opened(open_files(&files, defaults, Format::Two));
    assert_eq!(reopened.next_record_sequence(), None);
    assert_eq!(
        reopened.apply(create_pool(1), 1),
        Err(DatabaseError::SequenceExhausted)
    );
    assert_eq!(create_snapshot(&mut reopened).unwrap().watermark, u64::MAX);
}

#[test]
fn snapshots_need_a_healthy_database() {
    assert_eq!(
        plan_snapshot(true, Some(RecordSequence::first()), true),
        Err(FileDatabaseError::SnapshotPoisoned)
    );
    let plan = plan_snapshot(false, RecordSequence::new(7), true).unwrap();
    assert_eq!(plan.watermark, 6);
    assert_eq!(plan.rotate_to, RecordSequence::new(7));
    assert_eq!(
        plan_snapshot(false, RecordSequence::new(7), false)
            .unwrap()
            .rotate_to,
        None
    );
    assert_eq!(minimum_sequence(Some(6)), 7);
    assert_eq!(minimum_sequence(Some(u64::MAX)), 1);
    assert_eq!(minimum_sequence(None), 1);
}

fn frame_refused(bytes: &[u8]) -> StorageError {
    StorageError::InvalidLength {
        field: "WAL record allocation",
        length: bytes.len() as u64,
    }
}

/// Two commands, prepared over an empty engine, with the frames of their records.
fn two_commands() -> (Vec<TimedCommand>, Vec<DurableItem>, Vec<Vec<u8>>) {
    let commands = || {
        vec![
            TimedCommand::new(create("create", 10), 0),
            TimedCommand::new(hold("hold", 2), 1),
        ]
    };
    let items = TestEngine::empty()
        .prepare_batch(commands())
        .unwrap()
        .durable_items;
    let frames = items
        .iter()
        .enumerate()
        .map(|(index, item)| {
            let payload = encode_transition(item.transition()).unwrap();
            let sequence = RecordSequence::new(index as u64 + 1).unwrap();
            encode(
                &Record::new(sequence, item.timestamp(), payload),
                RecordLimits::default(),
            )
            .unwrap()
        })
        .collect();
    (commands(), items, frames)
}

#[test]
fn refused_memory_ends_framing_at_the_item() {
    let (_, items, frames) = two_commands();
    let first = RecordSequence::first();
    let (sequences, next) = assign_sequences(Some(first), 2).unwrap();
    assert_eq!(next.unwrap().get(), 3);
    let limits = RecordLimits::default();
    let framed = |grants: &[bool]| frame_batch_granted(&items, &sequences, limits, grants);
    assert_eq!(framed(&[]), Ok(frames.concat()));
    assert_eq!(frame_batch(&items, &sequences, limits), Ok(frames.concat()));
    assert_eq!(framed(&[false]), Err(frame_refused(&frames[0])));
    assert_eq!(framed(&[true, false]), Err(frame_refused(&frames[1])));
    let small = RecordLimits::new(MIN_RECORD_LEN).unwrap();
    assert!(matches!(
        frame_batch_granted(&items, &sequences, small, &[false, false]),
        Err(StorageError::RecordTooLarge { .. })
    ));
}

#[test]
fn refused_memory_leaves_a_database_as_it_is() {
    let (commands, _, frames) = two_commands();
    let mut database = MemoryDatabase::new(MemoryWal::new(), options(Durability::Sync));
    assert_eq!(
        database.apply_batch_granted(commands, &[true, false]),
        Err(DatabaseError::Storage(frame_refused(&frames[1])))
    );
    assert!(!database.is_poisoned());
    assert_eq!(database.backend().append_count(), 0);
    assert_eq!(database.next_record_sequence().unwrap().get(), 1);
    assert!(database.engine().resource_pool(pool(1)).is_none());

    let (commands, _, _) = two_commands();
    let responses = database.apply_batch_granted(commands, &[]).unwrap();
    assert_eq!(responses.len(), 2);
    assert_eq!(database.backend().bytes(), frames.concat());
    assert_eq!(database.backend().append_count(), 1);
    assert_eq!(database.backend().sync_count(), 1);
    assert_eq!(database.next_record_sequence().unwrap().get(), 3);
}

#[test]
fn a_prepared_group_is_committed_where_memory_is_granted() {
    let (commands, _, frames) = two_commands();
    let mut database = MemoryDatabase::new(MemoryWal::new(), options(Durability::Buffered));
    let prepared = database.engine().prepare_batch(commands).unwrap();
    assert_eq!(
        database.commit_granted(prepared, &[false]),
        Err(DatabaseError::Storage(frame_refused(&frames[0])))
    );
    let (commands, _, _) = two_commands();
    let prepared = database.engine().prepare_batch(commands).unwrap();
    assert_eq!(
        database.commit_granted(prepared, &[true, true]).unwrap().len(),
        2
    );
    assert_eq!(database.backend().bytes(), frames.concat());
    let (commands, _, _) = two_commands();
    let mut other = MemoryDatabase::new(MemoryWal::new(), options(Durability::Buffered));
    let prepared = other.engine().prepare_batch(commands).unwrap();
    assert_eq!(other.commit(prepared).unwrap().len(), 2);
    assert_eq!(other.backend(), database.backend());
}

#[test]
fn refused_memory_ends_replay_behind_the_installed_records() {
    let (_, _, frames) = two_commands();
    let wal = frames.concat();
    let limits = RecordLimits::default();
    let mut recovery = EngineRecovery::<TestEngine>::new();
    assert_eq!(
        recovery.feed_granted(&wal, limits, &[true, false]),
        Err(RecoveryError::Storage {
            last_valid_offset: frames[0].len() as u64,
            source: frame_refused(&frames[1]),
        })
    );
    assert_eq!(recovery.next_record_sequence().unwrap().get(), 2);
    let mut recovery = EngineRecovery::<TestEngine>::new();
    assert_eq!(
        recovery.feed_granted(&wal, limits, &[]),
        Ok(wal.len() as u64)
    );
    assert_eq!(recovery.next_record_sequence().unwrap().get(), 3);

    let outcome = recover_engine_granted::<TestEngine>(&wal, limits, &[]).unwrap();
    assert_eq!(outcome.last_valid_offset(), wal.len() as u64);
    assert!(matches!(
        recover_engine_granted::<TestEngine>(&wal, limits, &[false]),
        Err(RecoveryError::Storage {
            last_valid_offset: 0,
            ..
        })
    ));
    let recovered = MemoryDatabase::recover_granted(
        &wal,
        MemoryWal::from_bytes(wal.clone()),
        options(Durability::Sync),
        &[false],
    );
    assert!(matches!(
        recovered,
        Err(DatabaseError::Recovery(RecoveryError::Storage {
            last_valid_offset: 0,
            ..
        }))
    ));
}

#[test]
fn a_restart_after_any_calls_continues_the_log() {
    let mut database = MemoryDatabase::new(MemoryWal::new(), options(Durability::Sync));
    database.apply_batch(Vec::new()).unwrap();
    database.apply(create("create", 10), 0).unwrap().unwrap();
    let first = database.backend().bytes().to_vec();
    let refused = vec![TimedCommand::new(hold("hold", 2), 1)];
    assert!(database.apply_batch_granted(refused, &[false]).is_err());
    assert_eq!(database.backend().bytes(), first);
    database.apply(hold("hold", 2), 1).unwrap().unwrap();
    let retried = database.backend().bytes().to_vec();
    database.apply(hold("hold", 2), 2).unwrap().unwrap();
    assert_eq!(database.backend().bytes(), retried);

    let wal = database.backend().bytes().to_vec();
    assert_eq!(recover(&wal, RecordLimits::default()).unwrap().len(), 2);
    let restarted = match MemoryDatabase::recover(
        &wal,
        MemoryWal::from_bytes(wal.clone()),
        options(Durability::Sync),
    ) {
        Ok(restarted) => restarted,
        Err(error) => panic!("{error:?}"),
    };
    assert_eq!(
        restarted.next_record_sequence(),
        database.next_record_sequence()
    );
    assert!(restarted.engine().promise(promise(1)).is_some());
}

#[test]
fn only_the_first_uncertain_call_is_reported_as_such() {
    let backend = FaultWal {
        inner: MemoryWal::new(),
        fail_at: FailAt::Append,
    };
    let mut database = Database::<FaultWal, TestEngine>::new(backend, options(Durability::Sync));
    assert_eq!(database.apply_batch(Vec::new()), Ok(Vec::new()));
    assert!(!database.is_poisoned());
    assert!(matches!(
        database.apply(create("create", 10), 0),
        Err(DatabaseError::Indeterminate(_))
    ));
    let written = database.backend().inner.bytes().len();
    for _ in 0..3 {
        assert!(database.is_poisoned());
        assert_eq!(
            database.apply_batch(Vec::new()),
            Err(DatabaseError::Poisoned)
        );
        assert_eq!(
            database.apply(hold("hold", 2), 1),
            Err(DatabaseError::Poisoned)
        );
    }
    assert_eq!(database.backend().inner.bytes().len(), written);
}

#[test]
fn every_command_of_a_group_is_answered_and_first_seen_ones_take_positions() {
    let mut database = MemoryDatabase::new(MemoryWal::new(), options(Durability::Sync));
    database.apply(create("create", 10), 0).unwrap().unwrap();
    let responses = database
        .apply_batch(vec![
            TimedCommand::new(create("create", 10), 5),
            TimedCommand::new(hold("hold", 2), 5),
            TimedCommand::new(hold("hold", 2), 5),
        ])
        .unwrap();
    assert_eq!(responses.len(), 3);
    assert_eq!(database.next_record_sequence().unwrap().get(), 3);
    assert_eq!(database.backend().append_count(), 2);
}

#[test]
fn a_recovered_database_agrees_with_the_one_that_wrote_the_log() {
    let mut database = MemoryDatabase::new(MemoryWal::new(), options(Durability::Sync));
    database.apply(create("create", 10), 0).unwrap().unwrap();
    database.apply(hold("hold", 2), 1).unwrap().unwrap();
    let wal = database.backend().bytes().to_vec();
    let recovered =
        match MemoryDatabase::recover(&wal, MemoryWal::new(), options(Durability::Sync)) {
            Ok(recovered) => recovered,
            Err(error) => panic!("{error:?}"),
        };
    let (read, written) = (recovered.engine_snapshot(), database.engine_snapshot());
    assert_eq!(read.resource_pools, written.resource_pools);
    assert_eq!(read.promises, written.promises);
    assert_eq!(read.events, written.events);
    assert_eq!(read.idempotency_records, written.idempotency_records);
    assert_eq!(read.sequence, written.sequence);
    assert_eq!(
        recovered.next_record_sequence(),
        database.next_record_sequence()
    );
    assert!(!recovered.is_poisoned());
    assert_eq!(recovered.backend().append_count(), 0);
}

//! Snapshot files.

use promisedb::command::{ClientId, IdempotencyKey};
use promisedb::domain::capacity::{CapacityCurve, CapacitySegment, Interval, Unit};
use promisedb::domain::claims::{Bundle, Claim};
use promisedb::domain::ids::{PromiseId, ResourcePoolId};
use promisedb::domain::promise::{Promise, PromiseState, ResourcePool, SequenceNumber, Version};
use promisedb::engine::{EngineSnapshot, IdempotencyRecord};
use promisedb::error::{DomainError, StorageError};
use promisedb::event::{Event, EventData, EventKind};
use promisedb::file::identity::DatabaseUuid;
use promisedb::outcome::{
    AvailabilityConflict, CapacityDeficit, CapacityRevisionOutcome, ChoiceConflict, ChoiceOutcome,
    CommandResponse, CommandResult, HoldOutcome, ReplaceOutcome,
};
use promisedb::snapshot::codec::{
    check_engine, decode_contents, decode_contents_granted, encode, encode_granted, is_engine_valid,
    seal_granted, SnapshotFile,
};
use promisedb::snapshot::frame::{CHECKSUM_LEN, HEADER_LEN, MAGIC, VERSION};
use promisedb::snapshot::limits::{SnapshotError, SnapshotLimits, MIN_SNAPSHOT_BYTES};
use promisedb::transition::CommandHash;

fn uuid() -> DatabaseUuid {
    DatabaseUuid::from_bytes([0x4a; 16])
}

fn empty() -> EngineSnapshot {
    EngineSnapshot {
        resource_pools: Vec::new(),
        promises: Vec::new(),
        events: Vec::new(),
        idempotency_records: Vec::new(),
        sequence: SequenceNumber::new(0),
        publication_revision: 0,
        events_pruned_through: SequenceNumber::new(0),
    }
}

fn full() -> EngineSnapshot {
    let pool = ResourcePoolId::from_bytes([1; 16]);
    let promise = PromiseId::from_bytes([2; 16]);
    let interval = Interval::new(0, 10).unwrap();
    EngineSnapshot {
        resource_pools: vec![ResourcePool::with_id(
            pool,
            "Pool".to_string(),
            Unit::new("units".to_string(), 10).unwrap(),
            CapacityCurve::from_sorted(vec![
                CapacitySegment::new(interval, 4),
                CapacitySegment::new(Interval::new(10, 12).unwrap(), 5),
            ])
            .unwrap(),
        )],
        promises: vec![Promise::restore(
            promise,
            PromiseState::Held { expires_at: 5 },
            Bundle::new(vec![
                Claim::new(pool, interval, 1).unwrap(),
                Claim::new(pool, interval, 2).unwrap(),
            ])
            .unwrap(),
            Version::new(3).unwrap(),
            SequenceNumber::new(1),
            SequenceNumber::new(2),
        )
        .unwrap()],
        events: vec![Event::restore(
            SequenceNumber::new(6),
            -4,
            EventKind::DeficitChanged,
            EventData::Deficit {
                resource_pool_id: pool,
                interval,
                quantity: 1,
                affected_promise_ids: vec![promise, PromiseId::from_bytes([3; 16])],
            },
        )
        .unwrap()],
        idempotency_records: vec![IdempotencyRecord::new(
            ClientId::new("client".to_string()),
            IdempotencyKey::new("key".to_string()),
            CommandHash::from_bytes([9; 32]),
            Err(DomainError::HoldNotExpired),
        )],
        sequence: SequenceNumber::new(0x0102_0304_0506_0708),
        publication_revision: 0x0102_0304_0506_0708_090a_0b0c_0d0e_0f10,
        events_pruned_through: SequenceNumber::new(5),
    }
}

fn file(engine: EngineSnapshot) -> SnapshotFile {
    SnapshotFile {
        database_uuid: uuid(),
        semantics_version: 1,
        wal_watermark: 77,
        engine,
    }
}

fn limits() -> SnapshotLimits {
    SnapshotLimits::default()
}

fn bytes() -> Vec<u8> {
    encode(&file(full()), limits()).unwrap()
}

fn decode(bytes: &[u8]) -> Result<EngineSnapshot, SnapshotError> {
    decode_contents(bytes, limits(), uuid(), 1, 77)
}

fn resign(bytes: &mut [u8]) {
    let end = bytes.len() - CHECKSUM_LEN;
    let checksum = blake3::hash(&bytes[..end]);
    bytes[end..].copy_from_slice(checksum.as_bytes());
}

#[test]
fn snapshots_round_trip() {
    assert_eq!(decode(&bytes()), Ok(full()));
    let least = encode(&file(empty()), limits()).unwrap();
    assert_eq!(decode(&least), Ok(empty()));
    assert_eq!(least.len() as u64, MIN_SNAPSHOT_BYTES + 16);
}

#[test]
fn the_header_is_byte_exact() {
    let bytes = bytes();
    let total = bytes.len() as u64;
    assert_eq!(&bytes[0..4], b"PDBN");
    assert_eq!(bytes[0..4], MAGIC);
    assert_eq!((bytes[4], VERSION), (1, 1));
    assert_eq!(bytes[5], 0);
    assert_eq!(&bytes[6..8], &(HEADER_LEN as u16).to_le_bytes());
    assert_eq!(&bytes[8..10], &32_u16.to_le_bytes());
    assert_eq!(&bytes[10..16], &[0; 6]);
    assert_eq!(&bytes[16..24], &total.to_le_bytes());
    assert_eq!(&bytes[24..32], &(total - 160).to_le_bytes());
    assert_eq!(&bytes[32..48], &[0x4a; 16]);
    assert_eq!(&bytes[48..52], &1_u32.to_le_bytes());
    assert_eq!(&bytes[52..56], &[0; 4]);
    assert_eq!(&bytes[56..64], &77_u64.to_le_bytes());
    assert_eq!(&bytes[64..72], &[8, 7, 6, 5, 4, 3, 2, 1]);
    assert_eq!(
        &bytes[72..88],
        &[16, 15, 14, 13, 12, 11, 10, 9, 8, 7, 6, 5, 4, 3, 2, 1]
    );
    assert_eq!(&bytes[88..96], &5_u64.to_le_bytes());
    assert_eq!(&bytes[96..128], &[0; 32]);
    assert_eq!(&bytes[128..132], &1_u32.to_le_bytes());
    let end = bytes.len() - 32;
    assert_eq!(&bytes[end..], blake3::hash(&bytes[..end]).as_bytes());
}

#[test]
fn every_header_field_is_checked_in_order() {
    type Change = (usize, u8, SnapshotError);
    let changes: Vec<Change> = vec![
        (0, b'Q', SnapshotError::InvalidMagic(*b"QDBN")),
        (4, 2, SnapshotError::UnsupportedVersion(2)),
        (5, 1, SnapshotError::UnsupportedFlags(1)),
        (6, 127, SnapshotError::MalformedHeader("header_len")),
        (8, 31, SnapshotError::MalformedHeader("checksum_len")),
        (10, 1, SnapshotError::NonZeroReserved),
        (55, 1, SnapshotError::NonZeroReserved),
        (127, 1, SnapshotError::NonZeroReserved),
        (24, 0, SnapshotError::MalformedHeader("total_len")),
        (48, 2, SnapshotError::UnsupportedSemanticsVersion(2)),
        (
            56,
            78,
            SnapshotError::FilenameWatermarkMismatch {
                filename: 77,
                header: 78,
            },
        ),
        (64, 0, SnapshotError::ChecksumMismatch),
        (130, 1, SnapshotError::ChecksumMismatch),
    ];
    for (index, value, expected) in changes {
        let mut changed = bytes();
        changed[index] = value;
        assert_eq!(decode(&changed), Err(expected));
    }

    let mut other = bytes();
    other[32] = 0x4b;
    let mut actual = [0x4a; 16];
    actual[0] = 0x4b;
    assert_eq!(
        decode(&other),
        Err(SnapshotError::DatabaseUuidMismatch {
            expected: uuid(),
            actual: DatabaseUuid::from_bytes(actual),
        })
    );

    let mut overflow = bytes();
    overflow[24..32].copy_from_slice(&u64::MAX.to_le_bytes());
    assert_eq!(
        decode(&overflow),
        Err(SnapshotError::MalformedHeader("payload_len"))
    );
}

#[test]
fn cut_files_are_truncated() {
    let bytes = bytes();
    assert_eq!(
        decode(&bytes[..127]),
        Err(SnapshotError::Truncated {
            expected: 128,
            actual: 127,
        })
    );
    assert_eq!(
        decode(&bytes[..bytes.len() - 1]),
        Err(SnapshotError::Truncated {
            expected: bytes.len() as u64,
            actual: bytes.len() as u64 - 1,
        })
    );
}

#[test]
fn payload_failures_are_reported() {
    let mut changed = encode(&file(empty()), limits()).unwrap();
    changed[128..132].copy_from_slice(&4_000_001_u32.to_le_bytes());
    resign(&mut changed);
    assert_eq!(
        decode(&changed),
        Err(SnapshotError::MalformedPayload(
            StorageError::InvalidLength {
                field: "resource pools",
                length: 4_000_001,
            }
        ))
    );

    let narrow = SnapshotLimits {
        max_collection_items: 1,
        ..limits()
    };
    let mut counted = encode(&file(empty()), limits()).unwrap();
    counted[132..136].copy_from_slice(&2_u32.to_le_bytes());
    resign(&mut counted);
    assert_eq!(
        decode_contents(&counted, narrow, uuid(), 1, 77),
        Err(SnapshotError::Limit {
            field: "promises",
            value: 2,
            maximum: 1,
        })
    );

    let mut longer = encode(&file(empty()), limits()).unwrap();
    let end = longer.len() - 32;
    longer.insert(end, 0);
    let total = longer.len() as u64;
    longer[16..24].copy_from_slice(&total.to_le_bytes());
    longer[24..32].copy_from_slice(&(total - 160).to_le_bytes());
    resign(&mut longer);
    assert_eq!(
        decode(&longer),
        Err(SnapshotError::MalformedPayload(
            StorageError::CorruptRecord("trailing snapshot payload bytes")
        ))
    );
}

#[test]
fn budgets_are_checked_before_encoding() {
    let cases = [
        (
            SnapshotLimits {
                max_string_bytes: 3,
                ..limits()
            },
            "display name",
            4,
            3,
        ),
        (
            SnapshotLimits {
                max_string_bytes: 4,
                ..limits()
            },
            "unit name",
            5,
            4,
        ),
        (
            SnapshotLimits {
                max_string_bytes: 5,
                ..limits()
            },
            "client id",
            6,
            5,
        ),
        (
            SnapshotLimits {
                max_nested_items: 1,
                ..limits()
            },
            "capacity segments",
            2,
            1,
        ),
    ];
    for (limits, field, value, maximum) in cases {
        assert_eq!(
            encode(&file(full()), limits),
            Err(SnapshotError::Limit {
                field,
                value,
                maximum,
            })
        );
    }

    let mut claims = full();
    claims.resource_pools.clear();
    let narrow = SnapshotLimits {
        max_nested_items: 1,
        ..limits()
    };
    assert_eq!(
        check_engine(&claims, narrow),
        Err(SnapshotError::Limit {
            field: "bundle claims",
            value: 2,
            maximum: 1,
        })
    );
    claims.promises.clear();
    assert_eq!(
        check_engine(&claims, narrow),
        Err(SnapshotError::Limit {
            field: "affected promise ids",
            value: 2,
            maximum: 1,
        })
    );
    claims.events.clear();
    assert_eq!(check_engine(&claims, narrow), Ok(()));

    let mut events = empty();
    let event = full().events.pop().unwrap();
    events.events = vec![event.clone(), event];
    assert_eq!(
        encode(
            &file(events),
            SnapshotLimits {
                max_collection_items: 1,
                ..limits()
            }
        ),
        Err(SnapshotError::Limit {
            field: "events",
            value: 2,
            maximum: 1,
        })
    );

    assert_eq!(
        encode(
            &file(full()),
            SnapshotLimits {
                max_total_bytes: 200,
                ..limits()
            }
        ),
        Err(SnapshotError::Limit {
            field: "total bytes",
            value: bytes().len() as u64,
            maximum: 200,
        })
    );
}

#[test]
fn a_text_has_a_budget_of_its_own() {
    let mut engine = empty();
    engine.idempotency_records = vec![IdempotencyRecord::new(
        ClientId::new("a long client identity".to_string()),
        IdempotencyKey::new("key".to_string()),
        CommandHash::from_bytes([9; 32]),
        Err(DomainError::HoldNotExpired),
    )];
    let narrow = SnapshotLimits {
        max_collection_items: 8,
        max_nested_items: 8,
        max_string_bytes: 22,
        ..limits()
    };
    let written = encode(&file(engine), narrow).unwrap();
    let read = decode_contents(&written, narrow, uuid(), 1, 77).unwrap();
    assert_eq!(
        read.idempotency_records[0].client_id().as_str(),
        "a long client identity"
    );
    let narrower = SnapshotLimits {
        max_string_bytes: 21,
        ..narrow
    };
    assert_eq!(
        decode_contents(&written, narrower, uuid(), 1, 77),
        Err(SnapshotError::MalformedPayload(
            StorageError::InvalidLength {
                field: "client id",
                length: 22,
            }
        ))
    );
}

/// A state whose only response is `response`.
fn responding(response: CommandResponse) -> EngineSnapshot {
    EngineSnapshot {
        idempotency_records: vec![IdempotencyRecord::new(
            ClientId::new("a".to_string()),
            IdempotencyKey::new("b".to_string()),
            CommandHash::from_bytes([9; 32]),
            response,
        )],
        ..empty()
    }
}

fn conflict(ids: usize) -> AvailabilityConflict {
    AvailabilityConflict::restore(
        ResourcePoolId::from_bytes([1; 16]),
        Interval::new(0, 10).unwrap(),
        5,
        3,
        2,
        (0..ids)
            .map(|id| PromiseId::from_bytes([id as u8 + 1; 16]))
            .collect(),
    )
    .unwrap()
}

fn deficit(start: i64, ids: &[u8]) -> CapacityDeficit {
    CapacityDeficit::restore(
        ResourcePoolId::from_bytes([1; 16]),
        Interval::new(start, start + 10).unwrap(),
        2,
        ids.iter()
            .map(|id| PromiseId::from_bytes([*id; 16]))
            .collect(),
    )
    .unwrap()
}

#[test]
fn lists_in_responses_have_budgets() {
    let responses: Vec<(CommandResponse, &'static str)> = vec![
        (
            Ok(CommandResult::HoldCompleted(HoldOutcome::Unavailable {
                conflicts: vec![conflict(2)],
            })),
            "conflicting promise ids",
        ),
        (
            Ok(CommandResult::HoldCompleted(HoldOutcome::Unavailable {
                conflicts: vec![conflict(1), conflict(1)],
            })),
            "availability conflicts",
        ),
        (
            Ok(CommandResult::PromiseReplaced(
                ReplaceOutcome::Unavailable {
                    conflicts: vec![conflict(1), conflict(1)],
                },
            )),
            "availability conflicts",
        ),
        (
            Ok(CommandResult::ChoiceCompleted(ChoiceOutcome::Unavailable {
                conflicts: vec![
                    ChoiceConflict::restore(0, vec![conflict(1)]).unwrap(),
                    ChoiceConflict::restore(1, vec![conflict(1)]).unwrap(),
                ],
            })),
            "choice conflicts",
        ),
        (
            Ok(CommandResult::ChoiceCompleted(ChoiceOutcome::Unavailable {
                conflicts: vec![
                    ChoiceConflict::restore(0, vec![conflict(1), conflict(1)]).unwrap()
                ],
            })),
            "availability conflicts",
        ),
        (
            Ok(CommandResult::CapacityRevised(
                CapacityRevisionOutcome::restore(
                    SequenceNumber::new(3),
                    vec![deficit(0, &[1]), deficit(10, &[1])],
                    vec![PromiseId::from_bytes([1; 16])],
                )
                .unwrap(),
            )),
            "capacity deficits",
        ),
        (
            Ok(CommandResult::CapacityRevised(
                CapacityRevisionOutcome::restore(
                    SequenceNumber::new(3),
                    vec![deficit(0, &[1, 2])],
                    vec![
                        PromiseId::from_bytes([1; 16]),
                        PromiseId::from_bytes([2; 16]),
                    ],
                )
                .unwrap(),
            )),
            "affected promise ids",
        ),
    ];
    let narrow = SnapshotLimits {
        max_nested_items: 1,
        ..limits()
    };
    for (response, field) in responses {
        let state = responding(response);
        assert_eq!(
            check_engine(&state, narrow),
            Err(SnapshotError::Limit {
                field,
                value: 2,
                maximum: 1,
            })
        );
        let written = encode(&file(state), limits()).unwrap();
        assert_eq!(
            decode_contents(&written, narrow, uuid(), 1, 77),
            Err(SnapshotError::MalformedPayload(
                StorageError::InvalidLength { field, length: 2 }
            ))
        );
        let state = decode_contents(&written, limits(), uuid(), 1, 77).unwrap();
        assert_eq!(encode(&file(state), limits()), Ok(written));
    }
}

#[test]
fn a_position_is_bounded_by_the_larger_list_budget() {
    let within = |max_collection_items, max_nested_items| SnapshotLimits {
        max_collection_items,
        max_nested_items,
        ..limits()
    };
    let refused = |length| {
        Err(SnapshotError::MalformedPayload(
            StorageError::InvalidLength {
                field: "alternative index",
                length,
            },
        ))
    };
    let state = responding(Ok(CommandResult::ChoiceCompleted(ChoiceOutcome::Held {
        promise_id: PromiseId::from_bytes([3; 16]),
        alternative_index: 7,
    })));
    let written = encode(&file(state), within(6, 6)).unwrap();
    for narrow in [within(7, 1), within(1, 7)] {
        let read = decode_contents(&written, narrow, uuid(), 1, 77).unwrap();
        assert_eq!(encode(&file(read), narrow), Ok(written.clone()));
    }
    assert_eq!(
        decode_contents(&written, within(6, 6), uuid(), 1, 77),
        refused(7)
    );

    let state = responding(Ok(CommandResult::ChoiceCompleted(
        ChoiceOutcome::Unavailable {
            conflicts: vec![ChoiceConflict::restore(9, vec![conflict(1)]).unwrap()],
        },
    )));
    let written = encode(&file(state), limits()).unwrap();
    assert_eq!(
        decode_contents(&written, within(8, 8), uuid(), 1, 77),
        refused(9)
    );
    assert_eq!(
        decode_contents(&written, within(9, 8), uuid(), 1, 77),
        Err(SnapshotError::MalformedPayload(
            StorageError::CorruptRecord("non-canonical choice conflict index")
        ))
    );
}

#[test]
fn refused_memory_ends_encoding() {
    let whole = file(full());
    assert_eq!(
        encode_granted(&whole, limits(), &[]),
        encode(&whole, limits())
    );
    assert_eq!(
        encode_granted(&whole, limits(), &[false]),
        Err(SnapshotError::Allocation {
            field: "payload bytes",
            requested: 16,
        })
    );
    let total = bytes().len() as u64;
    assert_eq!(
        encode_granted(&whole, limits(), &[true, false]),
        Err(SnapshotError::Allocation {
            field: "total bytes",
            requested: total,
        })
    );
    let narrow = SnapshotLimits {
        max_total_bytes: 200,
        ..limits()
    };
    assert_eq!(
        encode_granted(&whole, narrow, &[true, false]),
        Err(SnapshotError::Limit {
            field: "total bytes",
            value: total,
            maximum: 200,
        })
    );
}

#[test]
fn a_payload_is_sealed() {
    let payload = vec![0_u8; 16];
    assert_eq!(
        seal_granted(&file(empty()), payload.clone(), limits(), Vec::new(), true),
        encode(&file(empty()), limits())
    );
    assert_eq!(
        seal_granted(&file(empty()), payload.clone(), limits(), Vec::new(), false),
        Err(SnapshotError::Allocation {
            field: "total bytes",
            requested: 176,
        })
    );
    let narrow = SnapshotLimits {
        max_total_bytes: 175,
        ..limits()
    };
    assert_eq!(
        seal_granted(&file(empty()), payload, narrow, Vec::new(), false),
        Err(SnapshotError::Limit {
            field: "total bytes",
            value: 176,
            maximum: 175,
        })
    );
}

#[test]
fn refused_memory_ends_decoding_at_the_list() {
    let written = bytes();
    let read = |grants: &[bool]| {
        decode_contents_granted(&written, limits(), uuid(), 1, 77, grants)
    };
    assert_eq!(read(&[]), decode_contents(&written, limits(), uuid(), 1, 77));
    let fields = [
        "resource pools",
        "promises",
        "events",
        "idempotency records",
    ];
    for (number, field) in fields.into_iter().enumerate() {
        let mut grants = vec![true; number];
        grants.push(false);
        assert_eq!(
            read(&grants),
            Err(SnapshotError::Allocation {
                field,
                requested: 1,
            })
        );
    }

    let mut counted = encode(&file(empty()), limits()).unwrap();
    counted[128..132].copy_from_slice(&100_u32.to_le_bytes());
    resign(&mut counted);
    assert_eq!(
        decode_contents_granted(&counted, limits(), uuid(), 1, 77, &[false]),
        Err(SnapshotError::Allocation {
            field: "resource pools",
            requested: 12,
        })
    );
}

#[test]
fn limits_must_be_positive() {
    let invalid = |field, value, minimum| {
        Err(SnapshotError::InvalidLimits {
            field,
            value,
            minimum,
        })
    };
    assert_eq!(
        SnapshotLimits {
            max_total_bytes: 159,
            ..limits()
        }
        .validate(),
        invalid("maximum total bytes", 159, 160)
    );
    assert_eq!(
        SnapshotLimits {
            max_collection_items: 0,
            ..limits()
        }
        .validate(),
        invalid("maximum collection items", 0, 1)
    );
    assert_eq!(
        SnapshotLimits {
            max_string_bytes: 0,
            ..limits()
        }
        .validate(),
        invalid("maximum string bytes", 0, 1)
    );
    assert_eq!(
        SnapshotLimits {
            max_nested_items: 0,
            ..limits()
        }
        .validate(),
        invalid("maximum nested items", 0, 1)
    );
    assert_eq!(limits().validate(), Ok(limits()));
    assert_eq!(
        encode(
            &file(empty()),
            SnapshotLimits {
                max_nested_items: 0,
                ..limits()
            }
        ),
        Err(SnapshotError::InvalidLimits {
            field: "maximum nested items",
            value: 0,
            minimum: 1,
        })
    );
}

#[test]
fn a_state_is_valid_where_its_responses_are() {
    assert!(is_engine_valid(&empty()));
    assert!(is_engine_valid(&full()));
    let explained = |conflicts| {
        responding(Ok(CommandResult::HoldCompleted(HoldOutcome::Unavailable {
            conflicts,
        })))
    };
    assert!(is_engine_valid(&explained(vec![conflict(1)])));
    let unexplained = explained(Vec::new());
    assert!(!is_engine_valid(&unexplained));
    assert!(!unexplained.idempotency_records[0].is_valid());
    let written = encode(&file(unexplained), limits()).unwrap();
    assert!(decode(&written).is_err());
}

//! Transition payloads.

use promisedb::command::{ClientId, Command, CommandOperation, IdempotencyKey};
use promisedb::domain::capacity::{CapacityCurve, CapacitySegment, Interval, Unit};
use promisedb::domain::claims::{Bundle, Claim};
use promisedb::domain::ids::{PromiseId, ResourcePoolId};
use promisedb::domain::promise::{Promise, PromiseState, ResourcePool, SequenceNumber, Version};
use promisedb::error::{DomainError, StorageError};
use promisedb::event::{
    event_kind_from_tag, tag_of_event_kind, Event, EventData, EventKind,
};
use promisedb::outcome::{
    domain_error_from_tag, tag_of_domain_error, AvailabilityConflict, CapacityDeficit,
    CapacityRevisionOutcome, ChoiceConflict, ChoiceOutcome, CommandResponse, CommandResult,
    HoldOutcome, ReplaceOutcome, SlotOutcome,
};
use promisedb::transition::{
    decode_transition, encode_transition, encode_transition_into, CommandHash, DurableTransition,
    TRANSITION_FORMAT_VERSION,
};

fn pool(byte: u8) -> ResourcePoolId {
    ResourcePoolId::from_bytes([byte; 16])
}

fn promise_id(byte: u8) -> PromiseId {
    PromiseId::from_bytes([byte; 16])
}

fn version(value: u64) -> Version {
    Version::new(value).unwrap()
}

fn interval(start: i64, end: i64) -> Interval {
    Interval::new(start, end).unwrap()
}

fn bundle() -> Bundle {
    Bundle::new(vec![Claim::new(pool(1), interval(10, 20), 3).unwrap()]).unwrap()
}

fn resource_pool(byte: u8) -> ResourcePool {
    ResourcePool::with_id(
        pool(byte),
        "Pool".to_string(),
        Unit::new("units".to_string(), 100).unwrap(),
        CapacityCurve::from_sorted(vec![CapacitySegment::new(interval(0, 50), 7)]).unwrap(),
    )
}

fn promise(byte: u8, state: PromiseState) -> Promise {
    Promise::restore(
        promise_id(byte),
        state,
        bundle(),
        version(2),
        SequenceNumber::new(1),
        SequenceNumber::new(4),
    )
    .unwrap()
}

fn event(sequence: u64, kind: EventKind, data: EventData) -> Event {
    Event::restore(SequenceNumber::new(sequence), 9, kind, data).unwrap()
}

fn transition(
    response: CommandResponse,
    pools: Vec<ResourcePool>,
    promises: Vec<Promise>,
    events: Vec<Event>,
) -> DurableTransition {
    DurableTransition::restore(
        Command::new(
            ClientId::new("client".to_string()),
            IdempotencyKey::new("key".to_string()),
            CommandOperation::ProcessExpirations,
        ),
        ClientId::new("client".to_string()),
        IdempotencyKey::new("key".to_string()),
        CommandHash::from_bytes([7; 32]),
        response,
        pools,
        promises,
        events,
        SequenceNumber::new(12),
    )
}

fn with_response(response: CommandResponse) -> DurableTransition {
    transition(response, Vec::new(), Vec::new(), Vec::new())
}

fn full() -> DurableTransition {
    transition(
        Ok(CommandResult::ExpirationsProcessed { expired_count: 2 }),
        vec![resource_pool(1), resource_pool(2)],
        vec![
            promise(1, PromiseState::Held { expires_at: 30 }),
            promise(2, PromiseState::Committed),
            promise(3, PromiseState::Released),
            promise(4, PromiseState::Expired),
        ],
        vec![
            event(
                2,
                EventKind::ResourceCreated,
                EventData::ResourcePool {
                    resource_pool_id: pool(1),
                },
            ),
            event(
                2,
                EventKind::HoldExpired,
                EventData::Promise {
                    promise_id: promise_id(4),
                    version: version(2),
                },
            ),
            event(
                3,
                EventKind::DeficitCreated,
                EventData::Deficit {
                    resource_pool_id: pool(2),
                    interval: interval(1, 2),
                    quantity: 5,
                    affected_promise_ids: vec![promise_id(1), promise_id(3)],
                },
            ),
        ],
    )
}

fn conflict() -> AvailabilityConflict {
    AvailabilityConflict::restore(
        pool(1),
        interval(3, 4),
        10,
        4,
        6,
        vec![promise_id(1), promise_id(2)],
    )
    .unwrap()
}

fn responses() -> Vec<CommandResponse> {
    let deficit =
        CapacityDeficit::restore(pool(1), interval(0, 5), 2, vec![promise_id(1)]).unwrap();
    vec![
        Ok(CommandResult::ResourcePoolCreated {
            resource_pool_id: pool(3),
        }),
        Ok(CommandResult::CapacityRevised(
            CapacityRevisionOutcome::restore(
                SequenceNumber::new(5),
                vec![deficit],
                vec![promise_id(1)],
            )
            .unwrap(),
        )),
        Ok(CommandResult::HoldCompleted(HoldOutcome::Held(promise_id(1)))),
        Ok(CommandResult::HoldCompleted(HoldOutcome::Unavailable {
            conflicts: vec![conflict()],
        })),
        Ok(CommandResult::ChoiceCompleted(ChoiceOutcome::Held {
            promise_id: promise_id(1),
            alternative_index: 4,
        })),
        Ok(CommandResult::ChoiceCompleted(ChoiceOutcome::Unavailable {
            conflicts: vec![
                ChoiceConflict::restore(0, vec![conflict()]).unwrap(),
                ChoiceConflict::restore(1, vec![conflict(), conflict()]).unwrap(),
            ],
        })),
        Ok(CommandResult::SlotCompleted(SlotOutcome::Held {
            promise_id: promise_id(1),
            start: -5,
        })),
        Ok(CommandResult::SlotCompleted(SlotOutcome::Unavailable {
            attempts: u128::MAX,
        })),
        Ok(CommandResult::PromiseCommitted {
            promise_id: promise_id(1),
            version: version(2),
        }),
        Ok(CommandResult::PromiseReleased {
            promise_id: promise_id(1),
            version: version(3),
        }),
        Ok(CommandResult::PromiseReplaced(ReplaceOutcome::Replaced {
            promise_id: promise_id(1),
            version: version(4),
        })),
        Ok(CommandResult::PromiseReplaced(ReplaceOutcome::Unavailable {
            conflicts: vec![conflict()],
        })),
        Ok(CommandResult::ExpirationsProcessed { expired_count: 0 }),
        Err(DomainError::CapacityExceeded),
    ]
}

#[test]
fn every_response_round_trips() {
    for response in responses() {
        let expected = with_response(response);
        let encoded = encode_transition(&expected).unwrap();
        let decoded = decode_transition(&encoded).unwrap();
        assert_eq!(decoded, expected);
        assert_eq!(encode_transition(&decoded).unwrap(), encoded);
    }
}

#[test]
fn effects_round_trip_in_order() {
    let encoded = encode_transition(&full()).unwrap();
    let decoded = decode_transition(&encoded).unwrap();
    assert_eq!(decoded, full());
    assert_eq!(decoded.client_id().as_str(), "client");
    assert_eq!(decoded.idempotency_key().as_str(), "key");
    assert_eq!(decoded.command_hash().as_bytes(), &[7; 32]);
    assert_eq!(decoded.resource_pools().len(), 2);
    assert_eq!(decoded.promises()[0].created_sequence().get(), 1);
    assert_eq!(decoded.promises()[0].updated_sequence().get(), 4);
    assert_eq!(decoded.events()[2].kind(), EventKind::DeficitCreated);
    assert_eq!(decoded.final_sequence().get(), 12);
    assert_eq!(
        decoded.command().operation(),
        &CommandOperation::ProcessExpirations
    );
}

#[test]
fn transition_encoding_is_byte_exact() {
    let encoded = encode_transition(&with_response(Err(DomainError::InvalidInterval))).unwrap();
    let mut expected = vec![TRANSITION_FORMAT_VERSION];
    let command = [
        1, 6, 0, 0, 0, b'c', b'l', b'i', b'e', b'n', b't', 3, 0, 0, 0, b'k', b'e', b'y', 7,
    ];
    expected.extend_from_slice(&(command.len() as u32).to_le_bytes());
    expected.extend_from_slice(&command);
    expected.extend_from_slice(&[6, 0, 0, 0]);
    expected.extend_from_slice(b"client");
    expected.extend_from_slice(&[3, 0, 0, 0]);
    expected.extend_from_slice(b"key");
    expected.extend_from_slice(&[7; 32]);
    expected.extend_from_slice(&[2, 1]);
    expected.extend_from_slice(&[0; 12]);
    expected.extend_from_slice(&12_u64.to_le_bytes());
    assert_eq!(encoded, expected);
}

#[test]
fn every_prefix_of_a_transition_is_truncated() {
    let encoded = encode_transition(&full()).unwrap();
    for end in 0..encoded.len() {
        assert_eq!(
            decode_transition(&encoded[..end]),
            Err(StorageError::TruncatedPayload)
        );
    }
}

#[test]
fn other_versions_and_trailing_bytes_are_rejected() {
    let mut encoded = encode_transition(&full()).unwrap();
    encoded.push(0);
    assert_eq!(
        decode_transition(&encoded),
        Err(StorageError::CorruptRecord(
            "trailing transition payload bytes"
        ))
    );
    encoded[0] = 9;
    assert_eq!(
        decode_transition(&encoded),
        Err(StorageError::UnsupportedTransitionVersion(9))
    );
}

#[test]
fn lists_must_be_in_canonical_order() {
    let swapped = transition(
        Err(DomainError::HoldExpired),
        vec![resource_pool(2), resource_pool(1)],
        Vec::new(),
        Vec::new(),
    );
    assert_eq!(
        decode_transition(&encode_transition(&swapped).unwrap()),
        Err(StorageError::CorruptRecord(
            "non-canonical resource pool order"
        ))
    );
    let repeated = transition(
        Err(DomainError::HoldExpired),
        Vec::new(),
        vec![
            promise(1, PromiseState::Committed),
            promise(1, PromiseState::Committed),
        ],
        Vec::new(),
    );
    assert_eq!(
        decode_transition(&encode_transition(&repeated).unwrap()),
        Err(StorageError::CorruptRecord("non-canonical promise order"))
    );
    let late = EventData::ResourcePool {
        resource_pool_id: pool(1),
    };
    let disordered = transition(
        Err(DomainError::HoldExpired),
        Vec::new(),
        Vec::new(),
        vec![
            event(4, EventKind::CapacityRevised, late.clone()),
            event(3, EventKind::CapacityRevised, late),
        ],
    );
    assert_eq!(
        decode_transition(&encode_transition(&disordered).unwrap()),
        Err(StorageError::CorruptRecord(
            "events are not sequence ordered"
        ))
    );
}

#[test]
fn encoding_appends_to_the_destination() {
    let mut buffer = vec![1, 2];
    encode_transition_into(&full(), &mut buffer).unwrap();
    assert_eq!(&buffer[..2], &[1, 2]);
    assert_eq!(&buffer[2..], &encode_transition(&full()).unwrap()[..]);
}

#[test]
fn empty_conflict_lists_are_rejected() {
    let empty = with_response(Ok(CommandResult::HoldCompleted(HoldOutcome::Unavailable {
        conflicts: Vec::new(),
    })));
    assert_eq!(
        decode_transition(&encode_transition(&empty).unwrap()),
        Err(StorageError::CorruptRecord(
            "empty unavailable conflict list"
        ))
    );
    let none = with_response(Ok(CommandResult::ChoiceCompleted(
        ChoiceOutcome::Unavailable {
            conflicts: Vec::new(),
        },
    )));
    assert_eq!(
        decode_transition(&encode_transition(&none).unwrap()),
        Err(StorageError::CorruptRecord("empty choice conflict list"))
    );
    let skipped = with_response(Ok(CommandResult::ChoiceCompleted(
        ChoiceOutcome::Unavailable {
            conflicts: vec![ChoiceConflict::restore(1, vec![conflict()]).unwrap()],
        },
    )));
    assert_eq!(
        decode_transition(&encode_transition(&skipped).unwrap()),
        Err(StorageError::CorruptRecord(
            "non-canonical choice conflict index"
        ))
    );
    let attempts = with_response(Ok(CommandResult::SlotCompleted(SlotOutcome::Unavailable {
        attempts: 0,
    })));
    assert_eq!(
        decode_transition(&encode_transition(&attempts).unwrap()),
        Err(StorageError::CorruptRecord("zero slot attempts"))
    );
}

#[test]
fn outcomes_keep_their_rules() {
    assert!(AvailabilityConflict::restore(pool(1), interval(3, 4), 10, 4, 5, Vec::new()).is_none());
    assert!(AvailabilityConflict::restore(pool(1), interval(3, 4), 4, 4, 0, Vec::new()).is_none());
    assert!(AvailabilityConflict::restore(
        pool(1),
        interval(3, 4),
        10,
        4,
        6,
        vec![promise_id(2), promise_id(1)]
    )
    .is_none());
    assert!(CapacityDeficit::restore(pool(1), interval(0, 5), 0, Vec::new()).is_none());
    let deficit =
        CapacityDeficit::restore(pool(1), interval(0, 5), 2, vec![promise_id(1)]).unwrap();
    assert!(CapacityRevisionOutcome::restore(
        SequenceNumber::new(1),
        vec![deficit],
        vec![promise_id(2)]
    )
    .is_none());
    assert!(ChoiceConflict::restore(0, Vec::new()).is_none());
    assert!(Event::restore(
        SequenceNumber::new(1),
        0,
        EventKind::HoldCreated,
        EventData::ResourcePool {
            resource_pool_id: pool(1)
        }
    )
    .is_none());
    let kept = conflict();
    assert_eq!(kept.required_quantity(), 10);
    assert_eq!(kept.available_quantity(), 4);
    assert_eq!(kept.deficit_quantity(), 6);
    assert_eq!(kept.blocking_interval(), interval(3, 4));
    assert_eq!(kept.resource_pool_id(), pool(1));
    assert_eq!(kept.conflicting_promise_ids().len(), 2);
}

#[test]
fn tags_round_trip() {
    for tag in 1..=32 {
        let error = domain_error_from_tag(tag).unwrap();
        assert_eq!(tag_of_domain_error(error), tag);
    }
    assert_eq!(domain_error_from_tag(0), None);
    assert_eq!(domain_error_from_tag(33), None);
    for tag in 1..=10 {
        let kind = event_kind_from_tag(tag).unwrap();
        assert_eq!(tag_of_event_kind(kind), tag);
    }
    assert_eq!(event_kind_from_tag(0), None);
    assert_eq!(event_kind_from_tag(11), None);
}

#[test]
fn what_is_valid_is_read_back() {
    let mut all: Vec<DurableTransition> = responses().into_iter().map(with_response).collect();
    all.push(full());
    for transition in &all {
        assert!(transition.is_valid());
        let payload = encode_transition(transition).unwrap();
        assert_eq!(&decode_transition(&payload).unwrap(), transition);
    }

    let unexplained: Vec<CommandResponse> = vec![
        Ok(CommandResult::HoldCompleted(HoldOutcome::Unavailable {
            conflicts: Vec::new(),
        })),
        Ok(CommandResult::PromiseReplaced(
            ReplaceOutcome::Unavailable {
                conflicts: Vec::new(),
            },
        )),
        Ok(CommandResult::ChoiceCompleted(ChoiceOutcome::Unavailable {
            conflicts: Vec::new(),
        })),
        Ok(CommandResult::ChoiceCompleted(ChoiceOutcome::Unavailable {
            conflicts: vec![ChoiceConflict::restore(1, vec![conflict()]).unwrap()],
        })),
        Ok(CommandResult::SlotCompleted(SlotOutcome::Unavailable {
            attempts: 0,
        })),
    ];
    let mut invalid: Vec<DurableTransition> = unexplained.into_iter().map(with_response).collect();
    let expired = || Ok(CommandResult::ExpirationsProcessed { expired_count: 0 });
    let created = |sequence| {
        event(
            sequence,
            EventKind::ResourceCreated,
            EventData::ResourcePool {
                resource_pool_id: pool(1),
            },
        )
    };
    let twice = || promise(1, PromiseState::Committed);
    invalid.push(transition(
        expired(),
        vec![resource_pool(2), resource_pool(1)],
        Vec::new(),
        Vec::new(),
    ));
    invalid.push(transition(
        expired(),
        Vec::new(),
        vec![twice(), twice()],
        Vec::new(),
    ));
    invalid.push(transition(
        expired(),
        Vec::new(),
        Vec::new(),
        vec![created(3), created(2)],
    ));
    for transition in &invalid {
        assert!(!transition.is_valid());
        let payload = encode_transition(transition).unwrap();
        assert!(decode_transition(&payload).is_err());
    }
    assert!(transition(
        expired(),
        Vec::new(),
        Vec::new(),
        vec![created(3), created(3)]
    )
    .is_valid());
}

#[test]
fn copies_are_equal() {
    assert_eq!(resource_pool(1).clone(), resource_pool(1));
    let held = promise(1, PromiseState::Held { expires_at: 3 });
    assert_eq!(held.clone(), held);
    assert_eq!(conflict().clone(), conflict());
    for event in full().events() {
        assert_eq!(&event.clone(), event);
    }
    assert_eq!(full().command().clone(), *full().command());
}

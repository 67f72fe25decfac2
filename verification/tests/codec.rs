//! Command payloads.

use promisedb::codec::{
    decode_command, encode_command, encode_command_into, COMMAND_FORMAT_VERSION,
};
use promisedb::command::{
    CapacityRevisionMode, ClientId, Command, CommandOperation, IdempotencyKey, HOLD,
    PROCESS_EXPIRATIONS,
};
use promisedb::domain::capacity::{CapacityCurve, CapacitySegment, Interval, Unit};
use promisedb::domain::claims::{Bundle, Choice, Claim, RelativeBundle, RelativeClaim};
use promisedb::domain::ids::{PromiseId, ResourcePoolId};
use promisedb::domain::promise::{ReplacementState, Version};
use promisedb::error::{DomainError, StorageError};
use promisedb::wire::writer::Writer;

fn pool(byte: u8) -> ResourcePoolId {
    ResourcePoolId::from_bytes([byte; 16])
}

fn promise(byte: u8) -> PromiseId {
    PromiseId::from_bytes([byte; 16])
}

fn version(value: u64) -> Version {
    Version::new(value).unwrap()
}

fn claim(pool_id: ResourcePoolId, start: i64, end: i64, quantity: u64) -> Claim {
    Claim::new(pool_id, Interval::new(start, end).unwrap(), quantity).unwrap()
}

fn bundle() -> Bundle {
    Bundle::new(vec![claim(pool(2), 20, 30, 4), claim(pool(1), 10, 15, 3)]).unwrap()
}

fn curve() -> CapacityCurve {
    CapacityCurve::from_sorted(vec![
        CapacitySegment::new(Interval::new(-10, 0).unwrap(), 5),
        CapacitySegment::new(Interval::new(10, 20).unwrap(), 8),
    ])
    .unwrap()
}

fn command(operation: CommandOperation) -> Command {
    Command::new(
        ClientId::new("client-a".to_string()),
        IdempotencyKey::new("request-1".to_string()),
        operation,
    )
}

#[test]
fn command_encoding_is_byte_exact_little_endian_and_appends_to_destination() {
    let expected = vec![
        1, // format version
        8,
        0,
        0,
        0,
        b'c',
        b'l',
        b'i',
        b'e',
        b'n',
        b't',
        b'-',
        b'a',
        9,
        0,
        0,
        0,
        b'r',
        b'e',
        b'q',
        b'u',
        b'e',
        b's',
        b't',
        b'-',
        b'1',
        PROCESS_EXPIRATIONS,
    ];
    let command = command(CommandOperation::ProcessExpirations);

    assert_eq!(encode_command(&command).unwrap(), expected);

    let mut destination = vec![0xaa];
    encode_command_into(&command, &mut destination).unwrap();
    assert_eq!(destination[0], 0xaa);
    assert_eq!(&destination[1..], expected);
}

#[test]
fn fixed_width_values_are_byte_exact_little_endian() {
    let mut writer = Writer::new(Vec::new());
    writer.u32(0x0102_0304);
    writer.u64(0x0102_0304_0506_0708);
    writer.i64(0x0102_0304_0506_0708);
    let bytes = writer.into_bytes();

    assert_eq!(
        bytes,
        [
            0x04, 0x03, 0x02, 0x01, 0x08, 0x07, 0x06, 0x05, 0x04, 0x03, 0x02, 0x01, 0x08, 0x07,
            0x06, 0x05, 0x04, 0x03, 0x02, 0x01,
        ]
    );
}

#[test]
fn every_command_variant_round_trips() {
    let commands = vec![
        command(CommandOperation::CreateResourcePool {
            resource_pool_id: pool(1),
            display_name: "Primary pool".into(),
            unit: Unit::new("widgets".into(), 1_000).unwrap(),
            capacity_curve: curve(),
        }),
        command(CommandOperation::ReviseCapacity {
            resource_pool_id: pool(1),
            capacity_curve: curve(),
            mode: CapacityRevisionMode::Force,
        }),
        command(CommandOperation::Hold {
            promise_id: promise(1),
            bundle: bundle(),
            expires_at: 50,
        }),
        command(CommandOperation::HoldOneOf {
            promise_id: promise(2),
            choice: Choice::new(vec![
                Bundle::new(vec![claim(pool(1), 1, 2, 1)]).unwrap(),
                Bundle::new(vec![claim(pool(2), 3, 4, 2)]).unwrap(),
            ])
            .unwrap(),
            expires_at: 60,
        }),
        command(CommandOperation::HoldFirstSlot {
            promise_id: promise(3),
            relative_bundle: RelativeBundle::new(vec![
                RelativeClaim::new(pool(2), -2, 3, 4).unwrap(),
                RelativeClaim::new(pool(1), 0, 5, 2).unwrap(),
            ])
            .unwrap(),
            earliest_start: 100,
            latest_start: 200,
            step: 10,
            expires_at: 80,
        }),
        command(CommandOperation::Commit {
            promise_id: promise(4),
            expected_version: version(2),
        }),
        command(CommandOperation::Release {
            promise_id: promise(5),
            expected_version: version(3),
        }),
        command(CommandOperation::Replace {
            promise_id: promise(6),
            expected_version: version(4),
            new_bundle: bundle(),
            new_state: ReplacementState::Held { expires_at: 90 },
        }),
        command(CommandOperation::Replace {
            promise_id: promise(7),
            expected_version: version(5),
            new_bundle: bundle(),
            new_state: ReplacementState::Committed,
        }),
        command(CommandOperation::ProcessExpirations),
    ];

    for expected in commands {
        let encoded = encode_command(&expected).unwrap();
        assert_eq!(decode_command(&encoded).unwrap(), expected);
        assert_eq!(
            encode_command(&decode_command(&encoded).unwrap()).unwrap(),
            encoded
        );
    }
}

#[test]
fn codec_preserves_bundle_claim_and_choice_order() {
    let expected = command(CommandOperation::HoldOneOf {
        promise_id: promise(9),
        choice: Choice::new(vec![
            bundle(),
            Bundle::new(vec![claim(pool(3), 40, 50, 7)]).unwrap(),
        ])
        .unwrap(),
        expires_at: 100,
    });

    let decoded = decode_command(&encode_command(&expected).unwrap()).unwrap();
    let CommandOperation::HoldOneOf { choice, .. } = decoded.operation() else {
        panic!("expected HoldOneOf");
    };
    assert_eq!(choice.alternatives()[0].claims()[0].pool_id(), pool(2));
    assert_eq!(choice.alternatives()[0].claims()[1].pool_id(), pool(1));
    assert_eq!(choice.alternatives()[1].claims()[0].pool_id(), pool(3));
}

#[test]
fn rejects_unsupported_version_invalid_tag_utf8_and_trailing_bytes() {
    assert_eq!(
        decode_command(&[2]),
        Err(StorageError::UnsupportedVersion(2))
    );

    let mut invalid_tag = vec![COMMAND_FORMAT_VERSION];
    invalid_tag.extend_from_slice(&0_u32.to_le_bytes());
    invalid_tag.extend_from_slice(&0_u32.to_le_bytes());
    invalid_tag.push(255);
    assert_eq!(
        decode_command(&invalid_tag),
        Err(StorageError::InvalidTag {
            kind: "command operation",
            tag: 255,
        })
    );

    let invalid_utf8 = [COMMAND_FORMAT_VERSION, 1, 0, 0, 0, 0xff];
    assert_eq!(
        decode_command(&invalid_utf8),
        Err(StorageError::InvalidUtf8)
    );

    let mut trailing = encode_command(&command(CommandOperation::ProcessExpirations)).unwrap();
    trailing.push(0);
    assert_eq!(
        decode_command(&trailing),
        Err(StorageError::CorruptRecord(
            "trailing command payload bytes"
        ))
    );
}

#[test]
fn rejects_every_truncated_prefix_of_a_valid_payload() {
    let encoded = encode_command(&command(CommandOperation::CreateResourcePool {
        resource_pool_id: pool(1),
        display_name: "pool".into(),
        unit: Unit::new("units".into(), 10).unwrap(),
        capacity_curve: curve(),
    }))
    .unwrap();

    for end in 0..encoded.len() {
        assert!(
            matches!(
                decode_command(&encoded[..end]),
                Err(StorageError::TruncatedPayload)
            ),
            "prefix ending at {end} was not reported as truncated"
        );
    }
}

#[test]
fn rejects_decoded_domain_violations() {
    let mut encoded = vec![COMMAND_FORMAT_VERSION];
    encoded.extend_from_slice(&0_u32.to_le_bytes());
    encoded.extend_from_slice(&0_u32.to_le_bytes());
    encoded.push(HOLD);
    encoded.extend_from_slice(&[1; 16]);
    encoded.extend_from_slice(&1_u32.to_le_bytes());
    encoded.extend_from_slice(&[2; 16]);
    encoded.extend_from_slice(&10_i64.to_le_bytes());
    encoded.extend_from_slice(&10_i64.to_le_bytes());
    encoded.extend_from_slice(&1_u64.to_le_bytes());
    encoded.extend_from_slice(&20_i64.to_le_bytes());

    assert_eq!(
        decode_command(&encoded),
        Err(StorageError::Domain(DomainError::InvalidInterval))
    );
}

use ipdm::error::IpdmError;
use ipdm::types::envelope::{message_id_fn, MessageEnvelope};
use ipdm::types::message::{AccountMessage, IpdmMessage, SlotMessage, TransactionMessage};
use ipdm::types::MessageId;
use std::collections::hash_map::DefaultHasher;
use std::hash::{Hash, Hasher};

fn account() -> IpdmMessage {
    IpdmMessage::Account(AccountMessage {
        pubkey: "test".to_string(),
        owner: "owner".to_string(),
        lamports: 100,
        slot: 1,
        data: vec![7, 8, 9],
        executable: false,
        rent_epoch: 0,
        write_version: 0,
    })
}

fn slot() -> IpdmMessage {
    IpdmMessage::Slot(SlotMessage {
        slot: 42,
        parent: Some(41),
        status: "confirmed".to_string(),
        timestamp: 1000,
    })
}

fn transaction() -> IpdmMessage {
    IpdmMessage::Transaction(TransactionMessage {
        signature: "5sig".to_string(),
        slot: 7,
        success: true,
        timestamp: 99,
    })
}

#[test]
fn slot_message_has_the_documented_bytes() {
    let mut expected: Vec<u8> = vec![1, 0, 0, 0];
    expected.extend_from_slice(&[42, 0, 0, 0, 0, 0, 0, 0]);
    expected.push(1);
    expected.extend_from_slice(&[41, 0, 0, 0, 0, 0, 0, 0]);
    expected.extend_from_slice(&[9, 0, 0, 0, 0, 0, 0, 0]);
    expected.extend_from_slice(b"confirmed");
    expected.extend_from_slice(&[0xe8, 0x03, 0, 0, 0, 0, 0, 0]);
    assert_eq!(slot().encode(), expected);
}

#[test]
fn slot_message_without_parent_has_a_zero_tag() {
    let m = IpdmMessage::Slot(SlotMessage {
        slot: 1,
        parent: None,
        status: String::new(),
        timestamp: 2,
    });
    let mut expected: Vec<u8> = vec![1, 0, 0, 0];
    expected.extend_from_slice(&[1, 0, 0, 0, 0, 0, 0, 0]);
    expected.push(0);
    expected.extend_from_slice(&[0, 0, 0, 0, 0, 0, 0, 0]);
    expected.extend_from_slice(&[2, 0, 0, 0, 0, 0, 0, 0]);
    assert_eq!(m.encode(), expected);
}

#[test]
fn encoding_agrees_with_bincode() {
    let a = bincode::serialize(&(
        0u32,
        "test".to_string(),
        "owner".to_string(),
        100u64,
        1u64,
        vec![7u8, 8, 9],
        false,
        0u64,
        0u64,
    ))
    .unwrap();
    assert_eq!(account().encode(), a);
    let s = bincode::serialize(&(1u32, 42u64, Some(41u64), "confirmed".to_string(), 1000u64))
        .unwrap();
    assert_eq!(slot().encode(), s);
    let t = bincode::serialize(&(2u32, "5sig".to_string(), 7u64, true, 99u64)).unwrap();
    assert_eq!(transaction().encode(), t);
}

#[test]
fn decoding_agrees_with_bincode() {
    let bytes = slot().encode();
    let fields: (u32, u64, Option<u64>, String, u64) = bincode::deserialize(&bytes).unwrap();
    assert_eq!(fields, (1, 42, Some(41), "confirmed".to_string(), 1000));
    let made = bincode::serialize(&(2u32, "abc".to_string(), 9u64, false, 3u64)).unwrap();
    assert_eq!(
        IpdmMessage::decode(&made),
        Ok(IpdmMessage::Transaction(TransactionMessage {
            signature: "abc".to_string(),
            slot: 9,
            success: false,
            timestamp: 3,
        }))
    );
    let mut bad = made.clone();
    let flag = bad.len() - 9;
    bad[flag] = 7;
    assert!(bincode::deserialize::<(u32, String, u64, bool, u64)>(&bad).is_err());
    assert_eq!(IpdmMessage::decode(&bad), Err(malformed()));
}

#[test]
fn every_kind_of_message_round_trips() {
    for m in [account(), slot(), transaction()] {
        let bytes = m.encode();
        assert_eq!(IpdmMessage::decode(&bytes), Ok(m));
    }
}

#[test]
fn text_beyond_ascii_round_trips() {
    let m = IpdmMessage::Transaction(TransactionMessage {
        signature: "zu\u{fc}rich \u{1f980} \u{4e2d}".to_string(),
        slot: u64::MAX,
        success: false,
        timestamp: 0,
    });
    assert_eq!(IpdmMessage::decode(&m.encode()), Ok(m));
}

#[test]
fn decoding_ignores_what_follows_the_message() {
    let mut bytes = slot().encode();
    bytes.extend_from_slice(&[1, 2, 3]);
    assert_eq!(IpdmMessage::decode(&bytes), Ok(slot()));
}

fn malformed() -> IpdmError {
    IpdmError::Serialization("bytes do not hold a message".to_string())
}

#[test]
fn unknown_tag_is_refused() {
    let mut bytes = slot().encode();
    bytes[0] = 3;
    assert_eq!(IpdmMessage::decode(&bytes), Err(malformed()));
}

#[test]
fn truncated_message_is_refused() {
    let bytes = account().encode();
    for cut in 0..bytes.len() {
        assert_eq!(IpdmMessage::decode(&bytes[..cut]), Err(malformed()));
    }
}

#[test]
fn boolean_other_than_zero_or_one_is_refused() {
    let mut bytes = transaction().encode();
    let at = 4 + 8 + 4 + 8;
    assert_eq!(bytes[at], 1);
    bytes[at] = 2;
    assert_eq!(IpdmMessage::decode(&bytes), Err(malformed()));
}

#[test]
fn option_tag_other_than_zero_or_one_is_refused() {
    let mut bytes = slot().encode();
    assert_eq!(bytes[12], 1);
    bytes[12] = 2;
    assert_eq!(IpdmMessage::decode(&bytes), Err(malformed()));
}

#[test]
fn text_that_is_not_utf8_is_refused() {
    let mut bytes = transaction().encode();
    bytes[12] = 0xff;
    assert_eq!(IpdmMessage::decode(&bytes), Err(malformed()));
}

#[test]
fn length_beyond_the_input_is_refused() {
    let mut bytes = transaction().encode();
    bytes[4] = 200;
    assert_eq!(IpdmMessage::decode(&bytes), Err(malformed()));
}

fn envelope() -> MessageEnvelope {
    MessageEnvelope {
        message: slot(),
        sender: vec![1, 2, 3],
        sequence: 5,
        signature: vec![9, 9],
    }
}

#[test]
fn envelope_round_trips() {
    let e = envelope();
    let bytes = e.encode();
    assert_eq!(MessageEnvelope::decode(&bytes), Ok(e));
}

#[test]
fn envelope_appends_sender_sequence_and_signature() {
    let mut expected = slot().encode();
    expected.extend_from_slice(&[3, 0, 0, 0, 0, 0, 0, 0, 1, 2, 3]);
    expected.extend_from_slice(&[5, 0, 0, 0, 0, 0, 0, 0]);
    expected.extend_from_slice(&[2, 0, 0, 0, 0, 0, 0, 0, 9, 9]);
    assert_eq!(envelope().encode(), expected);
    let signed = MessageEnvelope::signing_input(&slot(), &[1, 2, 3], 5);
    assert_eq!(signed, expected[..expected.len() - 10].to_vec());
}

#[test]
fn envelope_without_signature_field_is_refused() {
    let bytes = envelope().encode();
    let cut = bytes.len() - 10;
    assert_eq!(MessageEnvelope::decode(&bytes[..cut]), Err(malformed()));
}

#[test]
fn identifier_is_the_standard_digest_of_the_payload() {
    let payload = slot().encode();
    let mut hasher = DefaultHasher::new();
    payload.hash(&mut hasher);
    assert_eq!(message_id_fn(&payload), MessageId(hasher.finish()));
}

#[test]
fn identifier_depends_on_the_message_alone() {
    let a = envelope();
    let mut b = envelope();
    b.sender = vec![4];
    b.sequence = 77;
    b.signature = vec![];
    assert_eq!(a.id(), b.id());
    assert_eq!(a.id(), message_id_fn(&slot().encode()));
    let mut c = envelope();
    c.message = transaction();
    assert_ne!(a.id(), c.id());
}

#[test]
fn same_wire_bytes_give_the_same_identifier() {
    let bytes = envelope().encode();
    let first = MessageEnvelope::decode(&bytes).unwrap();
    let second = MessageEnvelope::decode(&bytes).unwrap();
    assert_eq!(first.id(), second.id());
}

#[test]
fn error_messages_carry_heading_and_detail() {
    assert_eq!(IpdmError::Network("x".to_string()).message(), "Network error: x");
    assert_eq!(IpdmError::Validation("x".to_string()).message(), "Validation error: x");
    assert_eq!(IpdmError::Serialization("x".to_string()).message(), "Serialization error: x");
    assert_eq!(IpdmError::Config("x".to_string()).message(), "Configuration error: x");
    assert_eq!(IpdmError::Topic("x".to_string()).message(), "Topic error: x");
}

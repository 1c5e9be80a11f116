use ipdm::config::IpdmConfig;
use ipdm::error::IpdmError;
use ipdm::identity::Identity;
use ipdm::network::behaviour::{PullDecision, Reception, Tuning};
use ipdm::network::event::IpdmEvent;
use ipdm::network::mesh::MeshPhase;
use ipdm::network::gate::{authenticate, decide, validate, Admission};
use ipdm::network::seen::SeenCache;
use ipdm::network::topic::{TopicHandle, TopicManager};
use ipdm::types::envelope::MessageEnvelope;
use ipdm::types::message::{AccountMessage, IpdmMessage, SlotMessage};
use ipdm::types::{NodeType, PeerId, PeerMetrics, ValidationResult};
use ipdm::IpdmNode;
use libp2p::identity::{Keypair, PublicKey};

const SLOTS: &str = "slots/updates";

fn keypair() -> Vec<u8> {
    Keypair::generate_ed25519().to_protobuf_encoding().unwrap()
}

fn node() -> IpdmNode {
    IpdmNode::new(IpdmConfig::default(), keypair(), Tuning::default()).unwrap()
}

fn slot_message() -> IpdmMessage {
    IpdmMessage::Slot(SlotMessage {
        slot: 42,
        parent: Some(41),
        status: "confirmed".to_string(),
        timestamp: 1000,
    })
}

fn handle() -> TopicHandle {
    TopicHandle::from_raw(SLOTS.to_string())
}

fn connect(node: &mut IpdmNode, id: u64, outbound: bool) {
    node.peer_connected(PeerId(id), NodeType::Validator, outbound, id);
    node.peer_subscribed(PeerId(id), SLOTS);
}

#[test]
fn test_node_creation() {
    let config = IpdmConfig::default();
    let mut node = IpdmNode::new(config, keypair(), Tuning::default()).unwrap();

    let topic = TopicManager::get_account_topic("program123");
    node.subscribe(topic.clone()).unwrap();

    let message = IpdmMessage::Account(AccountMessage {
        pubkey: "test".to_string(),
        owner: "owner".to_string(),
        lamports: 100,
        slot: 1,
        data: vec![],
        executable: false,
        rent_epoch: 0,
        write_version: 0,
    });

    node.publish(&topic, message).unwrap();
}

#[test]
fn node_refuses_bad_configuration_and_bad_identity() {
    let mut config = IpdmConfig::default();
    config.mesh_n_low = 20;
    assert!(matches!(
        IpdmNode::new(config, keypair(), Tuning::default()),
        Err(IpdmError::Config(m)) if m == "mesh_n_low exceeds mesh_n_high"
    ));
    assert!(matches!(
        IpdmNode::new(IpdmConfig::default(), vec![1, 2, 3], Tuning::default()),
        Err(IpdmError::Config(m)) if m == "identity is no key pair"
    ));
}

#[test]
fn identity_has_the_public_key_of_its_key_pair() {
    let pair = Keypair::generate_ed25519();
    let identity = Identity::from_protobuf_encoding(pair.to_protobuf_encoding().unwrap()).unwrap();
    assert_eq!(identity.public_key_bytes(), &pair.public().encode_protobuf());
    assert!(Identity::from_protobuf_encoding(vec![]).is_none());
    assert!(Identity::from_protobuf_encoding(pair.public().encode_protobuf()).is_none());
}

#[test]
fn identity_signs_what_its_public_key_verifies() {
    let pair = Keypair::generate_ed25519();
    let identity = Identity::from_protobuf_encoding(pair.to_protobuf_encoding().unwrap()).unwrap();
    let signature = identity.sign(b"hello").unwrap();
    assert_ne!(signature, b"hello".to_vec());
    assert_eq!(signature, pair.sign(b"hello").unwrap());
    let public = PublicKey::try_decode_protobuf(identity.public_key_bytes()).unwrap();
    assert!(public.verify(b"hello", &signature));
    assert!(!public.verify(b"hullo", &signature));
}

#[test]
fn publishing_on_an_unsubscribed_topic_is_a_topic_error() {
    let mut n = node();
    assert_eq!(
        n.publish(SLOTS, slot_message()).unwrap_err(),
        IpdmError::Topic(SLOTS.to_string())
    );
    assert_eq!(n.unsubscribe(SLOTS), Err(IpdmError::Topic(SLOTS.to_string())));
    n.subscribe(SLOTS.to_string()).unwrap();
    assert_eq!(n.unsubscribe(SLOTS), Ok(()));
    assert_eq!(
        n.publish(SLOTS, slot_message()).unwrap_err(),
        IpdmError::Topic(SLOTS.to_string())
    );
}

#[test]
fn publishing_beyond_the_transmit_size_is_a_serialization_error() {
    let mut config = IpdmConfig::default();
    config.max_transmit_size = 100;
    let mut n = IpdmNode::new(config, keypair(), Tuning::default()).unwrap();
    n.subscribe(SLOTS.to_string()).unwrap();
    connect(&mut n, 1, true);
    n.heartbeat();
    let big = IpdmMessage::Account(AccountMessage {
        pubkey: "test".to_string(),
        owner: "owner".to_string(),
        lamports: 100,
        slot: 1,
        data: vec![0; 200],
        executable: false,
        rent_epoch: 0,
        write_version: 0,
    });
    let id = ipdm::types::envelope::message_id_fn(&big.encode());
    assert_eq!(
        n.publish(SLOTS, big).unwrap_err(),
        IpdmError::Serialization("message exceeds max_transmit_size".to_string())
    );
    assert!(!n.engine().has_seen(&handle(), id));
}

#[test]
fn publishing_without_a_signature_is_a_validation_error() {
    let config = IpdmConfig::default();
    let identity = Identity::from_protobuf_encoding(keypair()).unwrap();
    let mut engine =
        ipdm::network::IpdmBehaviour::new(&config, identity, Tuning::default()).unwrap();
    engine.join(handle());
    assert_eq!(
        engine.publish_signed(&handle(), slot_message(), None).unwrap_err(),
        IpdmError::Validation("envelope could not be signed".to_string())
    );
    let d = engine.publish_signed(&handle(), slot_message(), Some(vec![1, 2])).unwrap();
    let sent = MessageEnvelope::decode(&d.wire).unwrap();
    assert_eq!(sent.signature, vec![1, 2]);
    assert_eq!(sent.sequence, 0);
    assert_eq!(sent.message, slot_message());
}

#[test]
fn publish_orders_mesh_and_lazy_and_signs() {
    let mut n = node();
    n.subscribe(SLOTS.to_string()).unwrap();
    connect(&mut n, 1, true);
    connect(&mut n, 2, true);
    n.heartbeat();
    let d = n.publish(SLOTS, slot_message()).unwrap();
    assert_eq!(d.topic, handle());
    assert_eq!(d.full, vec![PeerId(1), PeerId(2)]);
    assert!(d.announce.is_empty());
    assert_eq!(d.id, ipdm::types::envelope::message_id_fn(&slot_message().encode()));
    let envelope = MessageEnvelope::decode(&d.wire).unwrap();
    assert_eq!(envelope.message, slot_message());
    assert_eq!(envelope.sequence, 0);
    assert!(authenticate(&envelope));
    assert!(n.engine().has_seen(&handle(), d.id));
    let again = n.publish(SLOTS, slot_message()).unwrap();
    assert_eq!(MessageEnvelope::decode(&again.wire).unwrap().sequence, 1);
    assert_eq!(n.next_event(), None);
}

#[test]
fn published_message_reaches_a_subscriber_once() {
    let mut a = node();
    let mut b = node();
    a.subscribe(SLOTS.to_string()).unwrap();
    b.subscribe(SLOTS.to_string()).unwrap();
    connect(&mut a, 2, false);
    connect(&mut b, 1, true);
    a.heartbeat();
    b.heartbeat();
    let sent = b.publish(SLOTS, slot_message()).unwrap();
    assert_eq!(sent.full, vec![PeerId(1)]);
    let forwarded = a.on_inbound(PeerId(2), SLOTS, &sent.wire, 10).unwrap();
    assert_eq!(forwarded.id, sent.id);
    assert_eq!(forwarded.wire, sent.wire);
    assert!(forwarded.full.is_empty());
    assert_eq!(
        a.next_event(),
        Some(IpdmEvent::MessageReceived { peer_id: PeerId(2), message: slot_message() })
    );
    assert_eq!(a.next_event(), None);
    let repeat = b.publish(SLOTS, slot_message()).unwrap();
    assert!(a.on_inbound(PeerId(2), SLOTS, &repeat.wire, 11).is_none());
    assert_eq!(a.next_event(), None);
    assert_eq!(
        a.engine().peer_set().metrics_of(PeerId(2)),
        Some(PeerMetrics { messages_received: 1, messages_sent: 0, invalid_messages: 0, uptime: 9 })
    );
    assert_eq!(
        b.engine().peer_set().metrics_of(PeerId(1)),
        Some(PeerMetrics { messages_received: 0, messages_sent: 2, invalid_messages: 0, uptime: 0 })
    );
}

#[test]
fn publisher_does_not_get_its_own_message_back() {
    let mut a = node();
    a.subscribe(SLOTS.to_string()).unwrap();
    connect(&mut a, 2, true);
    a.heartbeat();
    let sent = a.publish(SLOTS, slot_message()).unwrap();
    assert!(a.on_inbound(PeerId(2), SLOTS, &sent.wire, 10).is_none());
    assert_eq!(a.next_event(), None);
}

#[test]
fn inbound_is_forwarded_to_the_mesh_but_not_to_its_sender() {
    let mut a = node();
    let mut b = node();
    a.subscribe(SLOTS.to_string()).unwrap();
    b.subscribe(SLOTS.to_string()).unwrap();
    for id in 1..=3 {
        connect(&mut a, id, true);
    }
    a.heartbeat();
    let sent = b.publish(SLOTS, slot_message()).unwrap();
    let forwarded = a.on_inbound(PeerId(2), SLOTS, &sent.wire, 10).unwrap();
    assert_eq!(forwarded.full, vec![PeerId(1), PeerId(3)]);
}

#[test]
fn tampered_envelope_is_rejected_and_leaves_no_trace() {
    let mut a = node();
    let mut b = node();
    a.subscribe(SLOTS.to_string()).unwrap();
    b.subscribe(SLOTS.to_string()).unwrap();
    connect(&mut a, 2, true);
    a.heartbeat();
    let sent = b.publish(SLOTS, slot_message()).unwrap();
    let mut envelope = MessageEnvelope::decode(&sent.wire).unwrap();
    envelope.signature[0] ^= 1;
    assert!(!authenticate(&envelope));
    let tampered = envelope.encode();
    assert!(a.on_inbound(PeerId(2), SLOTS, &tampered, 10).is_none());
    assert!(!a.engine().has_seen(&handle(), sent.id));
    assert_eq!(a.next_event(), None);
    assert_eq!(a.engine().peer_set().score_of(PeerId(2)), -1);
    assert_eq!(
        a.engine().peer_set().metrics_of(PeerId(2)),
        Some(PeerMetrics { messages_received: 0, messages_sent: 0, invalid_messages: 1, uptime: 8 })
    );
    assert!(a.on_inbound(PeerId(2), SLOTS, &[1, 2, 3], 10).is_none());
    assert_eq!(a.engine().peer_set().score_of(PeerId(2)), -2);
    assert!(a.on_inbound(PeerId(2), SLOTS, &sent.wire, 12).is_some());
}

#[test]
fn envelope_with_a_changed_message_is_rejected() {
    let mut b = node();
    b.subscribe(SLOTS.to_string()).unwrap();
    let sent = b.publish(SLOTS, slot_message()).unwrap();
    let mut envelope = MessageEnvelope::decode(&sent.wire).unwrap();
    envelope.message = IpdmMessage::Slot(SlotMessage {
        slot: 43,
        parent: Some(41),
        status: "confirmed".to_string(),
        timestamp: 1000,
    });
    let mut seen = SeenCache::new(4);
    let wire = envelope.encode();
    assert!(matches!(
        validate(&mut seen, &wire),
        Admission::Rejected(ValidationResult::Invalid(m)) if m == "signature does not verify"
    ));
    assert_eq!(seen.len(), 0);
    assert!(matches!(
        validate(&mut seen, &[0]),
        Admission::Rejected(ValidationResult::Invalid(m)) if m == "malformed envelope"
    ));
    assert!(matches!(validate(&mut seen, &sent.wire), Admission::Accepted(_, id) if id == sent.id));
    assert!(matches!(validate(&mut seen, &sent.wire), Admission::Duplicate(id) if id == sent.id));
    assert_eq!(seen.len(), 1);
}

#[test]
fn gate_decides_from_the_two_checks() {
    let envelope = MessageEnvelope {
        message: slot_message(),
        sender: vec![],
        sequence: 0,
        signature: vec![],
    };
    let id = envelope.id();
    let mut seen = SeenCache::new(4);
    assert!(matches!(
        decide(&mut seen, Some(envelope.clone()), None),
        Admission::Rejected(ValidationResult::NeedsVerification)
    ));
    assert!(matches!(
        decide(&mut seen, Some(envelope.clone()), Some(false)),
        Admission::Rejected(ValidationResult::Invalid(_))
    ));
    assert!(matches!(decide(&mut seen, None, Some(true)), Admission::Rejected(_)));
    assert!(!seen.contains(id));
    assert!(matches!(
        decide(&mut seen, Some(envelope.clone()), Some(true)),
        Admission::Accepted(e, i) if e == envelope && i == id
    ));
    assert!(seen.contains(id));
    assert!(matches!(
        decide(&mut seen, Some(envelope), Some(true)),
        Admission::Duplicate(i) if i == id
    ));
}

#[test]
fn inbound_on_an_unsubscribed_topic_is_ignored() {
    let mut a = node();
    let mut b = node();
    b.subscribe(SLOTS.to_string()).unwrap();
    a.peer_connected(PeerId(2), NodeType::Validator, true, 0);
    let sent = b.publish(SLOTS, slot_message()).unwrap();
    assert!(a.on_inbound(PeerId(2), SLOTS, &sent.wire, 10).is_none());
    assert_eq!(a.engine().peer_set().score_of(PeerId(2)), 0);
    let handle = handle();
    let identity = Identity::from_protobuf_encoding(keypair()).unwrap();
    let mut engine =
        ipdm::network::IpdmBehaviour::new(&IpdmConfig::default(), identity, Tuning::default())
            .unwrap();
    assert!(matches!(
        engine.on_inbound(PeerId(2), &handle, &sent.wire, 10),
        Reception::Unsubscribed
    ));
}

#[test]
fn announcements_are_pulled_within_the_budget() {
    let mut a = node();
    let mut b = node();
    assert_eq!(a.on_announcement(SLOTS, ipdm::types::MessageId(1), 0), PullDecision::Unsubscribed);
    a.subscribe(SLOTS.to_string()).unwrap();
    b.subscribe(SLOTS.to_string()).unwrap();
    let sent = b.publish(SLOTS, slot_message()).unwrap();
    assert_eq!(a.on_announcement(SLOTS, sent.id, 0), PullDecision::Request);
    assert_eq!(a.on_announcement(SLOTS, sent.id, 2), PullDecision::Request);
    assert_eq!(a.on_announcement(SLOTS, sent.id, 3), PullDecision::Exhausted);
    assert_eq!(a.on_pull(SLOTS, sent.id), None);
    assert_eq!(b.on_pull(SLOTS, sent.id), Some(sent.wire.clone()));
    assert_eq!(b.on_pull("accounts/x", sent.id), None);
    a.peer_connected(PeerId(2), NodeType::Validator, true, 0);
    let pulled = b.on_pull(SLOTS, sent.id).unwrap();
    assert!(a.on_inbound(PeerId(2), SLOTS, &pulled, 1).is_some());
    assert_eq!(a.on_announcement(SLOTS, sent.id, 0), PullDecision::AlreadySeen);
    assert_eq!(a.on_pull(SLOTS, sent.id), Some(sent.wire));
}

#[test]
fn node_mesh_grows_with_the_peers_that_join() {
    let mut n = node();
    n.subscribe(SLOTS.to_string()).unwrap();
    connect(&mut n, 1, true);
    connect(&mut n, 2, true);
    n.heartbeat();
    assert_eq!(n.engine().mesh_of(&handle()), Some(vec![PeerId(1), PeerId(2)]));
    connect(&mut n, 3, true);
    n.heartbeat();
    assert_eq!(n.engine().mesh_of(&handle()).unwrap().len(), 3);
    assert!(n.peer_disconnected(PeerId(2)));
    assert_eq!(n.engine().mesh_of(&handle()), Some(vec![PeerId(1), PeerId(3)]));
    n.peer_unsubscribed(PeerId(1), SLOTS);
    assert_eq!(n.engine().mesh_of(&handle()), Some(vec![PeerId(3)]));
    n.heartbeat();
    assert_eq!(n.engine().mesh_of(&handle()), Some(vec![PeerId(3)]));
    assert_eq!(n.engine().lazy_of(&handle()), Some(vec![]));
    assert_eq!(n.engine().mesh_of(&TopicHandle::from_raw("x".to_string())), None);
}

#[test]
fn node_mesh_stays_within_bounds_with_many_peers() {
    let mut n = node();
    n.subscribe(SLOTS.to_string()).unwrap();
    n.subscribe("accounts/x".to_string()).unwrap();
    for id in 1..=30 {
        connect(&mut n, id, id % 2 == 0);
        n.peer_subscribed(PeerId(id), "accounts/x");
    }
    for id in 1..=20 {
        assert!(n.peer_grafted(PeerId(id), SLOTS));
    }
    assert!(!n.peer_grafted(PeerId(99), SLOTS));
    assert!(!n.peer_grafted(PeerId(1), "unknown"));
    assert_eq!(n.engine().mesh_of(&handle()).unwrap().len(), 20);
    n.heartbeat();
    for name in [SLOTS, "accounts/x"] {
        let mesh = n.engine().mesh_of(&TopicHandle::from_raw(name.to_string())).unwrap();
        assert!(4 <= mesh.len() && mesh.len() <= 12);
    }
    assert_eq!(n.engine().lazy_of(&handle()).unwrap().len(), 4);
    assert_eq!(n.engine().topic_count(), 2);
}

#[test]
fn discovery_events_surface_in_order() {
    let mut n = node();
    n.peer_discovered(PeerId(5));
    n.peer_discovered(PeerId(5));
    n.peer_expired(PeerId(5));
    n.peer_expired(PeerId(6));
    assert_eq!(n.next_event(), Some(IpdmEvent::PeerDiscovered(PeerId(5))));
    assert_eq!(n.next_event(), Some(IpdmEvent::PeerExpired(PeerId(5))));
    assert_eq!(n.next_event(), None);
}

#[test]
fn resubscribing_keeps_the_mesh() {
    let mut n = node();
    n.subscribe(SLOTS.to_string()).unwrap();
    connect(&mut n, 1, true);
    n.heartbeat();
    n.subscribe(SLOTS.to_string()).unwrap();
    assert_eq!(n.engine().mesh_of(&handle()), Some(vec![PeerId(1)]));
    assert_eq!(n.registry().len(), 1);
    assert!(n.engine().has_joined(&handle()));
}

#[test]
fn heartbeat_reports_who_joined_and_left() {
    let mut n = node();
    n.subscribe(SLOTS.to_string()).unwrap();
    assert_eq!(n.phase_of(SLOTS), MeshPhase::Grooming);
    assert_eq!(n.phase_of("accounts/x"), MeshPhase::Unsubscribed);
    for id in 1..=5 {
        connect(&mut n, id, true);
    }
    let changes = n.heartbeat();
    assert_eq!(changes.len(), 1);
    assert_eq!(changes[0].topic, handle());
    assert_eq!(changes[0].grafted, (1..=5).map(PeerId).collect::<Vec<_>>());
    assert!(changes[0].pruned.is_empty());
    assert_eq!(n.phase_of(SLOTS), MeshPhase::Steady);
    let quiet = n.heartbeat();
    assert!(quiet[0].grafted.is_empty() && quiet[0].pruned.is_empty());
    for id in 6..=20 {
        connect(&mut n, id, true);
        n.peer_grafted(PeerId(id), SLOTS);
    }
    assert_eq!(n.phase_of(SLOTS), MeshPhase::Grooming);
    let cut = n.heartbeat();
    assert!(cut[0].grafted.is_empty());
    assert_eq!(cut[0].pruned.len(), 8);
    assert_eq!(cut[0].pruned, (1..=8).map(PeerId).collect::<Vec<_>>());
    assert_eq!(n.phase_of(SLOTS), MeshPhase::Steady);
    n.peer_pruned(PeerId(20), SLOTS);
    assert_eq!(n.engine().mesh_of(&handle()).unwrap().len(), 11);
    assert_eq!(n.engine().lazy_of(&handle()).unwrap().len(), 4);
}

#[test]
fn inbound_mesh_without_outbound_peers_is_not_steady() {
    let mut n = node();
    n.subscribe(SLOTS.to_string()).unwrap();
    for id in 1..=6 {
        connect(&mut n, id, false);
    }
    n.heartbeat();
    assert_eq!(n.engine().mesh_of(&handle()).unwrap().len(), 6);
    assert_eq!(n.phase_of(SLOTS), MeshPhase::Grooming);
    connect(&mut n, 7, true);
    connect(&mut n, 8, true);
    let changes = n.heartbeat();
    assert_eq!(changes[0].grafted, vec![PeerId(7), PeerId(8)]);
    assert_eq!(n.phase_of(SLOTS), MeshPhase::Steady);
}

#[test]
fn default_tuning_is_documented() {
    let t = Tuning::default();
    assert_eq!(t.score_floor, -8);
    assert_eq!(t.seen_capacity, 4096);
    assert_eq!(t.pull_budget, 3);
    assert_eq!(t.event_capacity, 1024);
    assert_eq!(t.store_capacity, 256);
}

#[test]
fn seen_window_of_one_forgets_the_published_message() {
    let mut tuning = Tuning::default();
    tuning.seen_capacity = 1;
    let mut a = IpdmNode::new(IpdmConfig::default(), keypair(), tuning).unwrap();
    let mut b = node();
    a.subscribe(SLOTS.to_string()).unwrap();
    b.subscribe(SLOTS.to_string()).unwrap();
    a.peer_connected(PeerId(2), NodeType::Validator, true, 0);
    let own = a.publish(SLOTS, slot_message()).unwrap();
    assert!(a.on_inbound(PeerId(2), SLOTS, &own.wire, 1).is_none());
    let other = b
        .publish(
            SLOTS,
            IpdmMessage::Slot(SlotMessage {
                slot: 43,
                parent: Some(42),
                status: "confirmed".to_string(),
                timestamp: 1001,
            }),
        )
        .unwrap();
    assert!(a.on_inbound(PeerId(2), SLOTS, &other.wire, 2).is_some());
    assert!(a.on_inbound(PeerId(2), SLOTS, &own.wire, 3).is_some());
}

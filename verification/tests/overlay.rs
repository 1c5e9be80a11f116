use ipdm::config::IpdmConfig;
use ipdm::network::directory::PeerDirectory;
use ipdm::network::event::{EventQueue, IpdmEvent};
use ipdm::network::mesh::MeshView;
use ipdm::network::peer_list::PeerList;
use ipdm::network::peers::PeerSet;
use ipdm::network::seen::SeenCache;
use ipdm::network::store::MessageStore;
use ipdm::network::topic::{TopicHandle, TopicManager};
use ipdm::network::{build_gossipsub_config, GossipsubEvent, NetworkEventHandler};
use ipdm::types::message::{IpdmMessage, SlotMessage};
use ipdm::types::{MessageId, NodeType, PeerId, PeerInfo, PeerMetrics, ValidationResult};

fn topic() -> TopicHandle {
    TopicHandle::from_raw("slots/updates".to_string())
}

fn peers_with(scores: &[(u64, i64, u64, bool)]) -> PeerSet {
    let mut set = PeerSet::new(-2);
    for &(id, score, last_seen, outbound) in scores {
        set.on_connected(PeerId(id), NodeType::Validator, outbound, last_seen);
        set.peer_subscribed(PeerId(id), &topic());
        set.adjust_score(PeerId(id), score);
    }
    set
}

#[test]
fn topic_names_follow_the_convention() {
    assert_eq!(TopicManager::get_account_topic("program123"), "accounts/program123");
    assert_eq!(TopicManager::get_slot_topic(), "slots/updates");
    assert_eq!(TopicManager::get_transaction_topic("100-200"), "transactions/100-200");
}

#[test]
fn registry_is_idempotent_and_resolves() {
    let mut m = TopicManager::new();
    assert_eq!(m.resolve("slots/updates"), None);
    let a = m.subscribe("slots/updates".to_string());
    let b = m.subscribe("slots/updates".to_string());
    assert_eq!(a, b);
    assert_eq!(a.as_str(), "slots/updates");
    assert_eq!(m.len(), 1);
    assert_eq!(m.resolve("slots/updates"), Some(a));
    m.subscribe("accounts/x".to_string());
    assert_eq!(m.len(), 2);
    assert!(m.unsubscribe("slots/updates"));
    assert!(!m.unsubscribe("slots/updates"));
    assert_eq!(m.resolve("slots/updates"), None);
    assert_eq!(m.name_at(0), "accounts/x");
}

#[test]
fn handles_are_equal_exactly_when_names_are() {
    let a = TopicHandle::from_raw("a".to_string());
    let a2 = TopicHandle::from_raw("a".to_string());
    let b = TopicHandle::from_raw("b".to_string());
    assert!(a.same(&a2));
    assert!(!a.same(&b));
}

#[test]
fn default_configuration_is_valid() {
    let c = IpdmConfig::default();
    assert_eq!(c.listen_address, "/ip4/0.0.0.0/tcp/0");
    assert!(c.bootstrap_peers.is_empty());
    assert_eq!(c.heartbeat_interval, 1000);
    assert_eq!(c.max_transmit_size, 65536);
    assert_eq!((c.mesh_n_low, c.mesh_n_high, c.mesh_outbound_min, c.mesh_n_lazy), (4, 12, 2, 4));
    assert_eq!(c.validate(), Ok(()));
    let g = build_gossipsub_config(&c);
    assert_eq!(g, c.to_gossipsub_config());
    assert_eq!((g.mesh_n_low, g.mesh_n_high, g.mesh_outbound_min, g.mesh_n_lazy), (4, 12, 2, 4));
    assert_eq!((g.heartbeat_interval, g.max_transmit_size), (1000, 65536));
}

#[test]
fn configuration_out_of_order_is_a_config_error() {
    let mut c = IpdmConfig::default();
    c.mesh_outbound_min = 5;
    assert_eq!(
        c.validate(),
        Err(ipdm::error::IpdmError::Config("mesh_outbound_min exceeds mesh_n_low".to_string()))
    );
    let mut c = IpdmConfig::default();
    c.mesh_n_low = 13;
    assert_eq!(
        c.validate(),
        Err(ipdm::error::IpdmError::Config("mesh_n_low exceeds mesh_n_high".to_string()))
    );
    let mut c = IpdmConfig::default();
    c.mesh_n_low = 12;
    c.mesh_outbound_min = 12;
    assert_eq!(c.validate(), Ok(()));
}

#[test]
fn seen_cache_forgets_the_oldest() {
    let mut c = SeenCache::new(2);
    assert!(c.insert(MessageId(1)));
    assert!(!c.insert(MessageId(1)));
    assert!(c.insert(MessageId(2)));
    assert!(c.insert(MessageId(3)));
    assert_eq!(c.len(), 2);
    assert!(!c.contains(MessageId(1)));
    assert!(c.contains(MessageId(2)));
    assert!(c.contains(MessageId(3)));
    let mut none = SeenCache::new(0);
    assert!(none.insert(MessageId(1)));
    assert!(!none.contains(MessageId(1)));
}

#[test]
fn peer_list_keeps_order_and_has_no_duplicates() {
    let mut l = PeerList::new();
    assert!(l.insert(PeerId(3)));
    assert!(l.insert(PeerId(1)));
    assert!(!l.insert(PeerId(3)));
    assert!(l.insert(PeerId(2)));
    assert_eq!(l.to_vec(), vec![PeerId(3), PeerId(1), PeerId(2)]);
    assert_eq!(l.position(PeerId(1)), Some(1));
    assert!(l.remove(PeerId(1)));
    assert!(!l.remove(PeerId(1)));
    assert_eq!(l.to_vec(), vec![PeerId(3), PeerId(2)]);
    let mut other = PeerList::new();
    other.insert(PeerId(2));
    other.insert(PeerId(9));
    assert_eq!(l.union(&other).to_vec(), vec![PeerId(3), PeerId(2), PeerId(9)]);
}

#[test]
fn peer_record_starts_neutral() {
    let mut info = PeerInfo::new(PeerId(4), NodeType::RpcNode, 17);
    assert_eq!(info.peer_id, PeerId(4));
    assert!(info.subscribed_topics.is_empty());
    assert_eq!(info.last_seen, 17);
    assert_eq!(info.node_type, NodeType::RpcNode);
    assert_eq!(info.score, 0);
    assert!(!info.outbound);
    assert_eq!(info.metrics, PeerMetrics::default());
    info.update_last_seen(30);
    assert_eq!(info.last_seen, 30);
    let t = "slots/updates".to_string();
    info.add_topic(&t);
    info.add_topic(&t);
    assert_eq!(info.subscribed_topics, vec![t.clone()]);
    assert!(info.subscribes_to(&t));
    info.drop_topic(&t);
    assert!(!info.subscribes_to(&t));
}

#[test]
fn candidates_come_by_score_then_by_idleness() {
    let set = peers_with(&[
        (1, 0, 50, false),
        (2, 5, 70, false),
        (3, 5, 60, false),
        (4, -3, 1, false),
        (5, 1, 10, true),
    ]);
    let none = PeerList::new();
    let all = set.candidates_for_topic(&topic(), &none, 10);
    assert_eq!(all.to_vec(), vec![PeerId(3), PeerId(2), PeerId(5), PeerId(1)]);
    let two = set.candidates_for_topic(&topic(), &none, 2);
    assert_eq!(two.to_vec(), vec![PeerId(3), PeerId(2)]);
    let mut exclude = PeerList::new();
    exclude.insert(PeerId(3));
    let rest = set.candidates_for_topic(&topic(), &exclude, 2);
    assert_eq!(rest.to_vec(), vec![PeerId(2), PeerId(5)]);
    let outbound = set.outbound_candidates_for_topic(&topic(), &none, 10);
    assert_eq!(outbound.to_vec(), vec![PeerId(5)]);
    let other = TopicHandle::from_raw("accounts/x".to_string());
    assert_eq!(set.candidates_for_topic(&other, &none, 10).len(), 0);
    assert_eq!(set.candidates_for_topic(&topic(), &none, 0).len(), 0);
}

#[test]
fn peer_set_tracks_connections_and_scores() {
    let mut set = PeerSet::new(0);
    assert!(!set.contains(PeerId(1)));
    assert_eq!(set.score_of(PeerId(1)), i64::MIN);
    set.on_connected(PeerId(1), NodeType::Validator, true, 5);
    assert!(set.contains(PeerId(1)));
    assert!(set.outbound(PeerId(1)));
    assert_eq!(set.score_of(PeerId(1)), 0);
    set.record_invalid(PeerId(1));
    set.record_invalid(PeerId(1));
    set.record_valid(PeerId(1));
    assert_eq!(set.score_of(PeerId(1)), -2);
    assert_eq!(
        set.metrics_of(PeerId(1)),
        Some(PeerMetrics { messages_received: 1, messages_sent: 0, invalid_messages: 2, uptime: 0 })
    );
    set.adjust_score(PeerId(1), i64::MAX);
    set.adjust_score(PeerId(1), i64::MAX);
    assert_eq!(set.score_of(PeerId(1)), i64::MAX);
    set.adjust_score(PeerId(1), i64::MIN);
    set.adjust_score(PeerId(1), i64::MIN);
    assert_eq!(set.score_of(PeerId(1)), i64::MIN);
    set.on_connected(PeerId(1), NodeType::LightClient, false, 9);
    assert!(set.outbound(PeerId(1)));
    assert_eq!(set.len(), 1);
    assert!(set.on_disconnected(PeerId(1)));
    assert!(!set.on_disconnected(PeerId(1)));
    assert_eq!(set.metrics_of(PeerId(1)), None);
    set.record_activity(PeerId(1), 3);
    assert!(!set.contains(PeerId(1)));
}

#[test]
fn mesh_with_two_peers_converges_to_two_then_three() {
    let cfg = IpdmConfig::default().to_gossipsub_config();
    let mut set = peers_with(&[(1, 0, 1, true), (2, 0, 2, true)]);
    let mut view = MeshView::new();
    view.heartbeat(&topic(), &set, &cfg);
    assert_eq!(view.mesh_peers().len(), 2);
    view.heartbeat(&topic(), &set, &cfg);
    assert_eq!(view.mesh_peers().len(), 2);
    set.on_connected(PeerId(3), NodeType::Validator, true, 3);
    set.peer_subscribed(PeerId(3), &topic());
    view.heartbeat(&topic(), &set, &cfg);
    assert_eq!(view.mesh_peers().to_vec(), vec![PeerId(1), PeerId(2), PeerId(3)]);
    assert_eq!(view.lazy_peers().len(), 0);
}

#[test]
fn mesh_fills_to_the_upper_bound_when_candidates_abound() {
    let cfg = IpdmConfig::default().to_gossipsub_config();
    let all: Vec<(u64, i64, u64, bool)> = (1..=20).map(|i| (i, i as i64, 0, true)).collect();
    let set = peers_with(&all);
    let mut view = MeshView::new();
    view.heartbeat(&topic(), &set, &cfg);
    let mesh = view.mesh_peers().to_vec();
    assert_eq!(mesh.len(), 12);
    assert_eq!(mesh[0], PeerId(20));
    assert_eq!(mesh[11], PeerId(9));
    let before = mesh.clone();
    view.heartbeat(&topic(), &set, &cfg);
    assert_eq!(view.mesh_peers().to_vec(), before);
}

#[test]
fn oversized_mesh_is_cut_from_the_lowest_scores() {
    let cfg = IpdmConfig::default().to_gossipsub_config();
    let all: Vec<(u64, i64, u64, bool)> = (1..=18).map(|i| (i, i as i64, 0, true)).collect();
    let set = peers_with(&all);
    let mut view = MeshView::new();
    for i in 1..=18 {
        view.graft(PeerId(i));
    }
    view.heartbeat(&topic(), &set, &cfg);
    let mesh = view.mesh_peers().to_vec();
    assert_eq!(mesh, (7..=18).map(PeerId).collect::<Vec<_>>());
    assert_eq!(view.lazy_peers().to_vec(), vec![PeerId(1), PeerId(2), PeerId(3), PeerId(4)]);
}

#[test]
fn outbound_minimum_displaces_the_weakest_inbound_peer() {
    let cfg = IpdmConfig::default().to_gossipsub_config();
    let mut all: Vec<(u64, i64, u64, bool)> = (1..=12).map(|i| (i, i as i64, 0, false)).collect();
    all.push((100, 0, 0, true));
    all.push((101, 0, 5, true));
    all.push((102, 0, 9, true));
    let set = peers_with(&all);
    let mut view = MeshView::new();
    for i in 1..=12 {
        view.graft(PeerId(i));
    }
    assert_eq!(view.count_outbound(&set), 0);
    view.heartbeat(&topic(), &set, &cfg);
    let mesh = view.mesh_peers().to_vec();
    assert_eq!(mesh.len(), 12);
    assert_eq!(view.count_outbound(&set), 2);
    assert!(mesh.contains(&PeerId(100)) && mesh.contains(&PeerId(101)));
    assert!(!mesh.contains(&PeerId(1)) && !mesh.contains(&PeerId(2)));
    assert_eq!(view.lazy_peers().to_vec(), vec![PeerId(1), PeerId(2)]);
}

#[test]
fn peers_below_the_floor_are_no_candidates() {
    let cfg = IpdmConfig::default().to_gossipsub_config();
    let set = peers_with(&[(1, -3, 0, true), (2, -2, 0, true)]);
    let mut view = MeshView::new();
    view.heartbeat(&topic(), &set, &cfg);
    assert_eq!(view.mesh_peers().to_vec(), vec![PeerId(2)]);
}

#[test]
fn prune_moves_to_the_lazy_set_while_it_has_room() {
    let mut view = MeshView::new();
    view.graft(PeerId(1));
    view.graft(PeerId(2));
    view.prune(PeerId(1), 1);
    view.prune(PeerId(2), 1);
    view.prune(PeerId(3), 4);
    assert_eq!(view.mesh_peers().len(), 0);
    assert_eq!(view.lazy_peers().to_vec(), vec![PeerId(1)]);
    view.graft(PeerId(1));
    assert_eq!(view.lazy_peers().len(), 0);
    view.remove_peer(PeerId(1));
    assert_eq!(view.mesh_peers().len(), 0);
}

#[test]
fn event_queue_drops_the_oldest_when_full() {
    let mut q = EventQueue::new(2);
    q.push(IpdmEvent::PeerDiscovered(PeerId(1)));
    q.push(IpdmEvent::PeerDiscovered(PeerId(2)));
    q.push(IpdmEvent::PeerExpired(PeerId(3)));
    assert_eq!(q.len(), 2);
    assert_eq!(q.dropped(), 1);
    assert_eq!(q.pop(), Some(IpdmEvent::PeerDiscovered(PeerId(2))));
    assert_eq!(q.pop(), Some(IpdmEvent::PeerExpired(PeerId(3))));
    assert_eq!(q.pop(), None);
    let mut none = EventQueue::new(0);
    none.push(IpdmEvent::PeerDiscovered(PeerId(1)));
    assert_eq!(none.pop(), None);
    assert_eq!(none.dropped(), 1);
}

#[test]
fn handler_reports_each_peer_once() {
    let mut h = NetworkEventHandler::new(8);
    h.handle_peer_discovery(PeerId(1));
    h.handle_peer_discovery(PeerId(1));
    h.handle_peer_expiration(PeerId(2));
    h.handle_peer_expiration(PeerId(1));
    h.handle_peer_expiration(PeerId(1));
    assert_eq!(h.pending(), 2);
    assert_eq!(h.next_event(), Some(IpdmEvent::PeerDiscovered(PeerId(1))));
    assert_eq!(h.next_event(), Some(IpdmEvent::PeerExpired(PeerId(1))));
    assert_eq!(h.next_event(), None);
    assert_eq!(h.lost(), 0);
}

#[test]
fn handler_surfaces_payloads_that_decode() {
    let message = IpdmMessage::Slot(SlotMessage {
        slot: 42,
        parent: Some(41),
        status: "confirmed".to_string(),
        timestamp: 1000,
    });
    let mut h = NetworkEventHandler::new(8);
    h.handle_gossipsub_event(GossipsubEvent::Message {
        propagation_source: PeerId(7),
        message_id: MessageId(1),
        data: message.encode(),
    });
    h.handle_gossipsub_event(GossipsubEvent::Message {
        propagation_source: PeerId(7),
        message_id: MessageId(2),
        data: vec![9, 9, 9],
    });
    h.handle_gossipsub_event(GossipsubEvent::Subscribed { peer_id: PeerId(7), topic: topic() });
    h.handle_gossipsub_event(GossipsubEvent::Unsubscribed { peer_id: PeerId(7), topic: topic() });
    assert_eq!(h.next_event(), Some(IpdmEvent::MessageReceived { peer_id: PeerId(7), message }));
    assert_eq!(h.next_event(), None);
}

#[test]
fn validation_result_follows_the_two_checks() {
    assert_eq!(
        ValidationResult::of(false, None),
        ValidationResult::Invalid("malformed envelope".to_string())
    );
    assert_eq!(
        ValidationResult::of(false, Some(true)),
        ValidationResult::Invalid("malformed envelope".to_string())
    );
    assert_eq!(ValidationResult::of(true, None), ValidationResult::NeedsVerification);
    assert_eq!(
        ValidationResult::of(true, Some(false)),
        ValidationResult::Invalid("signature does not verify".to_string())
    );
    assert_eq!(ValidationResult::of(true, Some(true)), ValidationResult::Valid);
    assert!(ValidationResult::Valid.is_valid());
    assert!(!ValidationResult::NeedsVerification.is_valid());
}

#[test]
fn uptime_runs_from_the_connection_and_never_backwards() {
    let mut set = PeerSet::new(0);
    set.on_connected(PeerId(1), NodeType::Validator, true, 10);
    set.record_activity(PeerId(1), 25);
    assert_eq!(set.metrics_of(PeerId(1)).unwrap().uptime, 15);
    set.record_activity(PeerId(1), 5);
    assert_eq!(set.metrics_of(PeerId(1)).unwrap().uptime, 0);
    set.on_connected(PeerId(1), NodeType::Validator, true, 40);
    assert_eq!(set.metrics_of(PeerId(1)).unwrap().uptime, 30);
    set.record_sent(PeerId(1));
    set.record_sent_all(&vec![PeerId(1), PeerId(2), PeerId(1)]);
    assert_eq!(set.metrics_of(PeerId(1)).unwrap().messages_sent, 3);
}

#[test]
fn directory_gives_each_identity_one_handle() {
    let mut d = PeerDirectory::new();
    assert_eq!(d.lookup(&[1, 2]), None);
    assert_eq!(d.handle_of(&[1, 2]), Some(PeerId(0)));
    assert_eq!(d.handle_of(&[1]), Some(PeerId(1)));
    assert_eq!(d.handle_of(&[1, 2]), Some(PeerId(0)));
    assert_eq!(d.handle_of(&[]), Some(PeerId(2)));
    assert_eq!(d.len(), 3);
    assert_eq!(d.lookup(&[1]), Some(PeerId(1)));
    assert_eq!(d.lookup(&[2]), None);
    assert_eq!(d.identity_of(PeerId(0)), Some(&vec![1, 2]));
    assert_eq!(d.identity_of(PeerId(2)), Some(&vec![]));
    assert_eq!(d.identity_of(PeerId(3)), None);
}

#[test]
fn store_keeps_the_latest_envelopes() {
    let mut s = MessageStore::new(2);
    s.insert(MessageId(1), &[1]);
    s.insert(MessageId(1), &[9]);
    s.insert(MessageId(2), &[2]);
    assert_eq!(s.get(MessageId(1)), Some(vec![1]));
    s.insert(MessageId(3), &[3]);
    assert_eq!(s.len(), 2);
    assert_eq!(s.get(MessageId(1)), None);
    assert_eq!(s.get(MessageId(2)), Some(vec![2]));
    assert_eq!(s.get(MessageId(3)), Some(vec![3]));
    let mut none = MessageStore::new(0);
    none.insert(MessageId(1), &[1]);
    assert_eq!(none.get(MessageId(1)), None);
}

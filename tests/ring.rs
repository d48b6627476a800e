use ctl_feed::messages::RawMessage;
use ctl_feed::ring::{CommitConflict, ConsumeStartState, PubSubRing, RingError};

fn rec(text: &str) -> RawMessage {
    RawMessage::from_bytes(text.as_bytes()).unwrap()
}

fn expect_success(state: ConsumeStartState) -> ctl_feed::ring::ConsumeGuard {
    match state {
        ConsumeStartState::Success(g) => g,
        other => panic!("expected Success, got {:?}", other),
    }
}

#[test]
fn power_of_two_capacities_are_accepted() {
    for cap in [1usize, 2, 4, 8, 1024, 65536] {
        assert!(PubSubRing::create("TOP_0_PS", cap).is_ok(), "capacity {}", cap);
    }
}

#[test]
fn other_capacities_are_refused() {
    for cap in [0usize, 3, 6, 1000, 65535] {
        assert_eq!(PubSubRing::create("TOP_0_PS", cap).err(), Some(RingError::CapacityNotPowerOfTwo));
    }
}

#[test]
fn publish_then_consume_round_trip() {
    let mut ring = PubSubRing::create("TOP_0_PS", 8).unwrap();
    let mut consumer = ring.attach_consumer();
    let r = rec("{\"s\":\"BTCUSDT\"}");
    ring.publish(r);
    let guard = expect_success(consumer.consume_start(&ring));
    assert_eq!(guard.record.data, r.data);
    assert!(consumer.try_commit(&ring, &guard).is_ok());
    assert_eq!(consumer.cursor, 1);
}

#[test]
fn attaching_after_publish_sees_only_new_records() {
    let mut ring = PubSubRing::create("TOP_0_PS", 4).unwrap();
    ring.publish(rec("old"));
    let consumer = ring.attach_consumer();
    assert!(matches!(consumer.consume_start(&ring), ConsumeStartState::Empty));
}

#[test]
fn lapped_consumer_sees_sped_past() {
    let mut ring = PubSubRing::create("TOP_0_PS", 4).unwrap();
    let mut consumer = ring.attach_consumer();
    for t in ["A", "B", "C", "D", "E"] {
        ring.publish(rec(t));
    }
    match consumer.consume_start(&ring) {
        ConsumeStartState::SpedPast(g) => {
            assert_eq!(g.record.data, rec("E").data);
            assert_eq!(consumer.try_commit(&ring, &g), Err(CommitConflict));
            assert_eq!(consumer.accept_loss(&g), 4);
            assert_eq!(consumer.cursor, 4);
            let next = expect_success(consumer.consume_start(&ring));
            assert_eq!(next.record.data, rec("E").data);
        }
        other => panic!("expected SpedPast, got {:?}", other),
    }
}

#[test]
fn exhaustion_reads_all_then_empty() {
    let mut ring = PubSubRing::create("TOP_0_PS", 4).unwrap();
    let mut consumer = ring.attach_consumer();
    for t in ["A", "B", "C", "D"] {
        ring.publish(rec(t));
    }
    for t in ["A", "B", "C", "D"] {
        let g = expect_success(consumer.consume_start(&ring));
        assert_eq!(g.record.data, rec(t).data);
        consumer.try_commit(&ring, &g).unwrap();
    }
    assert!(matches!(consumer.consume_start(&ring), ConsumeStartState::Empty));
}

#[test]
fn record_in_flight_is_reported_then_readable() {
    let mut ring = PubSubRing::create("TOP_0_PS", 4).unwrap();
    let mut consumer = ring.attach_consumer();
    ring.begin_publish(rec("A"));
    assert!(matches!(consumer.consume_start(&ring), ConsumeStartState::InFlight(_)));
    ring.finish_publish();
    let g = expect_success(consumer.consume_start(&ring));
    assert_eq!(g.record.data, rec("A").data);
    consumer.try_commit(&ring, &g).unwrap();
}

#[test]
fn commit_fails_when_the_slot_is_overwritten() {
    let mut ring = PubSubRing::create("TOP_0_PS", 2).unwrap();
    let mut consumer = ring.attach_consumer();
    ring.publish(rec("A"));
    let g = expect_success(consumer.consume_start(&ring));
    ring.publish(rec("B"));
    ring.publish(rec("C"));
    assert_eq!(consumer.try_commit(&ring, &g), Err(CommitConflict));
    assert_eq!(consumer.cursor, 0);
}

#[test]
fn ring_reports_name_capacity_and_head() {
    let mut ring = PubSubRing::create("TRADE_3_PS", 16).unwrap();
    assert_eq!(ring.name(), "TRADE_3_PS");
    assert_eq!(ring.capacity_exec(), 16);
    ring.publish(rec("x"));
    assert_eq!(ring.head(), 1);
}

#[test]
fn single_slot_ring_is_lapped_by_the_second_record() {
    let mut ring = PubSubRing::create("TOP_0_PS", 1).unwrap();
    let consumer = ring.attach_consumer();
    ring.publish(rec("A"));
    ring.publish(rec("B"));
    assert!(matches!(consumer.consume_start(&ring), ConsumeStartState::SpedPast(_)));
}

#[test]
fn records_hold_payloads_up_to_their_size() {
    let full = vec![b'x'; 512];
    assert_eq!(RawMessage::from_bytes(&full).unwrap().data, [b'x'; 512]);
    assert!(RawMessage::from_bytes(&vec![b'x'; 513]).is_none());
    assert_eq!(RawMessage::from_bytes(b"").unwrap().data, [0u8; 512]);
}

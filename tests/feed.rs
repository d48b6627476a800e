use ctl_feed::feed::{reconcile, topic_name, Feed, FeedKind, FeedTransport, StreamSet};
use ctl_feed::feed_group::{
    assign_feeds, handle_payload, FeedGroup, FeedGroupConfig, FeedGroupError, FeedGroupWorkerCommand,
    FeedGroupWorkerCommandAck, Worker,
};
use ctl_feed::messages::{DummyParser, RawMessage};
use ctl_feed::requests::{WSRequest, WSRequestKind};
use ctl_feed::ring::{ConsumeStartState, PubSubRing};

/// A sink that records the frames it is given, and fails once told to.
#[derive(Debug, PartialEq)]
struct Recorder {
    frames: Vec<String>,
    fail_after: Option<usize>,
    incoming: Vec<Vec<u8>>,
    attempts: usize,
}

impl Recorder {
    fn new() -> Recorder {
        Recorder { frames: Vec::new(), fail_after: None, incoming: Vec::new(), attempts: 0 }
    }
}

impl FeedTransport for Recorder {
    type Error = String;

    fn send(&mut self, frame: &str) -> Result<(), String> {
        self.attempts += 1;
        if let Some(n) = self.fail_after {
            if self.frames.len() >= n {
                return Err("connection closed".to_string());
            }
        }
        self.frames.push(frame.to_string());
        Ok(())
    }

    fn poll(&mut self) -> Result<Option<Vec<u8>>, String> {
        Ok(self.incoming.pop())
    }
}

fn set_of(names: &[&str]) -> StreamSet {
    let mut s = StreamSet::new();
    for n in names {
        s.insert(n);
    }
    s
}

fn params(req: &WSRequest) -> (&'static str, Vec<String>) {
    match &req.kind {
        WSRequestKind::Subscribe(v) => ("SUBSCRIBE", v.clone()),
        WSRequestKind::Unsubscribe(v) => ("UNSUBSCRIBE", v.clone()),
        other => panic!("unexpected request {:?}", other),
    }
}

#[test]
fn reconcile_same_streams_sends_nothing() {
    let current = set_of(&["btc", "eth"]);
    let target = set_of(&["btc", "eth"]);
    assert!(reconcile(&current, &target, FeedKind::Top).is_empty());
    let reordered = set_of(&["eth", "btc"]);
    assert!(reconcile(&current, &reordered, FeedKind::Trade).is_empty());
}

#[test]
fn reconcile_unsubscribes_before_subscribing() {
    let current = set_of(&["btcusdt", "ethusdt"]);
    let target = set_of(&["ethusdt", "solusdt"]);
    let frames = reconcile(&current, &target, FeedKind::Trade);
    assert_eq!(frames.len(), 2);
    assert_eq!(params(&frames[0]), ("UNSUBSCRIBE", vec!["btcusdt@trade".to_string()]));
    assert_eq!(params(&frames[1]), ("SUBSCRIBE", vec!["solusdt@trade".to_string()]));
    assert!(frames.iter().all(|f| f.id.is_none()));
}

#[test]
fn reconcile_only_adds_when_nothing_goes() {
    let frames = reconcile(&StreamSet::new(), &set_of(&["btcusdt", "ethusdt"]), FeedKind::AggTrade);
    assert_eq!(frames.len(), 1);
    assert_eq!(params(&frames[0]), ("SUBSCRIBE", vec!["btcusdt@aggTrade".to_string(), "ethusdt@aggTrade".to_string()]));
}

#[test]
fn topic_names_per_kind() {
    assert_eq!(topic_name("btcusdt", FeedKind::Top), "btcusdt@bookTicker");
    assert_eq!(topic_name("btcusdt", FeedKind::Trade), "btcusdt@trade");
    assert_eq!(topic_name("btcusdt", FeedKind::AggTrade), "btcusdt@aggTrade");
}

#[test]
fn stream_set_insert_remove_difference() {
    let mut s = set_of(&["a", "b"]);
    assert!(!s.insert("a"));
    assert!(s.insert("c"));
    assert_eq!(s.len(), 3);
    assert_eq!(s.remove("b"), Some("b".to_string()));
    assert_eq!(s.remove("b"), None);
    assert!(s.contains("c"));
    assert_eq!(s.difference(&set_of(&["c"])), vec!["a".to_string()]);
    assert_eq!(s.intersection(&set_of(&["c", "z"])).len(), 1);
}

#[test]
fn feed_update_sends_frames_and_tracks_streams() {
    let mut feed = Feed::new("TradeFeed", FeedKind::Trade, Recorder::new());
    feed.update(&set_of(&["btcusdt", "ethusdt"])).unwrap();
    feed.update(&set_of(&["ethusdt", "solusdt"])).unwrap();
    assert_eq!(
        feed.transport.frames,
        vec![
            "{\"method\":\"SUBSCRIBE\",\"params\":[\"btcusdt@trade\",\"ethusdt@trade\"],\"id\":null}".to_string(),
            "{\"method\":\"UNSUBSCRIBE\",\"params\":[\"btcusdt@trade\"],\"id\":null}".to_string(),
            "{\"method\":\"SUBSCRIBE\",\"params\":[\"solusdt@trade\"],\"id\":null}".to_string(),
        ]
    );
    assert!(feed.streams().contains("solusdt"));
    assert!(!feed.streams().contains("btcusdt"));
    assert_eq!(feed.name(), "TradeFeed");
}

#[test]
fn feed_update_failure_keeps_what_was_sent() {
    let mut feed = Feed::new("TopFeed", FeedKind::Top, Recorder::new());
    feed.update(&set_of(&["btc", "eth"])).unwrap();
    feed.transport.fail_after = Some(2);
    let result = feed.update(&set_of(&["eth", "sol"]));
    assert_eq!(result, Err("connection closed".to_string()));
    assert_eq!(feed.streams().len(), 1);
    assert!(feed.streams().contains("eth"));
}

fn worker_with(names: &[&str]) -> Worker<Recorder> {
    let feeds = names.iter().map(|n| Feed::new(n, FeedKind::Top, Recorder::new())).collect();
    Worker::new(feeds, StreamSet::new())
}

#[test]
fn add_feed_returns_the_previous_feed() {
    let mut worker = worker_with(&["A", "B"]);
    let mut replacement = Recorder::new();
    replacement.frames.push("marker".to_string());
    let ack = worker.apply(FeedGroupWorkerCommand::AddFeed(Feed::new("B", FeedKind::Top, replacement))).unwrap();
    match ack {
        FeedGroupWorkerCommandAck::AddFeed(Some(previous)) => {
            assert_eq!(previous.name(), "B");
            assert!(previous.transport.frames.is_empty());
        }
        _ => panic!("expected the previous feed"),
    }
    assert_eq!(worker.feed_count(), 2);
    let ack = worker.apply(FeedGroupWorkerCommand::AddFeed(Feed::new("C", FeedKind::Top, Recorder::new()))).unwrap();
    assert!(matches!(ack, FeedGroupWorkerCommandAck::AddFeed(None)));
    assert_eq!(worker.feed_count(), 3);
}

#[test]
fn remove_feed_returns_the_removed_feed() {
    let mut worker = worker_with(&["A", "B"]);
    let ack = worker.apply(FeedGroupWorkerCommand::RemoveFeed("A".to_string())).unwrap();
    assert!(matches!(ack, FeedGroupWorkerCommandAck::RemoveFeed(Some(ref f)) if f.name() == "A"));
    let ack = worker.apply(FeedGroupWorkerCommand::RemoveFeed("Z".to_string())).unwrap();
    assert!(matches!(ack, FeedGroupWorkerCommandAck::RemoveFeed(None)));
    assert_eq!(worker.feed_count(), 1);
}

#[test]
fn stream_commands_reconcile_every_feed() {
    let mut worker = worker_with(&["A", "B"]);
    let ack = worker.apply(FeedGroupWorkerCommand::AddStream("btcusdt".to_string())).unwrap();
    assert!(matches!(ack, FeedGroupWorkerCommandAck::AddStream(true)));
    let ack = worker.apply(FeedGroupWorkerCommand::AddStream("btcusdt".to_string())).unwrap();
    assert!(matches!(ack, FeedGroupWorkerCommandAck::AddStream(false)));
    let ack = worker.apply(FeedGroupWorkerCommand::RemoveStream("btcusdt".to_string())).unwrap();
    assert!(matches!(ack, FeedGroupWorkerCommandAck::RemoveStream(Some(ref s)) if s == "btcusdt"));
    let ack = worker.apply(FeedGroupWorkerCommand::RemoveStream("btcusdt".to_string())).unwrap();
    assert!(matches!(ack, FeedGroupWorkerCommandAck::RemoveStream(None)));
}

#[test]
fn feeds_are_assigned_round_robin() {
    assert_eq!(assign_feeds(2, 4), vec![0, 1]);
    assert_eq!(assign_feeds(5, 2), vec![0, 1, 0, 1, 0]);
}

fn group_config(feeds: usize, workers: Vec<u32>, command: usize, feedback: usize) -> FeedGroupConfig<Recorder> {
    FeedGroupConfig {
        name: "TopFeedGroup".to_string(),
        worker_lcore_ids: workers,
        feeds: (0..feeds).map(|i| Feed::new(&format!("F{}", i), FeedKind::Top, Recorder::new())).collect(),
        streams: set_of(&["btcusdt"]),
        command_channel_capacity: command,
        feedback_channel_capacity: feedback,
    }
}

#[test]
fn group_validation_errors() {
    assert_eq!(FeedGroup::validated_build(group_config(0, vec![1], 8, 8)).err(), Some(FeedGroupError::NoFeeds));
    assert_eq!(FeedGroup::validated_build(group_config(1, vec![], 8, 8)).err(), Some(FeedGroupError::NoWorkers));
    assert_eq!(FeedGroup::validated_build(group_config(1, vec![1], 0, 8)).err(), Some(FeedGroupError::ZeroCommandCapacity));
    assert_eq!(FeedGroup::validated_build(group_config(1, vec![1], 8, 0)).err(), Some(FeedGroupError::ZeroFeedbackCapacity));
}

#[test]
fn group_splits_feeds_over_workers() {
    let group = FeedGroup::validated_build(group_config(3, vec![1, 2], 8, 8)).unwrap();
    assert_eq!(group.lcore_ids(), &vec![1, 2]);
    let workers = group.into_workers();
    assert_eq!(workers.len(), 2);
    assert_eq!(workers[0].feed_count(), 2);
    assert_eq!(workers[1].feed_count(), 1);
}

#[test]
fn payloads_are_parsed_and_published() {
    let mut ring = PubSubRing::create("TOP_0_PS", 4).unwrap();
    let mut parser = DummyParser;
    let consumer = ring.attach_consumer();
    assert!(handle_payload(&mut ring, &mut parser, b"{\"b\":\"1.0\"}"));
    assert!(!handle_payload(&mut ring, &mut parser, &[0xff, 0xfe]));
    assert!(!handle_payload(&mut ring, &mut parser, &[b'a'; 513]));
    assert_eq!(ring.head(), 1);
    match consumer.consume_start(&ring) {
        ConsumeStartState::Success(g) => {
            assert_eq!(&g.record.data[..11], b"{\"b\":\"1.0\"}");
            assert!(g.record.data[11..].iter().all(|b| *b == 0));
        }
        other => panic!("expected Success, got {:?}", other),
    }
}

#[test]
fn parser_leaves_the_record_alone_on_error() {
    let mut parser = DummyParser;
    let mut record = RawMessage::from_bytes(b"keep").unwrap();
    assert!(parser.parse(&[0xc3], &mut record).is_err());
    assert_eq!(&record.data[..4], b"keep");
    assert!(parser.parse(b"new", &mut record).is_ok());
    assert_eq!(&record.data[..4], b"new\0");
    assert_eq!(RawMessage::default().data, [0u8; 512]);
}

#[test]
fn worker_round_polls_every_feed_and_publishes() {
    let mut a = Recorder::new();
    a.incoming.push(b"tick-a".to_vec());
    let mut b = Recorder::new();
    b.incoming.push(vec![0xff]);
    let mut c = Recorder::new();
    c.incoming.push(b"tick-c".to_vec());
    let feeds = vec![
        Feed::new("A", FeedKind::Top, a),
        Feed::new("B", FeedKind::Top, b),
        Feed::new("C", FeedKind::Top, c),
    ];
    let mut worker = Worker::new(feeds, StreamSet::new());
    let mut ring = PubSubRing::create("TOP_0_PS", 4).unwrap();
    let mut consumer = ring.attach_consumer();
    let mut parser = DummyParser;
    assert_eq!(worker.poll_once(&mut ring, &mut parser), Ok(2));
    assert_eq!(worker.poll_once(&mut ring, &mut parser), Ok(0));
    for expected in [&b"tick-a"[..], &b"tick-c"[..]] {
        match consumer.consume_start(&ring) {
            ConsumeStartState::Success(g) => {
                assert_eq!(&g.record.data[..expected.len()], expected);
                consumer.try_commit(&ring, &g).unwrap();
            }
            other => panic!("expected Success, got {:?}", other),
        }
    }
}

#[test]
fn failed_unsubscribe_stops_the_update() {
    let mut feed = Feed::new("TradeFeed", FeedKind::Trade, Recorder::new());
    feed.update(&set_of(&["btcusdt", "ethusdt"])).unwrap();
    feed.transport.fail_after = Some(1);
    let result = feed.update(&set_of(&["ethusdt", "solusdt"]));
    assert_eq!(result, Err("connection closed".to_string()));
    assert_eq!(feed.transport.attempts, 2);
    assert_eq!(feed.streams().len(), 2);
    assert!(feed.streams().contains("btcusdt"));
    assert!(!feed.streams().contains("solusdt"));
}

#[test]
fn worker_step_polls_then_acknowledges_each_command() {
    let mut a = Recorder::new();
    a.incoming.push(b"tick".to_vec());
    let mut worker = Worker::new(vec![Feed::new("A", FeedKind::Top, a)], StreamSet::new());
    let mut ring = PubSubRing::create("TOP_0_PS", 4).unwrap();
    let mut parser = DummyParser;
    let mut acks = Vec::new();
    worker
        .step(
            &mut ring,
            &mut parser,
            vec![
                FeedGroupWorkerCommand::AddStream("btcusdt".to_string()),
                FeedGroupWorkerCommand::RemoveFeed("Z".to_string()),
            ],
            &mut acks,
        )
        .unwrap();
    assert_eq!(ring.head(), 1);
    assert_eq!(acks.len(), 2);
    assert!(matches!(acks[0], FeedGroupWorkerCommandAck::AddStream(true)));
    assert!(matches!(acks[1], FeedGroupWorkerCommandAck::RemoveFeed(None)));
}

#[test]
fn worker_step_keeps_acknowledgements_before_a_failure() {
    let mut worker = worker_with(&["A"]);
    let mut ring = PubSubRing::create("TOP_0_PS", 4).unwrap();
    let mut parser = DummyParser;
    let mut acks = Vec::new();
    let mut failing = Recorder::new();
    failing.fail_after = Some(0);
    let result = worker.step(
        &mut ring,
        &mut parser,
        vec![
            FeedGroupWorkerCommand::AddFeed(Feed::new("A", FeedKind::Top, failing)),
            FeedGroupWorkerCommand::AddStream("btcusdt".to_string()),
            FeedGroupWorkerCommand::RemoveFeed("A".to_string()),
        ],
        &mut acks,
    );
    assert_eq!(result, Err("connection closed".to_string()));
    assert_eq!(acks.len(), 1);
    assert!(matches!(acks[0], FeedGroupWorkerCommandAck::AddFeed(Some(_))));
    assert_eq!(worker.feed_count(), 1);
}

#[test]
fn worker_without_feeds_handles_feed_commands() {
    let mut worker = worker_with(&[]);
    let mut ring = PubSubRing::create("TOP_0_PS", 4).unwrap();
    let mut parser = DummyParser;
    let mut acks = Vec::new();
    let result = worker.step(
        &mut ring,
        &mut parser,
        vec![
            FeedGroupWorkerCommand::AddFeed(Feed::new("A", FeedKind::Top, Recorder::new())),
            FeedGroupWorkerCommand::RemoveFeed("A".to_string()),
        ],
        &mut acks,
    );
    assert!(result.is_ok());
    assert!(matches!(acks[0], FeedGroupWorkerCommandAck::AddFeed(None)));
    assert!(matches!(acks[1], FeedGroupWorkerCommandAck::RemoveFeed(Some(_))));
    assert_eq!(ring.head(), 0);
}

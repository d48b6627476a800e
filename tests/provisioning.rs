use ctl_feed::feed::FeedTransport;
use ctl_feed::feed_group::FeedGroupWorkerCommandAck;
use ctl_feed::handler_config::{ConfigItem, FeedConfig, FeedWrapper, HwResourcesConfig, Medium, SymbolSet};
use ctl_feed::provisioning::{plan_feed_group, plan_rings, ring_name, ring_name_from_upper, stream_name, GroupPlanError, PlanError};
use ctl_feed::ring::{RingDirectory, RingError};
use ctl_feed::symbols::{SymbolInfoConfig, SymbolInfoConfigError};

fn strings(items: &[&str]) -> Vec<String> {
    items.iter().map(|s| s.to_string()).collect()
}

fn medium() -> Vec<Medium> {
    vec![Medium { protocol: "websocket".to_string(), parser: "json".to_string() }]
}

fn config() -> HwResourcesConfig {
    let top = FeedConfig {
        kind: "top".to_string(),
        num_cpus: None,
        ring_size: None,
        symbols: Vec::new(),
        medium: Vec::new(),
        sets: vec![
            SymbolSet { name: "A".to_string(), num_cpus: 1, ring_size: 1024, symbols: strings(&["BTCUSDT", "ETHUSDT"]), medium: medium() },
            SymbolSet { name: "B".to_string(), num_cpus: 1, ring_size: 64, symbols: strings(&["SOLUSDT"]), medium: medium() },
        ],
    };
    let trade = FeedConfig {
        kind: "trade".to_string(),
        num_cpus: Some(2),
        ring_size: Some(4096),
        symbols: strings(&["BTCUSDT"]),
        medium: medium(),
        sets: Vec::new(),
    };
    let items = vec![
        ConfigItem::MainCpu { main_cpu: 0 },
        ConfigItem::WorkerCpus { worker_cpus: "1-4".to_string() },
        ConfigItem::PubSubs { pubsubs: vec![FeedWrapper { feed: top }, FeedWrapper { feed: trade }] },
    ];
    HwResourcesConfig::from_items(items).unwrap()
}

fn table(entries: &[(&str, u32)]) -> Result<SymbolInfoConfig, SymbolInfoConfigError> {
    SymbolInfoConfig::from_entries(entries.iter().map(|(n, i)| (n.to_string(), *i)).collect())
}

#[test]
fn symbol_table_lookups() {
    let t = table(&[("BTCUSDT", 0), ("ETHUSDT", 1)]).unwrap();
    assert_eq!(t.symbol_id("ETHUSDT"), Some(1));
    assert_eq!(t.symbol_id("XRPUSDT"), None);
    assert_eq!(t.get_by_id(0).unwrap().name, "BTCUSDT");
    assert_eq!(t.get_by_name("BTCUSDT").unwrap().id, 0);
    assert_eq!(t.len(), 2);
    assert!(!t.is_empty());
    let mut all: Vec<(String, u32)> = t.symbols().into_iter().map(|s| (s.name, s.id)).collect();
    all.sort();
    assert_eq!(all, vec![("BTCUSDT".to_string(), 0), ("ETHUSDT".to_string(), 1)]);
}

#[test]
fn symbol_table_refuses_duplicates() {
    assert_eq!(table(&[("A", 0), ("B", 0)]).err(), Some(SymbolInfoConfigError::DuplicateId(0)));
    assert_eq!(table(&[("A", 0), ("A", 1)]).err(), Some(SymbolInfoConfigError::DuplicateName("A".to_string())));
    assert!(table(&[]).unwrap().is_empty());
}

#[test]
fn ring_names_follow_the_convention() {
    assert_eq!(ring_name("top", 0), "TOP_0_PS");
    assert_eq!(ring_name("trade", 42), "TRADE_42_PS");
    assert_eq!(ring_name_from_upper("AGGTRADE", 7), "AGGTRADE_7_PS");
    assert_eq!(stream_name("BTCUSDT"), "btcusdt");
}

#[test]
fn rings_are_planned_per_feed_and_symbol() {
    let t = table(&[("BTCUSDT", 0), ("ETHUSDT", 1), ("SOLUSDT", 2)]).unwrap();
    let plan = plan_rings(&config(), &t).unwrap();
    let got: Vec<(String, u32)> = plan.iter().map(|r| (r.name.clone(), r.capacity)).collect();
    assert_eq!(
        got,
        vec![
            ("TOP_0_PS".to_string(), 1024),
            ("TOP_1_PS".to_string(), 1024),
            ("TOP_2_PS".to_string(), 64),
            ("TRADE_0_PS".to_string(), 4096),
        ]
    );
}

#[test]
fn ring_plan_needs_every_symbol() {
    let t = table(&[("BTCUSDT", 0), ("ETHUSDT", 1)]).unwrap();
    assert_eq!(plan_rings(&config(), &t).err(), Some(PlanError::UnknownSymbol("SOLUSDT".to_string())));
}

#[test]
fn feed_group_plan_uses_first_symbol_ring() {
    let t = table(&[("BTCUSDT", 0), ("ETHUSDT", 1), ("SOLUSDT", 2)]).unwrap();
    let plan = plan_feed_group(&config(), &t, "top").unwrap();
    assert_eq!(plan.ring_name, "TOP_0_PS");
    assert_eq!(plan.symbol_count, 3);
    assert!(plan.streams.contains("btcusdt") && plan.streams.contains("solusdt"));
    assert_eq!(plan_feed_group(&config(), &t, "agg").err(), Some(GroupPlanError::FeedNotFound("agg".to_string())));
    let empty = table(&[]).unwrap();
    assert_eq!(
        plan_feed_group(&config(), &empty, "trade").err(),
        Some(GroupPlanError::UnknownSymbol("BTCUSDT".to_string()))
    );
}

#[test]
fn ring_directory_lookup() {
    let mut dir = RingDirectory::new();
    assert_eq!(dir.create("TOP_0_PS", 8), Ok(()));
    assert_eq!(dir.create("TOP_0_PS", 8), Err(RingError::AlreadyExists));
    assert_eq!(dir.create("TOP_1_PS", 1000), Err(RingError::CapacityNotPowerOfTwo));
    assert_eq!(dir.lookup("TOP_1_PS").err(), Some(RingError::NotFound));
    assert_eq!(dir.lookup_record("TOP_0_PS", 64).err(), Some(RingError::TypeMismatch));
    assert_eq!(dir.lookup_record("TOP_9_PS", 512).err(), Some(RingError::NotFound));
    assert!(dir.lookup_record("TOP_0_PS", 512).is_ok());
    let ring = dir.lookup("TOP_0_PS").unwrap();
    assert_eq!(ring.name(), "TOP_0_PS");
    assert_eq!(ring.capacity_exec(), 8);
}

/// A connection that accepts every frame and never has data.
struct Quiet;

impl FeedTransport for Quiet {
    type Error = ();

    fn send(&mut self, _frame: &str) -> Result<(), ()> {
        Ok(())
    }

    fn poll(&mut self) -> Result<Option<Vec<u8>>, ()> {
        Ok(None)
    }
}

#[test]
fn acknowledgements_are_described() {
    let ack: FeedGroupWorkerCommandAck<Quiet> = FeedGroupWorkerCommandAck::AddStream(false);
    assert_eq!(ack.summary(), "AddStream: already existed");
    let ack: FeedGroupWorkerCommandAck<Quiet> = FeedGroupWorkerCommandAck::RemoveFeed(None);
    assert_eq!(ack.summary(), "RemoveFeed: feed not found");
}

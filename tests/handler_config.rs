use ctl_feed::handler_config::{
    ConfigIssue, ConfigItem, FeedConfig, FeedWrapper, HwResourcesConfig, HwResourcesConfigError, IssueOwner, Medium,
    PubSubConfig, SymbolSet,
};

fn medium(protocol: &str, parser: &str) -> Medium {
    Medium { protocol: protocol.to_string(), parser: parser.to_string() }
}

fn strings(items: &[&str]) -> Vec<String> {
    items.iter().map(|s| s.to_string()).collect()
}

fn set(name: &str, num_cpus: u32, ring_size: u32, symbols: &[&str], medium: Vec<Medium>) -> SymbolSet {
    SymbolSet { name: name.to_string(), num_cpus, ring_size, symbols: strings(symbols), medium }
}

fn direct(kind: &str, num_cpus: Option<u32>, ring_size: Option<u32>, symbols: &[&str], medium: Vec<Medium>) -> FeedConfig {
    FeedConfig { kind: kind.to_string(), num_cpus, ring_size, symbols: strings(symbols), medium, sets: Vec::new() }
}

fn with_sets(kind: &str, sets: Vec<SymbolSet>) -> FeedConfig {
    FeedConfig { kind: kind.to_string(), num_cpus: None, ring_size: None, symbols: Vec::new(), medium: Vec::new(), sets }
}

fn document(main_cpu: Option<u32>, worker_cpus: Option<&str>, feeds: Vec<FeedConfig>) -> Vec<ConfigItem> {
    let mut items = Vec::new();
    if let Some(cpu) = main_cpu {
        items.push(ConfigItem::MainCpu { main_cpu: cpu });
    }
    if let Some(w) = worker_cpus {
        items.push(ConfigItem::WorkerCpus { worker_cpus: w.to_string() });
    }
    items.push(ConfigItem::PubSubs { pubsubs: feeds.into_iter().map(|feed| FeedWrapper { feed }).collect() });
    items
}

/// The configuration with a "top" feed in two sets and a direct "trade" feed.
fn valid_config() -> Vec<ConfigItem> {
    let top = with_sets(
        "top",
        vec![
            set("A", 4, 65536, &["BTCUSDT", "ETHUSDT", "SOLUSDT"], vec![medium("websocket", "json"), medium("websocket", "sbe")]),
            set("B", 4, 65536, &["ADAUSDT", "XRPUSDT", "DOTUSDT"], vec![medium("websocket", "json")]),
        ],
    );
    let trade = direct("trade", Some(4), Some(65536), &["BTCUSDT", "ETHUSDT", "SOLUSDT"], vec![medium("websocket", "json")]);
    document(Some(0), Some("1-12"), vec![top, trade])
}

fn single_feed(feed: FeedConfig) -> Vec<ConfigItem> {
    document(Some(0), Some("1-4"), vec![feed])
}

fn error_text(items: Vec<ConfigItem>) -> String {
    let result = HwResourcesConfig::from_items(items);
    assert!(result.is_err());
    result.unwrap_err().message()
}

#[test]
fn config_test_parse_valid_config() {
    let config = HwResourcesConfig::from_items(valid_config()).expect("Failed to parse config");

    assert_eq!(config.main_cpu, 0);
    assert_eq!(config.worker_cpus, 1..=12);
    assert_eq!(config.pubsub_configs.len(), 1);
    assert_eq!(config.pubsub_configs[0].pubsubs.len(), 2);

    let top_feed = config.find_feed("top").expect("top feed not found");
    assert!(top_feed.uses_sets());
    assert_eq!(top_feed.sets.len(), 2);
    assert_eq!(top_feed.kind, "top");
    assert_eq!(top_feed.sets[0].medium.len(), 2);

    let trade_feed = config.find_feed("trade").expect("trade feed not found");
    assert!(!trade_feed.uses_sets());
    assert_eq!(trade_feed.num_cpus, Some(4));
    assert_eq!(trade_feed.ring_size, Some(65536));
    assert_eq!(trade_feed.symbols.len(), 3);
    assert_eq!(trade_feed.medium.len(), 1);
}

#[test]
fn test_all_symbols() {
    let config = HwResourcesConfig::from_items(valid_config()).expect("Failed to parse config");
    let symbols = config.all_symbols();

    assert!(symbols.iter().any(|s| s == "BTCUSDT"));
    assert!(symbols.iter().any(|s| s == "ETHUSDT"));
    assert!(symbols.iter().any(|s| s == "SOLUSDT"));
    assert!(symbols.iter().any(|s| s == "ADAUSDT"));
    assert!(symbols.iter().any(|s| s == "XRPUSDT"));
    assert!(symbols.iter().any(|s| s == "DOTUSDT"));
    assert_eq!(symbols.len(), 6);
}

#[test]
fn test_all_mediums() {
    let config = HwResourcesConfig::from_items(valid_config()).expect("Failed to parse config");

    let top_feed = config.find_feed("top").expect("top feed not found");
    let mediums = top_feed.all_mediums();
    assert_eq!(mediums.len(), 3);

    let trade_feed = config.find_feed("trade").expect("trade feed not found");
    let mediums = trade_feed.all_mediums();
    assert_eq!(mediums.len(), 1);
    assert_eq!(mediums[0].protocol, "websocket");
    assert_eq!(mediums[0].parser, "json");
}

#[test]
fn test_invalid_ring_size() {
    let feed = direct("test", Some(1), Some(1000), &["TEST"], vec![medium("websocket", "json")]);
    assert!(error_text(single_feed(feed)).contains("power of 2"));
}

#[test]
fn test_empty_kind() {
    let feed = direct("", Some(1), Some(1024), &["TEST"], vec![medium("websocket", "json")]);
    assert!(error_text(single_feed(feed)).contains("kind cannot be empty"));
}

#[test]
fn test_duplicate_symbols() {
    let feed = direct("test", Some(1), Some(1024), &["TEST", "TEST"], vec![medium("websocket", "json")]);
    assert!(error_text(single_feed(feed)).contains("Duplicate symbol"));
}

#[test]
fn test_duplicate_set_names() {
    let feed = with_sets(
        "test",
        vec![
            set("A", 1, 1024, &["TEST1"], vec![medium("websocket", "json")]),
            set("A", 2, 1024, &["TEST2"], vec![medium("websocket", "json")]),
        ],
    );
    assert!(error_text(single_feed(feed)).contains("Duplicate set name"));
}

#[test]
fn test_missing_num_cpus_without_sets() {
    let feed = direct("test", None, Some(1024), &["TEST"], vec![medium("websocket", "json")]);
    assert!(error_text(single_feed(feed)).contains("must specify 'num_cpus'"));
}

#[test]
fn test_empty_pubsubs() {
    let items = document(Some(0), Some("1-4"), vec![]);
    assert!(error_text(items).contains("at least one feed"));
}

#[test]
fn test_missing_medium() {
    let feed = direct("test", Some(1), Some(1024), &["TEST"], vec![]);
    assert!(error_text(single_feed(feed)).contains("at least one medium"));
}

#[test]
fn test_empty_protocol_in_medium() {
    let feed = direct("test", Some(1), Some(1024), &["TEST"], vec![medium("", "json")]);
    assert!(error_text(single_feed(feed)).contains("protocol cannot be empty"));
}

#[test]
fn test_empty_parser_in_medium() {
    let feed = direct("test", Some(1), Some(1024), &["TEST"], vec![medium("websocket", "")]);
    assert!(error_text(single_feed(feed)).contains("parser cannot be empty"));
}

#[test]
fn test_missing_main_cpu() {
    let feed = direct("test", Some(1), Some(1024), &["TEST"], vec![medium("websocket", "json")]);
    assert!(error_text(document(None, Some("1-4"), vec![feed])).contains("Missing 'main_cpu'"));
}

#[test]
fn test_missing_worker_cpus() {
    let feed = direct("test", Some(1), Some(1024), &["TEST"], vec![medium("websocket", "json")]);
    assert!(error_text(document(Some(0), None, vec![feed])).contains("Missing 'worker_cpus'"));
}

#[test]
fn test_invalid_worker_cpus_format() {
    let feed = direct("test", Some(1), Some(1024), &["TEST"], vec![medium("websocket", "json")]);
    assert!(error_text(document(Some(0), Some("1,2,3"), vec![feed])).contains("Invalid worker_cpus format"));
}

#[test]
fn test_duplicate_medium_in_set() {
    let feed = with_sets(
        "test",
        vec![set("A", 1, 1024, &["TEST"], vec![medium("websocket", "json"), medium("websocket", "json")])],
    );
    assert!(error_text(single_feed(feed)).contains("Duplicate medium"));
}

#[test]
fn ring_size_issue_names_the_size_and_owner() {
    let feed = direct("test", Some(1), Some(1000), &["TEST"], vec![medium("websocket", "json")]);
    let err = HwResourcesConfig::from_items(single_feed(feed)).unwrap_err();
    assert_eq!(
        err,
        HwResourcesConfigError::ValidationError(ConfigIssue::RingSizeNotPowerOfTwo {
            ring_size: 1000,
            owner: IssueOwner::InFeed("test".to_string()),
        })
    );
    assert_eq!(err.message(), "Configuration validation error: Ring size 1000 for feed 'test' must be a power of 2");
}

#[test]
fn set_ring_size_must_be_a_power_of_two() {
    let s = set("A", 1, 3, &["X"], vec![medium("websocket", "json")]);
    assert!(s.validate().is_err());
    let s = set("A", 1, 4, &["X"], vec![medium("websocket", "json")]);
    assert!(s.validate().is_ok());
}

#[test]
fn duplicate_main_cpu_is_refused() {
    let mut items = valid_config();
    items.push(ConfigItem::MainCpu { main_cpu: 5 });
    assert_eq!(error_text(items), "Configuration validation error: Duplicate 'main_cpu' configuration");
}

#[test]
fn duplicate_symbol_across_sets_is_refused() {
    let feed = with_sets(
        "top",
        vec![
            set("A", 1, 1024, &["BTC"], vec![medium("websocket", "json")]),
            set("B", 1, 1024, &["ETH", "BTC"], vec![medium("websocket", "json")]),
        ],
    );
    assert_eq!(
        HwResourcesConfig::from_items(single_feed(feed)).unwrap_err(),
        HwResourcesConfigError::ValidationError(ConfigIssue::DuplicateSymbolAcrossSets {
            symbol: "BTC".to_string(),
            feed: "top".to_string(),
        })
    );
}

#[test]
fn mixed_layout_is_refused() {
    let mut feed = with_sets("top", vec![set("A", 1, 1024, &["BTC"], vec![medium("websocket", "json")])]);
    feed.num_cpus = Some(2);
    assert!(error_text(single_feed(feed)).contains("cannot have both 'sets' and direct configuration"));
}

#[test]
fn duplicate_feed_kind_is_refused() {
    let a = direct("trade", Some(1), Some(1024), &["A"], vec![medium("websocket", "json")]);
    let b = direct("trade", Some(1), Some(1024), &["B"], vec![medium("websocket", "json")]);
    assert!(error_text(document(Some(0), Some("1-4"), vec![a, b])).contains("Duplicate feed kind 'trade'"));
}

#[test]
fn cpu_ranges_are_read_with_whitespace() {
    assert_eq!(HwResourcesConfig::parse_cpu_range(" 2 - 7 ").unwrap(), 2..=7);
    assert_eq!(HwResourcesConfig::parse_cpu_range("0-0").unwrap(), 0..=0);
    let reversed = HwResourcesConfig::parse_cpu_range("9-3").unwrap_err();
    assert_eq!(
        reversed.message(),
        "Configuration validation error: Invalid worker_cpus range '9-3': start (9) must be <= end (3)"
    );
    assert!(HwResourcesConfig::parse_cpu_range("x-3").unwrap_err().message().contains("Invalid start CPU"));
    assert!(HwResourcesConfig::parse_cpu_range("1-99999999999").unwrap_err().message().contains("Invalid end CPU"));
    assert!(HwResourcesConfig::parse_cpu_range("1-2-3").unwrap_err().message().contains("Invalid worker_cpus format"));
}

#[test]
fn medium_name_joins_protocol_and_parser() {
    assert_eq!(medium("websocket", "json").name(), "websocket/json");
}

#[test]
fn feed_symbols_follow_set_order() {
    let feed = with_sets(
        "top",
        vec![
            set("A", 1, 1024, &["BTC", "ETH"], vec![medium("websocket", "json")]),
            set("B", 1, 1024, &["SOL"], vec![medium("websocket", "json")]),
        ],
    );
    assert_eq!(feed.all_symbols(), strings(&["BTC", "ETH", "SOL"]));
    assert_eq!(feed.name(), "top");
    assert!(feed.validate().is_ok());
}

#[test]
fn pubsub_group_without_feeds_is_refused() {
    let group = PubSubConfig { pubsubs: Vec::new() };
    assert_eq!(group.validate(), Err(HwResourcesConfigError::ValidationError(ConfigIssue::NoFeeds)));
}

#[test]
fn all_feeds_lists_groups_in_order() {
    let config = HwResourcesConfig::from_items(valid_config()).unwrap();
    let kinds: Vec<&str> = config.all_feeds().iter().map(|f| f.kind.as_str()).collect();
    assert_eq!(kinds, vec!["top", "trade"]);
    assert!(config.find_feed("agg").is_none());
}

#[test]
fn member_messages_name_the_set_or_feed() {
    let feed = direct("test", Some(1), Some(1024), &[], vec![medium("websocket", "json")]);
    assert_eq!(
        error_text(single_feed(feed)),
        "Configuration validation error: Feed 'test' must have at least one symbol when not using sets"
    );
    let s = set("A", 1, 1024, &["X"], vec![]);
    assert_eq!(
        s.validate().unwrap_err().message(),
        "Configuration validation error: Symbol set 'A' must have at least one medium"
    );
}

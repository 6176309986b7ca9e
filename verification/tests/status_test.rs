use matcher::status::{clamp_to_u32, count_model, distinct_texts, is_seen_in_keys, occurs, price_range};
use matcher::{Ask, Decimal, MatcherService, OrderBook};

fn status_ask(provider: &str, model: &str, price: &str, heartbeat: u64) -> Ask {
    Ask {
        provider_id: provider.to_string(),
        model: model.to_string(),
        gpu_type: "a100".to_string(),
        price: Decimal::from_str(price).unwrap(),
        max_latency: 800,
        available_tokens: 1000,
        last_heartbeat: heartbeat,
    }
}

fn names(items: &[&str]) -> Vec<String> {
    items.iter().map(|s| s.to_string()).collect()
}

#[test]
fn the_status_counts_asks_providers_and_depths() {
    let book = OrderBook::new(120);
    let asks = vec![
        status_ask("p1", "gpt-4", "0.0009", 1_000),
        status_ask("p2", "gpt-4", "0.0008", 1_000),
        status_ask("p1", "gpt-3", "0.0002", 1_000),
        status_ask("p3", "gpt-3", "0.0001", 100),
    ];
    let keys = names(&["ask:p1:gpt-4", "ask:p2:gpt-4", "ask:p1:gpt-3", "ask:p3:gpt-3", "ask:p4:x"]);
    let status = book.status(&keys, &asks, 1_050);
    assert_eq!(status.total_asks, 5);
    assert_eq!(status.active_providers, 2);
    assert_eq!(status.depths.len(), 2);
    assert_eq!(status.depths[0].model, "gpt-4");
    assert_eq!(status.depths[0].ask_count, 2);
    assert_eq!(status.depths[0].provider_count, 2);
    assert_eq!(status.depths[1].model, "gpt-3");
    assert_eq!(status.depths[1].ask_count, 1);
    assert_eq!(status.depths[1].provider_count, 2);
    assert_eq!(status.min_price, "0.0002");
    assert_eq!(status.max_price, "0.0009");
    assert_eq!(status.last_match_timestamp, 1_050);
}

#[test]
fn the_status_of_an_empty_book() {
    let service = MatcherService::new();
    let status = service.get_order_book_status(&Vec::new(), &Vec::new(), 7);
    assert_eq!(status.total_asks, 0);
    assert_eq!(status.active_providers, 0);
    assert!(status.depths.is_empty());
    assert_eq!(status.min_price, "79228162514264337593543950335");
    assert_eq!(status.max_price, "-79228162514264337593543950335");
    assert_eq!(status.last_match_timestamp, 7);
}

#[test]
fn stale_asks_count_as_keys_only() {
    let book = OrderBook::new(120);
    let asks = vec![status_ask("p1", "gpt-4", "5", 0)];
    let status = book.status(&names(&["ask:p1:gpt-4"]), &asks, 1_000);
    assert_eq!(status.total_asks, 1);
    assert_eq!(status.active_providers, 0);
    assert!(status.depths.is_empty());
    assert_eq!(status.min_price, "79228162514264337593543950335");
}

#[test]
fn providers_are_counted_where_a_key_holds_their_id() {
    let book = OrderBook::new(120);
    let asks = vec![
        status_ask("p1", "gpt-4", "1", 1_000),
        status_ask("p2", "gpt-4", "2", 1_000),
    ];
    let status = book.status(&names(&["ask:p1:gpt-4"]), &asks, 1_000);
    assert_eq!(status.active_providers, 2);
    assert_eq!(status.depths.len(), 1);
    assert_eq!(status.depths[0].ask_count, 2);
    assert_eq!(status.depths[0].provider_count, 1);
}

#[test]
fn equal_prices_keep_the_first_text() {
    let asks = vec![
        status_ask("p1", "m", "1.0", 0),
        status_ask("p2", "m", "1.00", 0),
        status_ask("p3", "m", "0.5", 0),
        status_ask("p4", "m", "0.50", 0),
    ];
    let (lowest, highest) = price_range(&asks);
    assert_eq!(lowest.to_string(), "0.5");
    assert_eq!(highest.to_string(), "1.0");
}

#[test]
fn distinct_keeps_first_occurrences() {
    let items = names(&["b", "a", "b", "c", "a", ""]);
    assert_eq!(distinct_texts(&items), names(&["b", "a", "c", ""]));
    assert!(distinct_texts(&Vec::new()).is_empty());
}

#[test]
fn occurrence_of_bytes() {
    assert!(occurs(b"p1", b"ask:p1:gpt-4"));
    assert!(occurs(b"", b"abc"));
    assert!(occurs(b"", b""));
    assert!(occurs(b"abc", b"abc"));
    assert!(occurs(b"c", b"abc"));
    assert!(!occurs(b"abcd", b"abc"));
    assert!(!occurs(b"p3", b"ask:p1:gpt-4"));
    assert!(!occurs(b"a", b""));
    assert!(is_seen_in_keys(&"p1".to_string(), &names(&["x", "ask:p1:m"])));
    assert!(!is_seen_in_keys(&"p1".to_string(), &names(&["x", "ask:p2:m"])));
    assert!(!is_seen_in_keys(&"p1".to_string(), &Vec::new()));
}

#[test]
fn counting_and_clamping() {
    let asks = vec![
        status_ask("p1", "a", "1", 0),
        status_ask("p2", "b", "1", 0),
        status_ask("p3", "a", "1", 0),
    ];
    assert_eq!(count_model(&asks, &"a".to_string()), 2);
    assert_eq!(count_model(&asks, &"c".to_string()), 0);
    assert_eq!(clamp_to_u32(0), 0);
    assert_eq!(clamp_to_u32(u32::MAX as usize), u32::MAX);
    assert_eq!(clamp_to_u32(usize::MAX), u32::MAX);
}

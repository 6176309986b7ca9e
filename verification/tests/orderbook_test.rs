use matcher::orderbook::{
    comes_before, filter_matching, frontier_of, is_dominated, select_best, sort_by_price_latency,
};
use matcher::{Ask, Bid, Decimal, OrderBook};

fn book_ask(provider: &str, price: &str, latency: u32, tokens: u32) -> Ask {
    Ask {
        provider_id: provider.to_string(),
        model: "gpt4".to_string(),
        gpu_type: "a100".to_string(),
        price: Decimal::from_str(price).unwrap(),
        max_latency: latency,
        available_tokens: tokens,
        last_heartbeat: 1000,
    }
}

fn book_bid(max_price: &str, max_latency: u32) -> Bid {
    Bid {
        model: "gpt4".to_string(),
        prompt: "hello".to_string(),
        max_price: Decimal::from_str(max_price).unwrap(),
        max_latency,
        timestamp: 1000,
        user_id: "u1".to_string(),
        required_credits: None,
    }
}

fn providers(asks: &Vec<Ask>) -> Vec<String> {
    asks.iter().map(|a| a.provider_id.clone()).collect()
}

#[test]
fn test_credit_calculation() {
    let ask = Ask {
        provider_id: "p1".into(),
        model: "gpt4".into(),
        gpu_type: "a100".into(),
        price: Decimal::from_str("0.001").unwrap(),
        max_latency: 100,
        available_tokens: 1000,
        last_heartbeat: 123,
    };

    let credit_cost = ask.calculate_credit_cost(100);
    assert_eq!(credit_cost, Decimal::from_str("75.00000000").unwrap()); // (100/4) * 2 * 1.5
}

#[test]
fn test_pareto_dominance() {
    let ask1 = Ask {
        provider_id: "p1".into(),
        model: "gpt4".into(),
        gpu_type: "a100".into(),
        price: Decimal::from_str("0.001").unwrap(),
        max_latency: 100,
        available_tokens: 1000,
        last_heartbeat: 123,
    };

    let ask2 = Ask {
        provider_id: "p2".into(),
        model: "gpt4".into(),
        gpu_type: "a100".into(),
        price: Decimal::from_str("0.002").unwrap(),
        max_latency: 200,
        available_tokens: 500,
        last_heartbeat: 123,
    };

    assert!(ask1.dominates(&ask2));
    assert!(!ask2.dominates(&ask1));
}

#[test]
fn credit_cost_rounds_the_quarter_down() {
    let mut ask = book_ask("p1", "0.001", 100, 1000);
    assert_eq!(ask.calculate_credit_cost(101), Decimal::from_str("75").unwrap());
    assert_eq!(ask.calculate_credit_cost(103), Decimal::from_str("75").unwrap());
    assert_eq!(ask.calculate_credit_cost(104), Decimal::from_str("78").unwrap());
    assert_eq!(ask.calculate_credit_cost(3), Decimal::from_str("0").unwrap());
    ask.model = "gpt3".to_string();
    ask.gpu_type = "h100".to_string();
    assert_eq!(ask.calculate_credit_cost(8), Decimal::from_str("4").unwrap());
    ask.model = "other".to_string();
    ask.gpu_type = "t4".to_string();
    assert_eq!(ask.calculate_credit_cost(7), Decimal::from_str("1").unwrap());
    ask.gpu_type = "a100".to_string();
    assert_eq!(ask.calculate_credit_cost(4), Decimal::from_str("1.5").unwrap());
    assert_eq!(ask.calculate_credit_cost(4).to_string(), "1.5");
}

#[test]
fn credit_cost_of_the_longest_prompt() {
    let ask = book_ask("p1", "0.001", 100, 1000);
    let cost = ask.calculate_credit_cost(usize::MAX);
    let quarter = (usize::MAX / 4) as i128;
    assert_eq!(cost.mantissa(), quarter * 2 * 15);
    assert_eq!(cost.scale(), 1);
}

#[test]
fn equal_asks_do_not_dominate_each_other() {
    let a = book_ask("p1", "0.001", 100, 1000);
    let b = book_ask("p2", "0.0010", 100, 1000);
    assert!(!a.dominates(&b));
    assert!(!b.dominates(&a));
    assert!(!a.dominates(&a));
}

#[test]
fn dominance_needs_all_three_not_worse() {
    let cheap_slow = book_ask("p1", "0.001", 300, 1000);
    let dear_fast = book_ask("p2", "0.002", 100, 1000);
    assert!(!cheap_slow.dominates(&dear_fast));
    assert!(!dear_fast.dominates(&cheap_slow));
    let more_tokens = book_ask("p3", "0.001", 300, 2000);
    assert!(more_tokens.dominates(&cheap_slow));
    assert!(!cheap_slow.dominates(&more_tokens));
}

#[test]
fn pareto_tie_break_keeps_only_the_dominating_ask() {
    let asks = vec![book_ask("p1", "0.001", 100, 1000), book_ask("p2", "0.002", 200, 500)];
    let frontier = frontier_of(&asks);
    assert_eq!(providers(&frontier), vec!["p1".to_string()]);
    let book = OrderBook::new(120);
    let candidates = book.candidates(&book_bid("0.01", 1000), &asks, 1000);
    assert_eq!(providers(&candidates), vec!["p1".to_string()]);
}

#[test]
fn frontier_holds_every_undominated_ask() {
    let asks = vec![
        book_ask("dear_fast", "0.003", 100, 1000),
        book_ask("dominated", "0.003", 150, 900),
        book_ask("cheap_slow", "0.001", 300, 1000),
        book_ask("middle", "0.002", 200, 1000),
        book_ask("twin", "0.002", 200, 1000),
    ];
    let frontier = frontier_of(&asks);
    assert_eq!(
        providers(&frontier),
        vec![
            "dear_fast".to_string(),
            "cheap_slow".to_string(),
            "middle".to_string(),
            "twin".to_string()
        ]
    );
    for a in frontier.iter() {
        for b in frontier.iter() {
            assert!(!b.dominates(a));
        }
        assert!(!is_dominated(a, &asks));
    }
    assert!(is_dominated(&asks[1], &asks));
}

#[test]
fn frontier_of_nothing_is_empty() {
    let asks: Vec<Ask> = Vec::new();
    assert!(frontier_of(&asks).is_empty());
    assert!(select_best(&asks).is_none());
    assert!(sort_by_price_latency(&asks).is_empty());
}

#[test]
fn candidates_ascend_by_price_then_latency() {
    let asks = vec![
        book_ask("c", "0.003", 100, 1000),
        book_ask("a2", "0.001", 400, 2000),
        book_ask("b", "0.002", 200, 1000),
        book_ask("a1", "0.0010", 300, 1000),
    ];
    let book = OrderBook::new(120);
    let candidates = book.candidates(&book_bid("0.01", 1000), &asks, 1000);
    assert_eq!(
        providers(&candidates),
        vec!["a1".to_string(), "a2".to_string(), "b".to_string(), "c".to_string()]
    );
    for i in 1..candidates.len() {
        assert!(comes_before(&candidates[i - 1], &candidates[i]));
    }
}

#[test]
fn sorting_keeps_every_ask() {
    let asks = vec![
        book_ask("x", "0.5", 10, 1),
        book_ask("y", "0.5", 10, 1),
        book_ask("z", "0.25", 90, 1),
        book_ask("w", "0.5", 5, 1),
    ];
    let sorted = sort_by_price_latency(&asks);
    assert_eq!(
        providers(&sorted),
        vec!["z".to_string(), "w".to_string(), "x".to_string(), "y".to_string()]
    );
}

#[test]
fn matching_checks_model_price_latency_and_freshness() {
    let bid = book_bid("0.002", 200);
    let book = OrderBook::new(120);
    let mut ask = book_ask("p", "0.002", 200, 1);
    assert!(ask.matches(&bid, 1000, book.stale_threshold()));
    ask.price = Decimal::from_str("0.00200001").unwrap();
    assert!(!ask.matches(&bid, 1000, 120));
    ask.price = Decimal::from_str("0.002").unwrap();
    ask.max_latency = 201;
    assert!(!ask.matches(&bid, 1000, 120));
    ask.max_latency = 200;
    ask.model = "gpt3".to_string();
    assert!(!ask.matches(&bid, 1000, 120));
    ask.model = "gpt4".to_string();
    assert!(ask.matches(&bid, 1120, 120));
    assert!(!ask.matches(&bid, 1121, 120));
}

#[test]
fn freshness_at_the_threshold() {
    let ask = book_ask("p", "1", 1, 1);
    assert!(ask.is_fresh(1000, 120));
    assert!(ask.is_fresh(1120, 120));
    assert!(!ask.is_fresh(1121, 120));
    assert!(ask.is_fresh(999, 120));
    assert!(ask.is_fresh(0, 0));
    assert!(ask.is_fresh(1000, 0));
    assert!(!ask.is_fresh(1001, 0));
    assert!(!ask.is_fresh(u64::MAX, 120));
}

#[test]
fn stale_asks_are_no_candidates() {
    let mut stale = book_ask("stale", "0.0001", 10, 9999);
    stale.last_heartbeat = 1000;
    let mut live = book_ask("live", "0.001", 100, 1000);
    live.last_heartbeat = 1100;
    let asks = vec![stale, live];
    let book = OrderBook::new(120);
    let bid = book_bid("0.01", 1000);
    let candidates = book.candidates(&bid, &asks, 1121);
    assert_eq!(providers(&candidates), vec!["live".to_string()]);
    let matching = filter_matching(&asks, &bid, 1120, 120);
    assert_eq!(matching.len(), 2);
}

#[test]
fn a_stale_ask_does_not_dominate() {
    let mut stale = book_ask("stale", "0.0001", 10, 9999);
    stale.last_heartbeat = 0;
    let live = book_ask("live", "0.001", 100, 1000);
    let book = OrderBook::new(120);
    let candidates = book.candidates(&book_bid("0.01", 1000), &vec![stale, live], 1000);
    assert_eq!(providers(&candidates), vec!["live".to_string()]);
}

#[test]
fn select_best_takes_least_price_then_least_latency() {
    let asks = vec![
        book_ask("a", "0.002", 100, 1),
        book_ask("b", "0.001", 300, 1),
        book_ask("c", "0.001", 200, 1),
        book_ask("d", "0.0010", 200, 5),
    ];
    assert_eq!(select_best(&asks).unwrap().provider_id, "c");
}

#[test]
fn matches_with_credits_pair_each_candidate_with_its_cost() {
    let mut h100 = book_ask("fast", "0.003", 100, 1000);
    h100.gpu_type = "h100".to_string();
    let a100 = book_ask("cheap", "0.001", 300, 1000);
    let book = OrderBook::new(120);
    let pairs = book.find_matches_with_credits(&book_bid("0.01", 1000), &vec![h100, a100], 40, 1000);
    assert_eq!(pairs.len(), 2);
    assert_eq!(pairs[0].0.provider_id, "cheap");
    assert_eq!(pairs[0].1, Decimal::from_str("30").unwrap());
    assert_eq!(pairs[1].0.provider_id, "fast");
    assert_eq!(pairs[1].1, Decimal::from_str("40").unwrap());
}

#[test]
fn ask_clone_keeps_every_field() {
    let ask = book_ask("p1", "0.0015", 120, 77);
    let copy = ask.clone();
    assert_eq!(copy.provider_id, "p1");
    assert_eq!(copy.model, "gpt4");
    assert_eq!(copy.gpu_type, "a100");
    assert_eq!(copy.price.to_string(), "0.0015");
    assert_eq!(copy.max_latency, 120);
    assert_eq!(copy.available_tokens, 77);
    assert_eq!(copy.last_heartbeat, 1000);
}

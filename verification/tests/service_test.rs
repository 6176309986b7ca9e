use matcher::error::RpcStatus;
use matcher::service::{decode_ask, decode_bid, BidRequest, ProviderStatusRequest};
use matcher::{Ask, Bid, Decimal, MatchError, MatcherService, StoreCommand};

fn live_ask(provider: &str, price: &str, latency: u32, tokens: u32) -> Ask {
    Ask {
        provider_id: provider.to_string(),
        model: "gpt-4".to_string(),
        gpu_type: "a100".to_string(),
        price: Decimal::from_str(price).unwrap(),
        max_latency: latency,
        available_tokens: tokens,
        last_heartbeat: 1_000,
    }
}

fn request(max_price: &str, max_latency: u32, credits: &str) -> BidRequest {
    BidRequest {
        model: "gpt-4".to_string(),
        prompt: "tell me a story".to_string(),
        max_price: max_price.to_string(),
        max_latency,
        user_id: "alice".to_string(),
        required_credits: credits.to_string(),
    }
}

fn plain_bid(max_price: &str, max_latency: u32, credits: Option<&str>) -> Bid {
    Bid {
        model: "gpt-4".to_string(),
        prompt: "tell me a story".to_string(),
        max_price: Decimal::from_str(max_price).unwrap(),
        max_latency,
        timestamp: 1_000,
        user_id: "alice".to_string(),
        required_credits: credits.map(|c| Decimal::from_str(c).unwrap()),
    }
}

#[test]
fn basic_selection_takes_the_cheaper_provider() {
    let mut service = MatcherService::new();
    let asks = vec![live_ask("p1", "0.0009", 800, 1000), live_ask("p2", "0.0008", 900, 1000)];
    let outcome = service
        .submit_bid(&request("0.001", 1000, "1"), &asks, Some("100"), 1_000, 0)
        .unwrap();
    assert_eq!(outcome.chosen.provider_id, "p2");
}

#[test]
fn price_ceiling_gives_not_found() {
    let mut service = MatcherService::new();
    let asks = vec![live_ask("p1", "0.0009", 800, 1000)];
    let result = service.submit_bid(&request("0.0007", 1000, "1"), &asks, Some("100"), 1_000, 0);
    let error = result.unwrap_err();
    assert_eq!(error, MatchError::NoMatch);
    assert_eq!(error.rpc_status(), RpcStatus::NotFound);
}

#[test]
fn latency_ceiling_gives_not_found() {
    let mut service = MatcherService::new();
    let asks = vec![live_ask("p1", "0.0009", 800, 1000)];
    let result = service.submit_bid(&request("0.001", 500, "1"), &asks, Some("100"), 1_000, 0);
    assert_eq!(result.unwrap_err(), MatchError::NoMatch);
}

#[test]
fn no_asks_give_not_found() {
    let mut service = MatcherService::new();
    let result = service.submit_bid(&request("0.001", 500, "1"), &Vec::new(), Some("100"), 1_000, 0);
    assert_eq!(result.unwrap_err(), MatchError::NoMatch);
}

#[test]
fn circuit_open_exclusion_selects_the_next_best() {
    let mut service = MatcherService::new();
    for at in [1, 2, 3] {
        service.circuit_breaker.record_failure("p1", at);
    }
    let asks = vec![live_ask("p1", "0.0005", 800, 1000), live_ask("p2", "0.0008", 700, 1000)];
    let outcome = service
        .submit_bid(&request("0.001", 1000, "1"), &asks, Some("100"), 1_000, 10)
        .unwrap();
    assert_eq!(outcome.chosen.provider_id, "p2");
    let alone = vec![live_ask("p1", "0.0005", 800, 1000)];
    let result = service.submit_bid(&request("0.001", 1000, "1"), &alone, Some("100"), 1_000, 20);
    assert_eq!(result.unwrap_err(), MatchError::NoMatch);
    let healed = service
        .submit_bid(&request("0.001", 1000, "1"), &alone, Some("100"), 1_000, 30_010)
        .unwrap();
    assert_eq!(healed.chosen.provider_id, "p1");
}

#[test]
fn credit_debit_happens_once_and_a_second_bid_fails() {
    let mut service = MatcherService::new();
    let asks = vec![live_ask("p1", "0.0009", 800, 1000)];
    let outcome = service
        .submit_bid(&request("0.001", 1000, "30"), &asks, Some("100"), 1_000, 0)
        .unwrap();
    assert_eq!(outcome.debit.balance_after, Decimal::from_str("70.00000000").unwrap());
    assert_eq!(outcome.debit.transaction.amount, Decimal::from_str("30").unwrap());
    assert_eq!(outcome.debit.transaction.balance_after, Decimal::from_str("70").unwrap());
    assert_eq!(outcome.debit.transaction.provider_id, "p1");
    assert_eq!(outcome.debit.transaction.user_id, "alice");
    let appended = outcome
        .debit
        .commands
        .iter()
        .filter(|c| matches!(c, StoreCommand::AppendTransaction { .. }))
        .count();
    assert_eq!(appended, 1);
    assert_eq!(outcome.debit.commands.len(), 2);

    let stored = outcome.debit.balance_after.to_string();
    let second = service.submit_bid(
        &request("0.001", 1000, "80"),
        &asks,
        Some(stored.as_str()),
        1_000,
        0,
    );
    let error = second.unwrap_err();
    assert_eq!(error, MatchError::InsufficientCredits);
    assert_eq!(error.rpc_status(), RpcStatus::FailedPrecondition);
}

#[test]
fn no_match_comes_before_the_debit() {
    let mut service = MatcherService::new();
    let asks = vec![live_ask("p1", "0.0009", 800, 1000)];
    let result = service.submit_bid(&request("0.0001", 1000, "80"), &asks, Some("1"), 1_000, 0);
    assert_eq!(result.unwrap_err(), MatchError::NoMatch);
}

#[test]
fn the_selected_ask_matches_the_bid() {
    let mut service = MatcherService::new();
    let mut other_model = live_ask("m", "0.0001", 1, 1000);
    other_model.model = "gpt-3".to_string();
    let mut stale = live_ask("s", "0.0001", 1, 1000);
    stale.last_heartbeat = 0;
    let asks = vec![
        other_model,
        stale,
        live_ask("dear", "0.002", 1, 1000),
        live_ask("slow", "0.0001", 2_000, 1000),
        live_ask("fit", "0.001", 1_000, 1),
    ];
    let bid = plain_bid("0.001", 1_000, Some("1"));
    let outcome = service.match_bid(&bid, &asks, Some("5"), 1_000, 0).unwrap();
    assert_eq!(outcome.chosen.provider_id, "fit");
    assert!(outcome.chosen.matches(&bid, 1_000, 120));
    assert_eq!(outcome.chosen.model, bid.model);
    assert!(outcome.chosen.price.le(&bid.max_price));
    assert!(outcome.chosen.max_latency <= bid.max_latency);
    assert!(outcome.chosen.is_fresh(1_000, 120));
}

#[test]
fn a_bid_without_credits_is_charged_the_cost_of_the_chosen_ask() {
    let mut service = MatcherService::new();
    let mut ask = live_ask("p1", "0.0009", 800, 1000);
    ask.model = "gpt4".to_string();
    let mut bid_request = request("0.001", 1000, "");
    bid_request.model = "gpt4".to_string();
    bid_request.prompt = "x".repeat(100);
    let outcome = service.submit_bid(&bid_request, &vec![ask], Some("100"), 1_000, 0).unwrap();
    assert_eq!(outcome.debit.transaction.amount, Decimal::from_str("75").unwrap());
    assert_eq!(outcome.debit.balance_after, Decimal::from_str("25").unwrap());
}

#[test]
fn the_prompt_is_measured_in_bytes() {
    let mut service = MatcherService::new();
    let ask = live_ask("p1", "0.0009", 800, 1000);
    let mut bid = plain_bid("0.001", 1000, None);
    bid.prompt = "\u{00e9}\u{00e9}\u{00e9}\u{00e9}".to_string();
    let outcome = service.match_bid(&bid, &vec![ask], Some("100"), 1_000, 0).unwrap();
    assert_eq!(outcome.debit.transaction.amount, Decimal::from_str("3").unwrap());
}

#[test]
fn a_price_that_is_no_number_is_an_invalid_argument() {
    let mut service = MatcherService::new();
    let asks = vec![live_ask("p1", "0.0009", 800, 1000)];
    let result = service.submit_bid(&request("cheap", 1000, "1"), &asks, Some("100"), 1_000, 0);
    let error = result.unwrap_err();
    assert_eq!(error, MatchError::InvalidArgument);
    assert_eq!(error.rpc_status(), RpcStatus::InvalidArgument);
    assert_eq!(service.rate_limiter.get_status("p1", 0).remaining_tokens, 100);
}

#[test]
fn decoding_a_bid() {
    let bid = decode_bid(&request("0.001", 750, "2.5"), 77).unwrap();
    assert_eq!(bid.model, "gpt-4");
    assert_eq!(bid.prompt, "tell me a story");
    assert_eq!(bid.max_price, Decimal::from_str("0.001").unwrap());
    assert_eq!(bid.max_latency, 750);
    assert_eq!(bid.timestamp, 77);
    assert_eq!(bid.user_id, "alice");
    assert_eq!(bid.required_credits, Some(Decimal::from_str("2.5").unwrap()));
    let unnamed = decode_bid(&request("0.001", 750, "a lot"), 77).unwrap();
    assert_eq!(unnamed.required_credits, None);
}

#[test]
fn decoding_refuses_negative_credits_and_empty_users() {
    let negative = decode_bid(&request("0.001", 750, "-1"), 77);
    assert_eq!(negative.unwrap_err(), MatchError::InvalidArgument);
    let mut nobody = request("0.001", 750, "1");
    nobody.user_id = String::new();
    assert_eq!(decode_bid(&nobody, 77).unwrap_err(), MatchError::InvalidArgument);
    assert_eq!(decode_bid(&request("", 750, "1"), 77).unwrap_err(), MatchError::InvalidArgument);
}

#[test]
fn decoding_a_provider_status() {
    let status = ProviderStatusRequest {
        provider_id: "http://p1".to_string(),
        model: "gpt-4".to_string(),
        gpu_type: "h100".to_string(),
        price: "0.0009".to_string(),
        max_latency: 800,
        available_tokens: 5,
    };
    let ask = decode_ask(&status, 1234).unwrap();
    assert_eq!(ask.provider_id, "http://p1");
    assert_eq!(ask.model, "gpt-4");
    assert_eq!(ask.gpu_type, "h100");
    assert_eq!(ask.price.to_string(), "0.0009");
    assert_eq!(ask.max_latency, 800);
    assert_eq!(ask.available_tokens, 5);
    assert_eq!(ask.last_heartbeat, 1234);
}

#[test]
fn a_provider_status_needs_a_price_not_below_zero() {
    let mut status = ProviderStatusRequest {
        provider_id: "p1".to_string(),
        model: "gpt-4".to_string(),
        gpu_type: "h100".to_string(),
        price: "free".to_string(),
        max_latency: 800,
        available_tokens: 5,
    };
    assert_eq!(decode_ask(&status, 1).unwrap_err(), MatchError::InvalidArgument);
    status.price = "-0.01".to_string();
    assert_eq!(decode_ask(&status, 1).unwrap_err(), MatchError::InvalidArgument);
    status.price = "0".to_string();
    assert!(decode_ask(&status, 1).is_ok());
    let service = MatcherService::new();
    status.price = "nothing".to_string();
    assert_eq!(
        service.update_provider_status(&status, 1).unwrap_err(),
        MatchError::InvalidArgument
    );
}

#[test]
fn a_provider_status_becomes_three_writes() {
    let service = MatcherService::new();
    let status = ProviderStatusRequest {
        provider_id: "p1".to_string(),
        model: "gpt-4".to_string(),
        gpu_type: "h100".to_string(),
        price: "0.0009".to_string(),
        max_latency: 800,
        available_tokens: 5,
    };
    let commands = service.update_provider_status(&status, 99).unwrap();
    assert_eq!(commands.len(), 3);
    match &commands[0] {
        StoreCommand::PutAsk { key, ask } => {
            assert_eq!(key, "ask:p1:gpt-4");
            assert_eq!(ask.last_heartbeat, 99);
        }
        other => panic!("unexpected command {:?}", other),
    }
    assert!(matches!(&commands[1], StoreCommand::IndexPrice { key, .. } if key == "price:gpt-4:h100"));
    assert!(
        matches!(&commands[2], StoreCommand::IndexLatency { key, .. } if key == "latency:gpt-4:h100")
    );
    let ask = decode_ask(&status, 99).unwrap();
    assert_eq!(service.update_ask(&ask).len(), 3);
}

#[test]
fn the_rate_limiter_shuts_a_provider_out() {
    let mut service = MatcherService::new();
    let asks = vec![live_ask("p1", "0.0009", 800, 1000)];
    for _ in 0..100 {
        assert!(service.submit_bid(&request("0.001", 1000, "0"), &asks, None, 1_000, 0).is_ok());
    }
    let result = service.submit_bid(&request("0.001", 1000, "0"), &asks, None, 1_000, 0);
    assert_eq!(result.unwrap_err(), MatchError::NoMatch);
    assert!(service.submit_bid(&request("0.001", 1000, "0"), &asks, None, 1_000, 100).is_ok());
}

#[test]
fn a_token_is_taken_from_every_admitted_candidate() {
    let mut service = MatcherService::new();
    let asks = vec![live_ask("cheap", "0.0005", 800, 1000), live_ask("fast", "0.0008", 100, 1000)];
    let outcome = service
        .submit_bid(&request("0.001", 1000, "0"), &asks, None, 1_000, 0)
        .unwrap();
    assert_eq!(outcome.chosen.provider_id, "cheap");
    assert_eq!(service.get_rate_limit_status("cheap", 0).remaining_tokens, 99);
    assert_eq!(service.get_rate_limit_status("fast", 0).remaining_tokens, 99);
    assert_eq!(service.get_rate_limit_status("other", 0).remaining_tokens, 100);
}

#[test]
fn the_latency_router_shuts_a_slow_provider_out() {
    let mut service = MatcherService::new();
    for _ in 0..100 {
        service.latency_router.record_latency("p1", 5_000, 10);
    }
    let asks = vec![live_ask("p1", "0.0005", 800, 1000), live_ask("p2", "0.0008", 700, 1000)];
    let outcome = service
        .submit_bid(&request("0.001", 1000, "0"), &asks, None, 1_000, 20)
        .unwrap();
    assert_eq!(outcome.chosen.provider_id, "p2");
    let much_later = service
        .submit_bid(&request("0.001", 1000, "0"), &asks, None, 1_000, 400_000)
        .unwrap();
    assert_eq!(much_later.chosen.provider_id, "p1");
}

#[test]
fn a_dominated_ask_does_not_stand_in_for_a_refused_one() {
    let mut service = MatcherService::new();
    for at in [1, 2, 3] {
        service.circuit_breaker.record_failure("p1", at);
    }
    let asks = vec![live_ask("p1", "0.0005", 800, 1000), live_ask("p2", "0.0008", 900, 1000)];
    let result = service.submit_bid(&request("0.001", 1000, "0"), &asks, None, 1_000, 10);
    assert_eq!(result.unwrap_err(), MatchError::NoMatch);
}

#[test]
fn find_best_match_leaves_the_policies_aside() {
    let mut service = MatcherService::new();
    for at in [1, 2, 3] {
        service.circuit_breaker.record_failure("p1", at);
    }
    let asks = vec![live_ask("p1", "0.0005", 800, 1000), live_ask("p2", "0.0008", 900, 1000)];
    let best = service.find_best_match(&plain_bid("0.001", 1000, None), &asks, 1_000).unwrap();
    assert_eq!(best.provider_id, "p1");
    assert!(service.find_best_match(&plain_bid("0.0001", 1000, None), &asks, 1_000).is_none());
    assert!(service.find_best_match(&plain_bid("0.001", 1000, None), &asks, 2_000).is_none());
}

#[test]
fn service_credits_follow_the_ledger() {
    let service = MatcherService::new();
    assert!(service.verify_credits(Some("10"), &Decimal::from_str("10").unwrap()));
    assert!(!service.verify_credits(Some("10"), &Decimal::from_str("10.01").unwrap()));
    let debit = service
        .deduct_credits("u", Some("10"), &Decimal::from_str("4").unwrap(), "p", 5)
        .unwrap();
    assert_eq!(debit.balance_after, Decimal::from_str("6").unwrap());
}

#[test]
fn the_service_reports_circuit_and_latency() {
    let mut service = MatcherService::new();
    service.circuit_breaker.record_failure("p1", 500);
    let circuit = service.get_circuit_status("p1", 600);
    assert_eq!(circuit.failure_count, 1);
    assert_eq!(circuit.last_failure, 500);
    assert_eq!(circuit.reset_at, 30_500);
    let metrics = service.get_latency_metrics("p1", 60, 100);
    assert_eq!(metrics.p95_ms, 100);
    assert_eq!(metrics.window_start, 40);
    assert_eq!(metrics.window_end, 100);
}

#[test]
fn a_streamed_bid_comes_with_the_request_to_the_provider() {
    let mut service = MatcherService::new();
    let asks = vec![live_ask("http://p1/api/generate", "0.0009", 800, 1000)];
    let (outcome, call) = service
        .submit_bid_stream(&request("0.001", 1000, "30"), &asks, Some("100"), 1_000, 0)
        .unwrap();
    assert_eq!(outcome.chosen.provider_id, "http://p1/api/generate");
    assert_eq!(outcome.debit.balance_after, Decimal::from_str("70").unwrap());
    assert_eq!(call.endpoint, "http://p1/api/generate");
    assert_eq!(call.model, "gpt-4");
    assert_eq!(call.prompt, "tell me a story");
    assert_eq!(call.timeout, 10_000);
    let refused = service.submit_bid_stream(&request("0.001", 1000, "80"), &asks, Some("70"), 1_000, 0);
    assert_eq!(refused.unwrap_err(), MatchError::InsufficientCredits);
    let unread = service.submit_bid_stream(&request("?", 1000, "80"), &asks, Some("70"), 1_000, 0);
    assert_eq!(unread.unwrap_err(), MatchError::InvalidArgument);
}

#[test]
fn selecting_a_provider_debits_nothing() {
    let mut service = MatcherService::new();
    let asks = vec![live_ask("p1", "0.0009", 800, 1000), live_ask("p2", "0.0008", 900, 1000)];
    let bid = plain_bid("0.001", 1000, Some("1000000"));
    let chosen = service.select_provider(&bid, &asks, 1_000, 0).unwrap();
    assert_eq!(chosen.provider_id, "p2");
    let nothing = service.select_provider(&bid, &Vec::new(), 1_000, 0);
    assert_eq!(nothing.unwrap_err(), MatchError::NoMatch);
}

#[test]
fn the_charge_is_what_the_bid_names_or_the_cost() {
    let ask = live_ask("p1", "0.0009", 800, 1000);
    let named = plain_bid("0.001", 1000, Some("2.5"));
    assert_eq!(matcher::service::charge_for(&named, &ask).to_string(), "2.5");
    let mut unnamed = plain_bid("0.001", 1000, None);
    unnamed.prompt = "12345678".to_string();
    assert_eq!(matcher::service::charge_for(&unnamed, &ask).to_string(), "3.0");
}

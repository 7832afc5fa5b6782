//! The wallet gate, usage events and admission.

use std::collections::BTreeMap;

use gemma4_serving::flexprice::balance::{
    assess_wallets, is_truthy, lookup_answered, settle, status_to_cache, BalanceChecker,
    BalanceStatus, CheckAnswer, FlexPriceConfig, Wallet, WalletError, WalletMetadata,
    WalletVerdict,
};
use gemma4_serving::flexprice::client::{
    after_attempt, queue_size, DeliveryStep, EventWorker, FlexPriceClient, Offered,
    DEFAULT_QUEUE_SIZE, MAX_ATTEMPTS,
};
use gemma4_serving::flexprice::middleware::{credentials, gate, AuthContext, Gate, OrgUuid};

fn checker() -> BalanceChecker {
    BalanceChecker::from_wallets_url(
        "http://localhost/customers/wallets".to_string(),
        "test-key".to_string(),
    )
}

fn text(s: &str) -> Option<String> {
    Some(s.to_string())
}

fn wallet(balance: Option<&str>, is_kyc: Option<&str>, is_suspended: Option<&str>) -> Wallet {
    Wallet {
        real_time_balance: None,
        balance: balance.map(|s| s.to_string()),
        metadata: WalletMetadata {
            is_kyc: is_kyc.map(|s| s.to_string()),
            is_suspended: is_suspended.map(|s| s.to_string()),
        },
    }
}

/// The status to cache after a lookup that found these wallets, for a minimum
/// balance of zero.
fn looked_up(status: u16, wallets: Vec<Wallet>) -> BalanceStatus {
    let outcome = match lookup_answered(status) {
        Err(error) => Err(error),
        Ok(()) => match assess_wallets(&wallets) {
            Err(error) => Err(error),
            Ok(verdict) => {
                let reaches = match &verdict {
                    WalletVerdict::Compare(balance) => {
                        balance.parse::<f64>().ok().map(|b| b >= 0.0)
                    }
                    WalletVerdict::Decided(_) => None,
                };
                settle(&verdict, reaches)
            }
        },
    };
    status_to_cache(outcome)
}

#[test]
fn cold_cache_fails_open_immediately_regardless_of_real_balance() {
    let mut checker = checker();
    let answer = checker.check("org-1", None);
    assert_eq!(answer.status, BalanceStatus::Allowed);
    assert!(answer.refresh);
}

#[test]
fn postpaid_org_is_allowed_with_negative_balance() {
    let wallets = vec![wallet(Some("-50.00"), Some("true"), None)];
    assert_eq!(looked_up(200, wallets), BalanceStatus::Allowed);
}

#[test]
fn prepaid_org_with_negative_balance_is_blocked_once_cache_populates() {
    let mut checker = checker();
    assert!(checker.check("org-1", None).refresh);
    let cached = looked_up(200, vec![wallet(Some("-1.00"), None, None)]);
    checker.finish_refresh("org-1");
    assert_eq!(cached, BalanceStatus::InsufficientBalance);
    assert_eq!(checker.check("org-1", Some(cached)).status, BalanceStatus::InsufficientBalance);
}

#[test]
fn prepaid_org_with_positive_balance_is_allowed() {
    let wallets = vec![wallet(Some("10.00"), None, None)];
    assert_eq!(looked_up(200, wallets), BalanceStatus::Allowed);
}

#[test]
fn suspended_org_is_blocked_once_cache_populates() {
    let wallets = vec![wallet(Some("100.00"), Some("true"), Some("true"))];
    assert_eq!(looked_up(200, wallets), BalanceStatus::Suspended);
}

#[test]
fn flexprice_api_error_fails_open() {
    assert_eq!(lookup_answered(404), Err(WalletError::Status(404)));
    assert_eq!(looked_up(404, vec![]), BalanceStatus::Allowed);
}

#[test]
fn result_is_cached_and_not_refetched() {
    let mut checker = checker();
    let mut fetches = 0;
    if checker.check("org-1", None).refresh {
        fetches += 1;
    }
    let cached = looked_up(200, vec![wallet(Some("10.00"), None, None)]);
    checker.finish_refresh("org-1");
    let answer = checker.check("org-1", Some(cached));
    if answer.refresh {
        fetches += 1;
    }
    assert_eq!(answer.status, BalanceStatus::Allowed);
    assert_eq!(fetches, 1);
}

#[test]
fn concurrent_misses_for_the_same_org_dedupe_to_one_fetch() {
    let mut checker = checker();
    let a = checker.check("org-1", None);
    let b = checker.check("org-1", None);
    let c = checker.check("org-1", None);
    assert_eq!(
        (a.status, b.status, c.status),
        (BalanceStatus::Allowed, BalanceStatus::Allowed, BalanceStatus::Allowed)
    );
    assert_eq!((a.refresh, b.refresh, c.refresh), (true, false, false));
}

#[test]
fn lookups_are_counted_per_org() {
    let mut checker = checker();
    assert!(checker.check("org-1", None).refresh);
    assert!(checker.check("org-2", None).refresh);
    checker.finish_refresh("org-1");
    assert!(!checker.check("org-2", None).refresh);
    assert_eq!(
        checker.check("org-1", None),
        CheckAnswer { status: BalanceStatus::Allowed, refresh: true }
    );
    // A lookup that is not under way can be over, too.
    checker.finish_refresh("org-3");
    assert!(checker.check("org-3", None).refresh);
}

#[test]
fn wallets_are_looked_up_over_https() {
    let config =
        FlexPriceConfig { api_host: "api.example".to_string(), api_key: "key".to_string() };
    let checker = BalanceChecker::new(&config);
    assert_eq!(checker.wallets_url(), "https://api.example/customers/wallets");
    assert_eq!(checker.api_key(), "key");
}

#[test]
fn truth_in_any_case() {
    assert!(is_truthy(&text("true")));
    assert!(is_truthy(&text("TrUe")));
    assert!(!is_truthy(&text("yes")));
    assert!(!is_truthy(&text("truE ")));
    assert!(!is_truthy(&None));
}

#[test]
fn first_wallet_counts() {
    let wallets = vec![wallet(Some("1"), None, None), wallet(None, None, Some("true"))];
    assert_eq!(assess_wallets(&wallets), Ok(WalletVerdict::Compare("1".to_string())));
}

#[test]
fn real_time_balance_wins_unless_empty() {
    let mut w = wallet(Some("1"), None, None);
    w.real_time_balance = text("2");
    assert_eq!(assess_wallets(&vec![w]), Ok(WalletVerdict::Compare("2".to_string())));
    let mut w = wallet(Some("1"), None, None);
    w.real_time_balance = text("");
    assert_eq!(assess_wallets(&vec![w]), Ok(WalletVerdict::Compare("1".to_string())));
    let mut w = wallet(None, None, None);
    w.real_time_balance = text("");
    assert_eq!(assess_wallets(&vec![w]), Err(WalletError::MissingBalance));
}

#[test]
fn lookups_without_a_verdict_fail_open() {
    assert_eq!(assess_wallets(&vec![]), Err(WalletError::NoWallet));
    assert_eq!(looked_up(200, vec![]), BalanceStatus::Allowed);
    assert_eq!(
        settle(&WalletVerdict::Compare("x".to_string()), None),
        Err(WalletError::UnreadableBalance)
    );
    assert_eq!(looked_up(200, vec![wallet(Some("x"), None, None)]), BalanceStatus::Allowed);
}

fn properties() -> BTreeMap<String, String> {
    let mut properties = BTreeMap::new();
    properties.insert("model_id".to_string(), "test-model".to_string());
    properties
}

fn enqueue(client: &mut FlexPriceClient) -> Offered {
    client.enqueue(
        "test-event".to_string(),
        "org-1".to_string(),
        properties(),
        "test-model".to_string(),
    )
}

#[test]
fn enqueue_does_not_panic_without_a_reachable_endpoint() {
    let (mut client, _worker) = FlexPriceClient::new("localhost:1", "test-key", 4500);
    assert!(matches!(enqueue(&mut client), Offered::Queued));
}

fn deliver(answers: &[Option<u16>]) -> (bool, usize) {
    let mut attempt = 1;
    loop {
        match after_attempt(attempt, answers[(attempt - 1) as usize]) {
            DeliveryStep::Delivered => return (true, attempt as usize),
            DeliveryStep::GiveUp => return (false, attempt as usize),
            DeliveryStep::RetryAfter(_) => attempt += 1,
        }
    }
}

#[test]
fn transient_failure_is_retried_not_dropped() {
    assert_eq!(deliver(&[Some(500), Some(500), Some(200)]), (true, 3));
}

#[test]
fn gives_up_after_max_attempts() {
    assert_eq!(deliver(&[Some(500), Some(500), Some(500)]), (false, MAX_ATTEMPTS as usize));
}

#[test]
fn connection_errors_are_retried_with_growing_delays() {
    assert_eq!(after_attempt(1, None), DeliveryStep::RetryAfter(200));
    assert_eq!(after_attempt(2, Some(400)), DeliveryStep::RetryAfter(400));
    assert_eq!(after_attempt(3, None), DeliveryStep::GiveUp);
    assert_eq!(after_attempt(3, Some(204)), DeliveryStep::Delivered);
    assert_eq!(after_attempt(1, Some(300)), DeliveryStep::RetryAfter(200));
    assert_eq!(deliver(&[None, Some(299)]), (true, 2));
}

#[test]
fn events_reach_the_worker() {
    let (mut client, worker) = FlexPriceClient::new("api.example", "key", 2);
    let EventWorker { events_url, api_key, mut events } = worker;
    assert_eq!(events_url, "https://api.example/events");
    assert_eq!(api_key, "key");
    assert_eq!(events.max_capacity(), 2);
    assert!(matches!(enqueue(&mut client), Offered::Queued));
    assert!(matches!(enqueue(&mut client), Offered::Queued));
    let event = events.try_recv().expect("an event");
    assert_eq!(event.event_name, "test-event");
    assert_eq!(event.external_customer_id, "org-1");
    assert_eq!(event.properties, properties());
    assert_eq!(event.source, "test-model");
    let next = events.try_recv().expect("an event");
    assert_ne!(event.event_id, next.event_id);
}

#[test]
fn events_carry_an_id_and_a_time() {
    let (mut client, worker) = FlexPriceClient::new("api.example", "key", 1);
    let mut events = worker.events;
    enqueue(&mut client);
    let event = events.try_recv().expect("an event");
    let id: Vec<char> = event.event_id.chars().collect();
    assert_eq!(id.len(), 36);
    for (i, c) in id.iter().enumerate() {
        if [8, 13, 18, 23].contains(&i) {
            assert_eq!(*c, '-');
        } else {
            assert!(c.is_ascii_digit() || ('a'..='f').contains(c));
        }
    }
    assert_eq!(id[14], '4');
    assert!(['8', '9', 'a', 'b'].contains(&id[19]));

    let time: Vec<char> = event.timestamp.chars().collect();
    assert_eq!(time.len(), 20);
    for (i, c) in time.iter().enumerate() {
        match i {
            4 | 7 => assert_eq!(*c, '-'),
            10 => assert_eq!(*c, 'T'),
            13 | 16 => assert_eq!(*c, ':'),
            19 => assert_eq!(*c, 'Z'),
            _ => assert!(c.is_ascii_digit()),
        }
    }
    assert!(event.timestamp.as_str() > "2024-01-01T00:00:00Z");
}

#[test]
fn full_queue_hands_the_event_back() {
    let (mut client, _worker) = FlexPriceClient::new("api.example", "key", 1);
    assert!(matches!(enqueue(&mut client), Offered::Queued));
    match enqueue(&mut client) {
        Offered::Full(event) => assert_eq!(event.event_name, "test-event"),
        other => panic!("{other:?}"),
    }
}

#[test]
fn missing_worker_hands_the_event_back() {
    let (mut client, worker) = FlexPriceClient::new("api.example", "key", 1);
    drop(worker);
    match enqueue(&mut client) {
        Offered::Closed(event) => assert_eq!(event.source, "test-model"),
        other => panic!("{other:?}"),
    }
}

#[test]
fn queue_size_is_configurable() {
    assert_eq!(queue_size(None), DEFAULT_QUEUE_SIZE);
    assert_eq!(DEFAULT_QUEUE_SIZE, 4500);
    for s in [
        "12", "+12", "007", "0", "", "+", "-1", "++1", " 1", "1 ", "1_0", "x", "1x", "\u{661}",
        "18446744073709551615", "18446744073709551616", "99999999999999999999999",
    ] {
        assert_eq!(queue_size(Some(s)), s.parse::<usize>().unwrap_or(4500), "{s}");
    }
}

#[test]
fn unreadable_credentials_are_empty() {
    assert_eq!(credentials(Some("Bearer x")), "Bearer x");
    assert_eq!(credentials(None), "");
}

#[test]
fn only_authenticated_requests_pass() {
    let context = AuthContext { org_uuid: "org-1".to_string() };
    match gate::<u16>(Ok(context)) {
        Gate::Admit(OrgUuid(org)) => assert_eq!(org, "org-1"),
        Gate::Refuse(_) => panic!("refused"),
    }
    match gate::<u16>(Err(401)) {
        Gate::Admit(_) => panic!("admitted"),
        Gate::Refuse(error) => assert_eq!(error, 401),
    }
}

//! Metrics for the relay.

use gemma4_serving::json::{field, object, string, Json};
use gemma4_serving::relay_metrics::{
    after_post, payload, plan, relay_config, resolve_deployment, Measure, PlannedMetric, PostStep,
    RelayConfig, RelayOnce, Span,
};

fn config(slug: Option<&str>, namespace: Option<&str>) -> RelayConfig {
    relay_config(Some("http://relay"), None, slug, namespace).expect("a relay")
}

#[test]
fn no_relay_without_an_address() {
    assert!(relay_config(None, None, None, None).is_none());
    assert!(relay_config(Some(""), None, None, None).is_none());
    assert!(relay_config(Some(" \t/// "), None, None, None).is_none());
}

#[test]
fn address_is_trimmed() {
    let c = relay_config(Some("  http://relay:80// \n"), None, Some(" slug "), Some("  "));
    let c = c.expect("a relay");
    assert_eq!(c.url, "http://relay:80/custom-metric");
    assert_eq!(c.deployment_slug, Some("slug".to_string()));
    assert_eq!(c.namespace, None);
    assert!(!c.skip_tls_verify);
}

#[test]
fn first_settings_stay() {
    let mut relay = RelayOnce::new();
    assert!(!relay.is_read());
    let url = |c: Option<&RelayConfig>| c.map(|c| c.url.clone());
    assert_eq!(url(relay.get(Some("a"), None, None, None)), Some("a/custom-metric".to_string()));
    assert!(relay.is_read());
    assert_eq!(url(relay.get(Some("b"), None, None, None)), Some("a/custom-metric".to_string()));
    assert_eq!(url(relay.get(None, None, None, None)), Some("a/custom-metric".to_string()));

    let mut relay = RelayOnce::new();
    assert!(relay.get(None, None, None, None).is_none());
    assert!(relay.get(Some("b"), None, None, None).is_none());
}

#[test]
fn certificates_are_verified_unless_asked() {
    for (value, skip) in
        [("1", true), (" true ", true), ("yes", true), ("True", false), ("0", false), ("", false)]
    {
        let c = relay_config(Some("r"), Some(value), None, None).expect("a relay");
        assert_eq!(c.skip_tls_verify, skip, "{value}");
    }
}

#[test]
fn deployment_falls_back() {
    assert_eq!(resolve_deployment("m", &config(Some("s"), Some("n"))), "m");
    assert_eq!(resolve_deployment("", &config(Some("s"), Some("n"))), "s");
    assert_eq!(resolve_deployment("", &config(None, Some("n"))), "n");
    assert_eq!(resolve_deployment("", &config(None, None)), "unknown");
}

fn metric(measure: Measure, tokens: usize, span: Span) -> PlannedMetric {
    PlannedMetric { measure, tokens, span }
}

#[test]
fn streamed_requests_are_split_at_the_first_token() {
    assert_eq!(
        plan(true, 10, 5),
        vec![
            metric(Measure::Ttft, 0, Span::UntilFirstToken),
            metric(Measure::InputThroughput, 10, Span::UntilFirstToken),
            metric(Measure::OutputThroughput, 5, Span::AfterFirstToken),
            metric(Measure::TotalThroughput, 15, Span::Whole),
        ]
    );
}

#[test]
fn other_requests_are_taken_whole() {
    assert_eq!(
        plan(false, 0, 5),
        vec![
            metric(Measure::Ttft, 0, Span::Whole),
            metric(Measure::OutputThroughput, 5, Span::Whole),
            metric(Measure::TotalThroughput, 5, Span::Whole),
        ]
    );
}

#[test]
fn nothing_is_reported_without_output() {
    assert_eq!(plan(true, 10, 0), vec![]);
}

#[test]
fn reports_name_the_metric() {
    assert_eq!(
        payload(Measure::InputThroughput, "gemma4", 42, true),
        object(vec![
            field("metric_type", string("input_throughput")),
            field("deployment", string("gemma4")),
            field("key", string("dynamo_frontend_input_throughput")),
            field("value", Json::UInt(42)),
            field("metadata", object(vec![field("streaming", Json::Bool(true))])),
        ])
    );
    assert_eq!(Measure::Ttft.name(), "ttft");
    assert_eq!(Measure::OutputThroughput.name(), "output_throughput");
    assert_eq!(Measure::TotalThroughput.name(), "total_throughput");
}

#[test]
fn posts_are_retried_with_growing_delays() {
    assert_eq!(after_post(0, None), PostStep::RetryAfter(100));
    assert_eq!(after_post(1, Some(500)), PostStep::RetryAfter(300));
    assert_eq!(after_post(2, Some(599)), PostStep::RetryAfter(900));
    assert_eq!(after_post(3, Some(503)), PostStep::GiveUp);
    assert_eq!(after_post(3, None), PostStep::GiveUp);
}

#[test]
fn other_answers_end_the_posting() {
    assert_eq!(after_post(0, Some(200)), PostStep::Accepted);
    assert_eq!(after_post(3, Some(302)), PostStep::Accepted);
    assert_eq!(after_post(0, Some(404)), PostStep::Refused);
    assert_eq!(after_post(0, Some(600)), PostStep::Accepted);
}

fn posts(answers: &[Option<u16>]) -> (bool, usize) {
    let mut retries = 0;
    loop {
        match after_post(retries, answers[retries as usize]) {
            PostStep::Accepted | PostStep::Refused => return (true, retries as usize + 1),
            PostStep::GiveUp => return (false, retries as usize + 1),
            PostStep::RetryAfter(_) => retries += 1,
        }
    }
}

#[test]
fn given_up_after_four_posts() {
    assert_eq!(posts(&[None, Some(500), None, Some(502)]), (false, 4));
    assert_eq!(posts(&[None, Some(500), None, Some(200)]), (true, 4));
    assert_eq!(posts(&[Some(400)]), (true, 1));
}

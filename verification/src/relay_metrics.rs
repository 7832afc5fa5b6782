//! Metrics for the relay service.
//!
//! Where a relay is configured, a request that produced output is reported with
//! its time to the first token and its throughputs, each with a `streaming`
//! label. A report is posted again after connection errors and server errors, up
//! to [`MAX_RETRIES`] times.

use vstd::prelude::*;
use vstd::string::*;

use crate::http_status;
use crate::json::{field, object, string, Json, JsonView};
use crate::text;

verus! {

/// How many times a report is posted again.
pub const MAX_RETRIES: u32 = 3;

/// How long one post may take, in seconds.
pub const POST_TIMEOUT_SECS: u64 = 2;

/// How long to wait before retry number `retry`, counted from one, in
/// milliseconds.
pub open spec fn retry_delay_ms(retry: u32) -> u64 {
    if retry <= 1 {
        100
    } else if retry == 2 {
        300
    } else {
        900
    }
}

/// Where metrics go and what they are reported under.
#[derive(Debug)]
pub struct RelayConfig {
    pub url: String,
    pub skip_tls_verify: bool,
    pub deployment_slug: Option<String>,
    pub namespace: Option<String>,
}

/// `s` without the slashes at its end.
pub open spec fn without_slashes(s: Seq<char>) -> Seq<char>
    decreases s.len(),
{
    if s.len() > 0 && s.last() == '/' {
        without_slashes(s.drop_last())
    } else {
        s
    }
}

/// `s` without the slashes at its end.
fn trim_slashes<'a>(s: &'a str) -> (r: &'a str)
    ensures
        r@ == without_slashes(s@),
{
    let chars: Vec<char> = text::chars_of(s);
    let mut n: usize = chars.len();
    assert(s@.take(n as int) =~= s@);
    while n > 0 && chars[n - 1] == '/'
        invariant
            chars@ == s@,
            n <= s@.len(),
            without_slashes(s@) == without_slashes(s@.take(n as int)),
        decreases n,
    {
        assert(s@.take(n as int).drop_last() =~= s@.take(n - 1));
        n -= 1;
    }
    assert(s@.subrange(0, n as int) =~= s@.take(n as int));
    text::take(s, n)
}

/// The address that the setting `addr` gives.
pub open spec fn relay_addr(addr: Seq<char>) -> Seq<char> {
    without_slashes(text::trim(addr))
}

/// The setting `value` asks to skip the verification of certificates.
pub open spec fn asks_to_skip(value: Option<Seq<char>>) -> bool {
    value is Some && {
        let v = text::trim(value->0);
        v == "1"@ || v == "true"@ || v == "yes"@
    }
}

/// The setting `value` without white space around it, unless that leaves
/// nothing.
pub open spec fn setting(value: Option<Seq<char>>) -> Option<Seq<char>> {
    match value {
        Some(s) => text::non_empty(text::trim(s)),
        None => None,
    }
}

/// What a borrowed text says, if there is one.
pub open spec fn str_view(s: Option<&str>) -> Option<Seq<char>> {
    match s {
        Some(s) => Some(s@),
        None => None,
    }
}

fn read_setting(value: Option<&str>) -> (r: Option<String>)
    ensures
        text::opt_view(r) == setting(str_view(value)),
{
    match value {
        Some(s) => text::some_if_non_empty(text::trimmed(s)),
        None => None,
    }
}

/// `config` is the relay that the settings give, if any.
pub open spec fn is_relay(
    config: Option<RelayConfig>,
    addr: Option<Seq<char>>,
    skip_tls_verify: Option<Seq<char>>,
    deployment_slug: Option<Seq<char>>,
    namespace: Option<Seq<char>>,
) -> bool {
    &&& config is Some <==> addr is Some && relay_addr(addr->0).len() > 0
    &&& config matches Some(c) ==> {
        &&& c.url@ == relay_addr(addr->0) + "/custom-metric"@
        &&& c.skip_tls_verify == asks_to_skip(skip_tls_verify)
        &&& text::opt_view(c.deployment_slug) == setting(deployment_slug)
        &&& text::opt_view(c.namespace) == setting(namespace)
    }
}

/// The relay that the settings give. There is one exactly where its address is
/// given and more than white space and slashes.
pub fn relay_config(
    addr: Option<&str>,
    skip_tls_verify: Option<&str>,
    deployment_slug: Option<&str>,
    namespace: Option<&str>,
) -> (r: Option<RelayConfig>)
    ensures
        is_relay(
            r,
            str_view(addr),
            str_view(skip_tls_verify),
            str_view(deployment_slug),
            str_view(namespace),
        ),
{
    match addr {
        None => None,
        Some(a) => {
            let base: &str = trim_slashes(text::trimmed(a));
            if base.is_empty() {
                return None;
            }
            let skip: bool = match skip_tls_verify {
                Some(value) => {
                    let v: &str = text::trimmed(value);
                    text::same(v, "1") || text::same(v, "true") || text::same(v, "yes")
                },
                None => false,
            };
            Some(
                RelayConfig {
                    url: text::concat(base, "/custom-metric"),
                    skip_tls_verify: skip,
                    deployment_slug: read_setting(deployment_slug),
                    namespace: read_setting(namespace),
                },
            )
        },
    }
}

/// A relay that is read from the settings once and then stays.
pub struct RelayOnce {
    first: Option<Option<RelayConfig>>,
}

impl View for RelayOnce {
    type V = Option<Option<RelayConfig>>;

    /// What was read, once something was.
    closed spec fn view(&self) -> Option<Option<RelayConfig>> {
        self.first
    }
}

impl RelayOnce {
    /// A relay that was not read yet.
    pub fn new() -> (r: RelayOnce)
        ensures
            r@ is None,
    {
        RelayOnce { first: None }
    }

    /// Whether the settings were read.
    pub fn is_read(&self) -> (r: bool)
        ensures
            r == (self@ is Some),
    {
        self.first.is_some()
    }

    /// The relay. The first call reads it from the settings; later ones return the
    /// same, whatever the settings are by that time.
    pub fn get(
        &mut self,
        addr: Option<&str>,
        skip_tls_verify: Option<&str>,
        deployment_slug: Option<&str>,
        namespace: Option<&str>,
    ) -> (r: Option<&RelayConfig>)
        ensures
            final(self)@ is Some,
            old(self)@ is Some ==> final(self)@ == old(self)@,
            old(self)@ is None ==> is_relay(
                final(self)@->0,
                str_view(addr),
                str_view(skip_tls_verify),
                str_view(deployment_slug),
                str_view(namespace),
            ),
            match r {
                Some(config) => final(self)@->0 == Some(*config),
                None => final(self)@->0 is None,
            },
    {
        if self.first.is_none() {
            self.first = Some(relay_config(addr, skip_tls_verify, deployment_slug, namespace));
        }
        match &self.first {
            Some(Some(config)) => Some(config),
            _ => None,
        }
    }
}

/// What a metric of `model` is reported under: the model if it is named, or else
/// the deployment, the namespace or `unknown`.
pub open spec fn deployment(model: Seq<char>, relay: RelayConfig) -> Seq<char> {
    if model.len() > 0 {
        model
    } else if relay.deployment_slug is Some {
        relay.deployment_slug->0@
    } else if relay.namespace is Some {
        relay.namespace->0@
    } else {
        "unknown"@
    }
}

/// What a metric of `model` is reported under.
pub fn resolve_deployment<'a>(model: &'a str, relay: &'a RelayConfig) -> (r: &'a str)
    ensures
        r@ == deployment(model@, *relay),
{
    if !model.is_empty() {
        return model;
    }
    if let Some(s) = &relay.deployment_slug {
        return s.as_str();
    }
    if let Some(ns) = &relay.namespace {
        return ns.as_str();
    }
    "unknown"
}

/// What a metric measures.
#[derive(Debug, Clone, Copy, PartialEq, Eq, Structural)]
pub enum Measure {
    /// The time to the first token, in milliseconds.
    Ttft,
    InputThroughput,
    OutputThroughput,
    TotalThroughput,
}

/// A part of the duration of a request.
#[derive(Debug, Clone, Copy, PartialEq, Eq, Structural)]
pub enum Span {
    /// Up to the first token.
    UntilFirstToken,
    /// From the first token on.
    AfterFirstToken,
    Whole,
}

/// A metric to report: the time `span` itself, or `tokens` per second of it.
#[derive(Debug, Clone, Copy, PartialEq, Eq, Structural)]
pub struct PlannedMetric {
    pub measure: Measure,
    pub tokens: usize,
    pub span: Span,
}

/// The metrics to report of a request with `isl` tokens of input and `osl` tokens
/// of output. Without streaming the first token comes with the whole answer.
pub open spec fn metric_plan(streaming: bool, isl: usize, osl: usize) -> Seq<PlannedMetric> {
    let first = if streaming {
        Span::UntilFirstToken
    } else {
        Span::Whole
    };
    let rest = if streaming {
        Span::AfterFirstToken
    } else {
        Span::Whole
    };
    let ttft = PlannedMetric { measure: Measure::Ttft, tokens: 0, span: first };
    let input = PlannedMetric { measure: Measure::InputThroughput, tokens: isl, span: first };
    let output = PlannedMetric { measure: Measure::OutputThroughput, tokens: osl, span: rest };
    let total = PlannedMetric {
        measure: Measure::TotalThroughput,
        tokens: (isl + osl) as usize,
        span: Span::Whole,
    };
    if osl == 0 {
        seq![]
    } else if isl > 0 {
        seq![ttft, input, output, total]
    } else {
        seq![ttft, output, total]
    }
}

/// The metrics to report of a request with `isl` tokens of input and `osl` tokens
/// of output.
pub fn plan(streaming: bool, isl: usize, osl: usize) -> (r: Vec<PlannedMetric>)
    requires
        isl + osl <= usize::MAX,
    ensures
        r@ == metric_plan(streaming, isl, osl),
{
    if osl == 0 {
        return Vec::new();
    }
    let first: Span = if streaming {
        Span::UntilFirstToken
    } else {
        Span::Whole
    };
    let rest: Span = if streaming {
        Span::AfterFirstToken
    } else {
        Span::Whole
    };
    let mut metrics: Vec<PlannedMetric> = Vec::new();
    metrics.push(PlannedMetric { measure: Measure::Ttft, tokens: 0, span: first });
    if isl > 0 {
        metrics.push(PlannedMetric { measure: Measure::InputThroughput, tokens: isl, span: first });
    }
    metrics.push(PlannedMetric { measure: Measure::OutputThroughput, tokens: osl, span: rest });
    metrics.push(
        PlannedMetric { measure: Measure::TotalThroughput, tokens: isl + osl, span: Span::Whole },
    );
    metrics
}

/// The name that `measure` is reported by.
pub open spec fn measure_name(measure: Measure) -> Seq<char> {
    match measure {
        Measure::Ttft => "ttft"@,
        Measure::InputThroughput => "input_throughput"@,
        Measure::OutputThroughput => "output_throughput"@,
        Measure::TotalThroughput => "total_throughput"@,
    }
}

impl Measure {
    /// The name that this is reported by.
    pub fn name(&self) -> (r: &'static str)
        ensures
            r@ == measure_name(*self),
    {
        match self {
            Measure::Ttft => "ttft",
            Measure::InputThroughput => "input_throughput",
            Measure::OutputThroughput => "output_throughput",
            Measure::TotalThroughput => "total_throughput",
        }
    }
}

/// The report of a metric.
pub open spec fn report(
    measure: Measure,
    deployment: Seq<char>,
    value: u64,
    streaming: bool,
) -> JsonView {
    JsonView::Object(
        seq![
            ("metric_type"@, JsonView::Str(measure_name(measure))),
            ("deployment"@, JsonView::Str(deployment)),
            ("key"@, JsonView::Str("dynamo_frontend_"@ + measure_name(measure))),
            ("value"@, JsonView::UInt(value)),
            (
                "metadata"@,
                JsonView::Object(seq![("streaming"@, JsonView::Bool(streaming))]),
            ),
        ],
    )
}

/// The report of a metric.
pub fn payload(measure: Measure, deployment: &str, value: u64, streaming: bool) -> (r: Json)
    ensures
        r@ == report(measure, deployment@, value, streaming),
{
    let name: &'static str = measure.name();
    let metadata: Json = object(vec![field("streaming", Json::Bool(streaming))]);
    assert(metadata@->Object_0 =~= seq![("streaming"@, JsonView::Bool(streaming))]);
    let r: Json = object(
        vec![
            field("metric_type", string(name)),
            field("deployment", string(deployment)),
            field("key", Json::Str(text::concat("dynamo_frontend_", name))),
            field("value", Json::UInt(value)),
            field("metadata", metadata),
        ],
    );
    assert(r@->Object_0 =~= report(measure, deployment@, value, streaming)->Object_0);
    r
}

/// What to do after a report was posted.
#[derive(Debug, Clone, Copy, PartialEq, Eq, Structural)]
pub enum PostStep {
    /// The relay has taken the report.
    Accepted,
    /// The relay refuses the report for good.
    Refused,
    /// Wait for so many milliseconds and post it again.
    RetryAfter(u64),
    /// Drop the report.
    GiveUp,
}

/// What to do after a report was posted, after `retries` retries, and answered
/// with the HTTP status `status`, or not at all.
pub open spec fn post_step(retries: u32, status: Option<u16>) -> PostStep {
    if post_fails(status) {
        if retries >= MAX_RETRIES {
            PostStep::GiveUp
        } else {
            PostStep::RetryAfter(retry_delay_ms((retries + 1) as u32))
        }
    } else if http_status::client_error(status->0) {
        PostStep::Refused
    } else {
        PostStep::Accepted
    }
}

/// A post that is answered with `status` is to be repeated.
pub open spec fn post_fails(status: Option<u16>) -> bool {
    status is None || http_status::server_error(status->0)
}

/// What to do after a report was posted, after `retries` retries, and answered
/// with the HTTP status `status`, or not at all.
pub fn after_post(retries: u32, status: Option<u16>) -> (r: PostStep)
    ensures
        r == post_step(retries, status),
{
    if let Some(code) = status {
        if !http_status::is_server_error(code) {
            return if http_status::is_client_error(code) {
                PostStep::Refused
            } else {
                PostStep::Accepted
            };
        }
    }
    if retries >= MAX_RETRIES {
        PostStep::GiveUp
    } else if retries == 0 {
        PostStep::RetryAfter(100)
    } else if retries == 1 {
        PostStep::RetryAfter(300)
    } else {
        PostStep::RetryAfter(900)
    }
}

/// How many posts are made of a report whose posts get `answers`, from the one
/// after `retries` retries on, and whether the last of them was answered for
/// good.
pub open spec fn posting(answers: Seq<Option<u16>>, retries: u32) -> (bool, nat)
    decreases MAX_RETRIES - retries,
{
    match post_step(retries, answers[retries as int]) {
        PostStep::Accepted => (true, (retries + 1) as nat),
        PostStep::Refused => (true, (retries + 1) as nat),
        PostStep::GiveUp => (false, (retries + 1) as nat),
        PostStep::RetryAfter(_) => posting(answers, (retries + 1) as u32),
    }
}

/// A report is given up only after its first post and all retries have failed. The
/// first answer that is no server error ends the posting.
pub proof fn law_given_up_only_after_all_retries(answers: Seq<Option<u16>>)
    requires
        answers.len() > MAX_RETRIES,
    ensures
        posting(answers, 0).0 == exists|i: int|
            0 <= i <= MAX_RETRIES && !post_fails(#[trigger] answers[i]),
        1 <= posting(answers, 0).1 <= MAX_RETRIES + 1,
        posting(answers, 0).0 ==> !post_fails(answers[posting(answers, 0).1 - 1]),
        !posting(answers, 0).0 ==> posting(answers, 0).1 == MAX_RETRIES + 1,
        forall|i: int| 0 <= i < posting(answers, 0).1 - 1 ==> post_fails(#[trigger] answers[i]),
{
    reveal_with_fuel(posting, 5);
    assert(post_fails(answers[0]) || !post_fails(answers[0]));
    assert(post_fails(answers[1]) || !post_fails(answers[1]));
    assert(post_fails(answers[2]) || !post_fails(answers[2]));
    assert(post_fails(answers[3]) || !post_fails(answers[3]));
}

/// Nothing is reported of a request without output, and every other request is
/// reported with its time to the first token, its output and its total.
pub proof fn law_reported_iff_output(streaming: bool, isl: usize, osl: usize)
    requires
        isl + osl <= usize::MAX,
    ensures
        osl == 0 <==> metric_plan(streaming, isl, osl).len() == 0,
        osl > 0 ==> {
            let plan = metric_plan(streaming, isl, osl);
            &&& plan.first().measure == Measure::Ttft
            &&& plan[plan.len() - 2].measure == Measure::OutputThroughput
            &&& plan[plan.len() - 2].tokens == osl
            &&& plan.last().measure == Measure::TotalThroughput
            &&& plan.last().tokens == isl + osl
        },
{
}

/// Without streaming every figure is taken over the whole request.
pub proof fn law_whole_without_streaming(isl: usize, osl: usize, i: int)
    requires
        0 <= i < metric_plan(false, isl, osl).len(),
    ensures
        metric_plan(false, isl, osl)[i].span == Span::Whole,
{
}

/// A metric is always reported under some name.
pub proof fn law_deployment_is_named(model: Seq<char>, relay: RelayConfig)
    requires
        relay.deployment_slug matches Some(s) ==> s@.len() > 0,
        relay.namespace matches Some(s) ==> s@.len() > 0,
    ensures
        deployment(model, relay).len() > 0,
{
    reveal_strlit("unknown");
}

/// Input throughput is reported exactly where a request with output has input,
/// with streaming or without. It is reported once, counts all input tokens, and is
/// taken up to the first token of a streamed answer and over the whole request
/// otherwise.
pub proof fn law_input_throughput(streaming: bool, isl: usize, osl: usize)
    requires
        osl > 0,
        isl + osl <= usize::MAX,
    ensures
        isl > 0 <==> exists|i: int|
            0 <= i < metric_plan(streaming, isl, osl).len() && (#[trigger] metric_plan(
                streaming,
                isl,
                osl,
            )[i]).measure == Measure::InputThroughput,
        forall|i: int, j: int|
            #![trigger metric_plan(streaming, isl, osl)[i], metric_plan(streaming, isl, osl)[j]]
            0 <= i < metric_plan(streaming, isl, osl).len() && 0 <= j < metric_plan(
                streaming,
                isl,
                osl,
            ).len() && metric_plan(streaming, isl, osl)[i].measure == metric_plan(
                streaming,
                isl,
                osl,
            )[j].measure ==> i == j,
        forall|i: int|
            #![trigger metric_plan(streaming, isl, osl)[i]]
            0 <= i < metric_plan(streaming, isl, osl).len() && metric_plan(
                streaming,
                isl,
                osl,
            )[i].measure == Measure::InputThroughput ==> metric_plan(
                streaming,
                isl,
                osl,
            )[i].tokens == isl && (streaming ==> metric_plan(streaming, isl, osl)[i].span
                == Span::UntilFirstToken) && (!streaming ==> metric_plan(
                streaming,
                isl,
                osl,
            )[i].span == Span::Whole),
{
    let plan = metric_plan(streaming, isl, osl);
    if isl > 0 {
        assert(plan[1].measure == Measure::InputThroughput);
    }
}

/// The time to the first token ends at it in a streamed answer, output is measured
/// from it on, and the total over the whole request. Three figures are reported, or
/// four with input.
pub proof fn law_spans(streaming: bool, isl: usize, osl: usize)
    requires
        osl > 0,
        isl + osl <= usize::MAX,
    ensures
        ({
            let plan = metric_plan(streaming, isl, osl);
            let n = plan.len() as int;
            &&& isl > 0 ==> n == 4
            &&& isl == 0 ==> n == 3
            &&& plan[0].measure == Measure::Ttft && plan[0].tokens == 0
            &&& plan[0].span == (if streaming {
                Span::UntilFirstToken
            } else {
                Span::Whole
            })
            &&& plan[n - 2].measure == Measure::OutputThroughput && plan[n - 2].tokens == osl
            &&& plan[n - 2].span == (if streaming {
                Span::AfterFirstToken
            } else {
                Span::Whole
            })
            &&& plan[n - 1].measure == Measure::TotalThroughput && plan[n - 1].tokens == isl + osl
            &&& plan[n - 1].span == Span::Whole
        }),
{
}

/// A report is posted again exactly after no answer and after a server error, with
/// growing delays, and at most three times. Any other answer ends the posting.
pub proof fn law_after_each_post(retries: u32, status: Option<u16>)
    ensures
        ({
            let fails = status is None || (status matches Some(code) && code / 100 == 5);
            &&& fails && retries == 0 ==> post_step(retries, status) == PostStep::RetryAfter(100)
            &&& fails && retries == 1 ==> post_step(retries, status) == PostStep::RetryAfter(300)
            &&& fails && retries == 2 ==> post_step(retries, status) == PostStep::RetryAfter(900)
            &&& fails && retries >= 3 ==> post_step(retries, status) == PostStep::GiveUp
            &&& !fails ==> (post_step(retries, status) == PostStep::Refused <==> status->0 / 100
                == 4)
            &&& !fails ==> (post_step(retries, status) == PostStep::Accepted <==> status->0 / 100
                != 4)
        }),
{
    if let Some(code) = status {
        http_status::law_status_class(code);
    }
}

/// The address of a relay loses white space around it and then the slashes at its
/// end, and nothing else.
pub proof fn law_relay_addr(addr: Seq<char>)
    ensures
        relay_addr(addr).is_prefix_of(text::trim(addr)),
        forall|i: int|
            relay_addr(addr).len() <= i < text::trim(addr).len() ==> #[trigger] text::trim(addr)[i]
                == '/',
        relay_addr(addr).len() > 0 ==> relay_addr(addr).last() != '/',
{
    lemma_without_slashes(text::trim(addr));
}

proof fn lemma_without_slashes(s: Seq<char>)
    ensures
        without_slashes(s).is_prefix_of(s),
        forall|i: int| without_slashes(s).len() <= i < s.len() ==> #[trigger] s[i] == '/',
        without_slashes(s).len() > 0 ==> without_slashes(s).last() != '/',
    decreases s.len(),
{
    if s.len() > 0 && s.last() == '/' {
        let rest = s.drop_last();
        lemma_without_slashes(rest);
        let r = without_slashes(s);
        assert(r =~= s.take(r.len() as int)) by {
            assert(r =~= rest.take(r.len() as int));
        }
        assert forall|i: int| r.len() <= i < s.len() implies #[trigger] s[i] == '/' by {
            if i < rest.len() {
                assert(rest[i] == s[i]);
            }
        }
    } else {
        assert(s =~= s.take(s.len() as int));
    }
}

/// A relay is there exactly where its address is more than white space and slashes.
/// It is posted to below that address, and certificates are verified unless the
/// setting is `1`, `true` or `yes`.
pub proof fn law_relay(
    config: Option<RelayConfig>,
    addr: Option<Seq<char>>,
    skip: Option<Seq<char>>,
    slug: Option<Seq<char>>,
    namespace: Option<Seq<char>>,
)
    requires
        is_relay(config, addr, skip, slug, namespace),
    ensures
        addr is None ==> config is None,
        addr matches Some(a) ==> (config is None <==> relay_addr(a).len() == 0),
        config matches Some(c) ==> {
            &&& c.url@ == relay_addr(addr->0) + "/custom-metric"@
            &&& c.skip_tls_verify <==> skip is Some && (text::trim(skip->0) == "1"@ || text::trim(
                skip->0,
            ) == "true"@ || text::trim(skip->0) == "yes"@)
            &&& (c.deployment_slug matches Some(s) ==> slug is Some && s@ == text::trim(slug->0)
                && s@.len() > 0)
            &&& (c.deployment_slug is None <==> slug is None || text::trim(slug->0).len() == 0)
            &&& (c.namespace matches Some(s) ==> namespace is Some && s@ == text::trim(
                namespace->0,
            ) && s@.len() > 0)
            &&& (c.namespace is None <==> namespace is None || text::trim(namespace->0).len() == 0)
        },
{
}

/// A metric goes under the model, or else the deployment, the namespace and then
/// `unknown`, whichever is there first.
pub proof fn law_deployment(model: Seq<char>, relay: RelayConfig)
    ensures
        model.len() > 0 ==> deployment(model, relay) == model,
        model.len() == 0 ==> (relay.deployment_slug matches Some(s) ==> deployment(model, relay)
            == s@),
        model.len() == 0 && relay.deployment_slug is None ==> (relay.namespace matches Some(s)
            ==> deployment(model, relay) == s@),
        model.len() == 0 && relay.deployment_slug is None && relay.namespace is None ==> deployment(
            model,
            relay,
        ) == "unknown"@,
{
}

/// A report holds the name of the measure, by itself and in its key, what it is
/// reported under, the value and whether the answer was streamed, and nothing else.
pub proof fn law_report(measure: Measure, under: Seq<char>, value: u64, streaming: bool)
    ensures
        ({
            let name = match measure {
                Measure::Ttft => "ttft"@,
                Measure::InputThroughput => "input_throughput"@,
                Measure::OutputThroughput => "output_throughput"@,
                Measure::TotalThroughput => "total_throughput"@,
            };
            &&& report(measure, under, value, streaming) is Object
            &&& report(measure, under, value, streaming)->Object_0.len() == 5
            &&& report(measure, under, value, streaming)->Object_0[0] == (
                "metric_type"@,
                JsonView::Str(name),
            )
            &&& report(measure, under, value, streaming)->Object_0[1] == (
                "deployment"@,
                JsonView::Str(under),
            )
            &&& report(measure, under, value, streaming)->Object_0[2] == (
                "key"@,
                JsonView::Str("dynamo_frontend_"@ + name),
            )
            &&& report(measure, under, value, streaming)->Object_0[3] == (
                "value"@,
                JsonView::UInt(value),
            )
            &&& report(measure, under, value, streaming)->Object_0[4] == (
                "metadata"@,
                JsonView::Object(seq![("streaming"@, JsonView::Bool(streaming))]),
            )
        }),
{
}

} // verus!

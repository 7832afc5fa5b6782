//! Usage events and their delivery.
//!
//! [`FlexPriceClient::enqueue`] never waits: it puts an event into a bounded
//! queue that a worker drains. An event is lost only where the queue is full,
//! where the worker is gone, or where all of [`MAX_ATTEMPTS`] attempts to
//! deliver it fail.

use vstd::prelude::*;
use vstd::string::*;

use std::collections::BTreeMap;

use tokio::sync::mpsc;

use super::queue::EventSender;
use crate::http_status;
use crate::text;

verus! {

/// Where events are posted, below the host.
pub const EVENTS_PATH: &'static str = "/events";

/// How many events the queue holds unless configured otherwise.
pub const DEFAULT_QUEUE_SIZE: usize = 4500;

/// How long one attempt may take, in seconds.
pub const REQUEST_TIMEOUT_SECS: u64 = 10;

/// How many deliveries run at once.
pub const MAX_CONCURRENT_SENDS: usize = 20;

/// How many attempts are made to deliver an event, the first one counted.
pub const MAX_ATTEMPTS: u32 = 3;

/// How long to wait after the first failed attempt, in milliseconds.
pub const RETRY_BASE_DELAY_MS: u64 = 200;

/// `c` is a decimal digit.
pub open spec fn is_digit(c: char) -> bool {
    '0' <= c && c <= '9'
}

/// All of `s` are decimal digits.
pub open spec fn all_digits(s: Seq<char>) -> bool {
    forall|i: int| 0 <= i < s.len() ==> is_digit(#[trigger] s[i])
}

/// The number that the decimal digits `s` stand for.
pub open spec fn decimal(s: Seq<char>) -> int
    decreases s.len(),
{
    if s.len() == 0 {
        0
    } else {
        10 * decimal(s.drop_last()) + (s.last() as u32 - '0' as u32)
    }
}

/// The number that `s` stands for: decimal digits, after a `+` or not, of a
/// value that fits.
pub open spec fn parsed_size(s: Seq<char>) -> Option<int> {
    let digits = text::strip_prefix(s, "+"@);
    if digits.len() > 0 && all_digits(digits) && decimal(digits) <= usize::MAX {
        Some(decimal(digits))
    } else {
        None
    }
}

proof fn lemma_decimal_grows(s: Seq<char>, n: int)
    requires
        all_digits(s),
        0 <= n <= s.len(),
    ensures
        0 <= decimal(s.take(n)) <= decimal(s),
    decreases s.len(),
{
    if s.len() == 0 {
        assert(s.take(n) =~= s);
    } else {
        let d = s.drop_last();
        assert(all_digits(d)) by {
            assert forall|i: int| 0 <= i < d.len() implies is_digit(#[trigger] d[i]) by {
                assert(d[i] == s[i]);
            }
        }
        assert(is_digit(s[s.len() - 1]));
        if n == s.len() {
            lemma_decimal_grows(d, d.len() as int);
            assert(d.take(d.len() as int) =~= d);
            assert(s.take(n) =~= s);
        } else {
            lemma_decimal_grows(d, n);
            assert(d.take(n) =~= s.take(n));
        }
    }
}

/// The number that `s` stands for.
fn parse_size(s: &str) -> (r: Option<usize>)
    ensures
        r is Some <==> parsed_size(s@) is Some,
        r matches Some(n) ==> Some(n as int) == parsed_size(s@),
{
    let digits: Vec<char> = text::chars_of(text::without_prefix(s, "+"));
    let ghost d = text::strip_prefix(s@, "+"@);
    let n: usize = digits.len();
    if n == 0 {
        return None;
    }
    let mut value: usize = 0;
    let mut i: usize = 0;
    while i < n
        invariant
            digits@ == d,
            n == d.len(),
            n > 0,
            d == text::strip_prefix(s@, "+"@),
            i <= n,
            forall|j: int| 0 <= j < i ==> is_digit(#[trigger] d[j]),
            value == decimal(d.take(i as int)),
        decreases n - i,
    {
        let c: char = digits[i];
        if !('0' <= c && c <= '9') {
            assert(!is_digit(d[i as int]));
            return None;
        }
        let digit: usize = (c as u32 - '0' as u32) as usize;
        let ghost next = d.take(i + 1);
        proof {
            assert(next.drop_last() =~= d.take(i as int));
            assert(decimal(next) == 10 * value + digit);
            if all_digits(d) {
                lemma_decimal_grows(d, i + 1);
            }
        }
        match value.checked_mul(10) {
            None => {
                return None;
            },
            Some(v) => match v.checked_add(digit) {
                None => {
                    return None;
                },
                Some(w) => {
                    value = w;
                },
            },
        }
        i += 1;
    }
    assert(d.take(n as int) =~= d);
    Some(value)
}

/// How many events the queue holds, by the configured value `configured`.
pub open spec fn queue_capacity(configured: Option<Seq<char>>) -> int {
    match configured {
        Some(s) => match parsed_size(s) {
            Some(n) => n,
            None => DEFAULT_QUEUE_SIZE as int,
        },
        None => DEFAULT_QUEUE_SIZE as int,
    }
}

/// How many events the queue holds, by the configured value `configured`: the
/// default where there is none or it is not a number that fits.
pub fn queue_size(configured: Option<&str>) -> (r: usize)
    ensures
        r == queue_capacity(
            match configured {
                Some(s) => Some(s@),
                None => None,
            },
        ),
{
    match configured {
        Some(s) => match parse_size(s) {
            Some(n) => n,
            None => DEFAULT_QUEUE_SIZE,
        },
        None => DEFAULT_QUEUE_SIZE,
    }
}

/// A usage event.
#[derive(Debug)]
pub struct UsageEvent {
    pub event_name: String,
    pub external_customer_id: String,
    pub properties: BTreeMap<String, String>,
    pub source: String,
    pub event_id: String,
    pub timestamp: String,
}

/// `c` is a hexadecimal digit in lower case.
pub open spec fn is_lower_hex(c: char) -> bool {
    is_digit(c) || ('a' <= c && c <= 'f')
}

/// `s` is a random (version 4) UUID: lower-case hexadecimal digits in groups of
/// 8, 4, 4, 4 and 12, with the version in the third group and the variant in the
/// fourth.
pub open spec fn is_random_uuid(s: Seq<char>) -> bool {
    &&& s.len() == 36
    &&& forall|i: int|
        0 <= i < 36 ==> if i == 8 || i == 13 || i == 18 || i == 23 {
            #[trigger] s[i] == '-'
        } else {
            is_lower_hex(s[i])
        }
    &&& s[14] == '4'
    &&& s[19] == '8' || s[19] == '9' || s[19] == 'a' || s[19] == 'b'
}

/// `s` is a time in UTC to the second, as in `2026-01-01T00:00:00Z`: its last 20
/// characters have this shape. Only a year of more than four digits has more
/// characters before them.
pub open spec fn is_utc_timestamp(s: Seq<char>) -> bool {
    let n = s.len() as int;
    &&& n >= 20
    &&& forall|i: int|
        1 <= i <= 20 ==> if i == 1 {
            #[trigger] s[n - i] == 'Z'
        } else if i == 4 || i == 7 {
            s[n - i] == ':'
        } else if i == 10 {
            s[n - i] == 'T'
        } else if i == 13 || i == 16 {
            s[n - i] == '-'
        } else {
            is_digit(s[n - i])
        }
}

/// `uuid::Uuid::new_v4` makes a random version 4 UUID, and its `to_string` writes
/// it in lower case with hyphens. Nothing more is said of the result, which is
/// random.
#[verifier::external_body]
fn random_id() -> (r: String)
    ensures
        is_random_uuid(r@),
{
    uuid::Uuid::new_v4().to_string()
}

/// `chrono::Utc::now` reads the clock, and formatting with
/// `%Y-%m-%dT%H:%M:%SZ` writes the date and the time to the second. Which time it
/// is depends on the clock, so only the shape is stated. A clock set before 1970
/// makes `now` panic.
#[verifier::external_body]
fn utc_timestamp() -> (r: String)
    ensures
        is_utc_timestamp(r@),
{
    chrono::Utc::now().format("%Y-%m-%dT%H:%M:%SZ").to_string()
}

/// What became of an event that was offered to the queue.
#[derive(Debug)]
pub enum Offered {
    Queued,
    /// The queue is full.
    Full(UsageEvent),
    /// The receiving end is gone.
    Closed(UsageEvent),
}

/// The event that `enqueue` makes of its arguments.
pub open spec fn is_event_of(
    event: UsageEvent,
    event_name: String,
    external_customer_id: String,
    properties: BTreeMap<String, String>,
    source: String,
) -> bool {
    &&& event.event_name == event_name
    &&& event.external_customer_id == external_customer_id
    &&& event.properties == properties
    &&& event.source == source
    &&& is_random_uuid(event.event_id@)
    &&& is_utc_timestamp(event.timestamp@)
}

/// What drains the queue of a client: its receiving end, and where and how to
/// deliver the events.
pub struct EventWorker {
    pub events_url: String,
    pub api_key: String,
    pub events: mpsc::Receiver<UsageEvent>,
}

/// Takes usage events and queues them for delivery.
pub struct FlexPriceClient {
    queue: EventSender,
}

impl FlexPriceClient {
    /// The events that were queued, first to last.
    pub closed spec fn queued(&self) -> Seq<UsageEvent> {
        self.queue.queued()
    }

    /// The events that were offered to the queue, first to last.
    pub closed spec fn offered(&self) -> Seq<UsageEvent> {
        self.queue.offered()
    }

    /// How many events wait for delivery at most.
    pub closed spec fn capacity(&self) -> nat {
        self.queue.capacity()
    }

    /// The events of this client go to `worker`.
    pub closed spec fn feeds(&self, worker: EventWorker) -> bool {
        self.queue.feeds(worker.events)
    }

    /// A client for the service at `api_host`, and the worker that is to deliver
    /// its events.
    pub fn new(api_host: &str, api_key: &str, queue_size: usize) -> (r: (
        FlexPriceClient,
        EventWorker,
    ))
        requires
            0 < queue_size <= usize::MAX / 8,
        ensures
            r.0.queued() == Seq::<UsageEvent>::empty(),
            r.0.offered() == Seq::<UsageEvent>::empty(),
            r.0.capacity() == queue_size,
            r.0.feeds(r.1),
            r.1.events_url@ == "https://"@ + api_host@ + EVENTS_PATH@,
            r.1.api_key@ == api_key@,
    {
        let mut events_url: String = "https://".to_owned();
        events_url.append(api_host);
        events_url.append(EVENTS_PATH);
        let (queue, events) = EventSender::new(queue_size);
        let worker: EventWorker = EventWorker { events_url, api_key: api_key.to_owned(), events };
        (FlexPriceClient { queue }, worker)
    }

    /// Queues an event without waiting. The event is handed back where the queue
    /// is full, as it can be only after as many events as it holds, or where the
    /// worker is gone.
    pub fn enqueue(
        &mut self,
        event_name: String,
        external_customer_id: String,
        properties: BTreeMap<String, String>,
        source: String,
    ) -> (r: Offered)
        ensures
            final(self).capacity() == old(self).capacity(),
            forall|worker: EventWorker| #[trigger]
                final(self).feeds(worker) == old(self).feeds(worker),
            final(self).offered().len() == old(self).offered().len() + 1,
            final(self).offered().drop_last() == old(self).offered(),
            is_event_of(
                final(self).offered().last(),
                event_name,
                external_customer_id,
                properties,
                source,
            ),
            match r {
                Offered::Queued => final(self).queued() == old(self).queued().push(
                    final(self).offered().last(),
                ),
                Offered::Full(event) => {
                    &&& event == final(self).offered().last()
                    &&& final(self).queued() == old(self).queued()
                    &&& old(self).queued().len() >= old(self).capacity()
                },
                Offered::Closed(event) => {
                    &&& event == final(self).offered().last()
                    &&& final(self).queued() == old(self).queued()
                },
            },
    {
        let event: UsageEvent = UsageEvent {
            event_name,
            external_customer_id,
            properties,
            source,
            event_id: random_id(),
            timestamp: utc_timestamp(),
        };
        self.queue.offer(event)
    }
}

/// What to do after an attempt to deliver an event.
#[derive(Debug, Clone, Copy, PartialEq, Eq, Structural)]
pub enum DeliveryStep {
    /// The event is delivered.
    Delivered,
    /// Wait for so many milliseconds and try again.
    RetryAfter(u64),
    /// Drop the event.
    GiveUp,
}

/// What to do after attempt number `attempt`, counted from one, was answered
/// with the HTTP status `status`, or not at all.
pub open spec fn delivery_step(attempt: u32, status: Option<u16>) -> DeliveryStep {
    if status is Some && http_status::success(status->0) {
        DeliveryStep::Delivered
    } else if attempt >= MAX_ATTEMPTS {
        DeliveryStep::GiveUp
    } else {
        DeliveryStep::RetryAfter((RETRY_BASE_DELAY_MS * attempt) as u64)
    }
}

/// What to do after attempt number `attempt`, counted from one, was answered
/// with the HTTP status `status`, or not at all.
pub fn after_attempt(attempt: u32, status: Option<u16>) -> (r: DeliveryStep)
    ensures
        r == delivery_step(attempt, status),
{
    if let Some(code) = status {
        if http_status::is_success(code) {
            return DeliveryStep::Delivered;
        }
    }
    if attempt >= MAX_ATTEMPTS {
        DeliveryStep::GiveUp
    } else {
        DeliveryStep::RetryAfter(RETRY_BASE_DELAY_MS * attempt as u64)
    }
}

/// How the delivery of an event ends whose attempts get `answers`, from attempt
/// number `attempt` on: whether it is delivered, and after how many attempts in
/// all.
pub open spec fn delivery(answers: Seq<Option<u16>>, attempt: u32) -> (bool, u32)
    decreases MAX_ATTEMPTS - attempt,
{
    match delivery_step(attempt, answers[attempt - 1]) {
        DeliveryStep::Delivered => (true, attempt),
        DeliveryStep::GiveUp => (false, attempt),
        DeliveryStep::RetryAfter(_) => delivery(answers, (attempt + 1) as u32),
    }
}

/// An attempt that is answered with `answer` fails.
pub open spec fn attempt_fails(answer: Option<u16>) -> bool {
    !(answer is Some && http_status::success(answer->0))
}

/// An event is dropped only after all its attempts have failed, never on fewer
/// failures. Where one succeeds it is delivered by the first that does, and no
/// more are made.
pub proof fn law_dropped_only_after_all_attempts(answers: Seq<Option<u16>>)
    requires
        answers.len() >= MAX_ATTEMPTS,
    ensures
        delivery(answers, 1).0 == exists|i: int|
            0 <= i < MAX_ATTEMPTS && !attempt_fails(#[trigger] answers[i]),
        1 <= delivery(answers, 1).1 <= MAX_ATTEMPTS,
        delivery(answers, 1).0 ==> !attempt_fails(answers[delivery(answers, 1).1 - 1]),
        !delivery(answers, 1).0 ==> delivery(answers, 1).1 == MAX_ATTEMPTS,
        forall|i: int| 0 <= i < delivery(answers, 1).1 - 1 ==> attempt_fails(#[trigger] answers[i]),
{
    reveal_with_fuel(delivery, 4);
    assert(attempt_fails(answers[0]) || !attempt_fails(answers[0]));
    assert(attempt_fails(answers[1]) || !attempt_fails(answers[1]));
    assert(attempt_fails(answers[2]) || !attempt_fails(answers[2]));
}

/// The wait before a retry grows by the base delay with each attempt.
pub proof fn law_backoff_grows(attempt: u32, status: Option<u16>)
    requires
        1 <= attempt < MAX_ATTEMPTS,
        attempt_fails(status),
    ensures
        delivery_step(attempt, status) == DeliveryStep::RetryAfter(
            (RETRY_BASE_DELAY_MS * attempt) as u64,
        ),
        RETRY_BASE_DELAY_MS * attempt <= u64::MAX,
{
}

/// An attempt ends the delivery where it succeeds, and where it is the last one. Any
/// other is repeated after the base delay, once for each attempt so far.
pub proof fn law_after_each_attempt(attempt: u32, status: Option<u16>)
    requires
        attempt >= 1,
    ensures
        delivery_step(attempt, status) == DeliveryStep::Delivered <==> (status matches Some(code)
            && code / 100 == 2),
        delivery_step(attempt, status) == DeliveryStep::GiveUp <==> attempt >= 3 && !(status
            matches Some(code) && code / 100 == 2),
        attempt == 1 && !(status matches Some(code) && code / 100 == 2) ==> delivery_step(
            attempt,
            status,
        ) == DeliveryStep::RetryAfter(200),
        attempt == 2 && !(status matches Some(code) && code / 100 == 2) ==> delivery_step(
            attempt,
            status,
        ) == DeliveryStep::RetryAfter(400),
{
    if let Some(code) = status {
        http_status::law_status_class(code);
    }
}

/// A further digit makes ten times the number, and the digit. A single digit stands
/// for itself.
pub proof fn law_decimal(s: Seq<char>, c: char)
    requires
        is_digit(c),
    ensures
        decimal(s.push(c)) == 10 * decimal(s) + (c as u32 - '0' as u32),
        decimal(seq![c]) == c as u32 - '0' as u32,
        is_digit('0') && is_digit('9') && !is_digit('/') && !is_digit(':'),
{
    assert(s.push(c).drop_last() =~= s);
    reveal_with_fuel(decimal, 2);
    assert(seq![c].drop_last() =~= Seq::<char>::empty());
}

/// A size is given by decimal digits, with a `+` before them or not. Without a
/// digit, with any other character and beyond the largest number there is none, and
/// the default counts.
pub proof fn law_queue_size(digits: Seq<char>)
    requires
        digits.len() > 0,
        forall|i: int| 0 <= i < digits.len() ==> '0' <= #[trigger] digits[i] && digits[i] <= '9',
    ensures
        decimal(digits) <= usize::MAX ==> queue_capacity(Some(digits)) == decimal(digits)
            && queue_capacity(Some("+"@ + digits)) == decimal(digits),
        decimal(digits) > usize::MAX ==> queue_capacity(Some(digits)) == 4500 && queue_capacity(
            Some("+"@ + digits),
        ) == 4500,
{
    reveal_strlit("+");
    text::law_strip_prefix("+"@, digits);
    if "+"@.is_prefix_of(digits) {
        assert(digits.take(1)[0] == digits[0]);
    }
    assert(text::strip_prefix(digits, "+"@) == digits);
    assert(all_digits(digits));
}

/// Where anything but digits stands in a configured size, after a `+` or not, or
/// nothing at all, and where none is configured, the default counts.
pub proof fn law_default_queue_size(s: Seq<char>, i: int)
    ensures
        queue_capacity(None) == 4500,
        s.len() == 0 ==> queue_capacity(Some(s)) == 4500,
        s == "+"@ ==> queue_capacity(Some(s)) == 4500,
        0 < i < s.len() && !('0' <= s[i] && s[i] <= '9') ==> queue_capacity(Some(s)) == 4500,
        s.len() > 0 && s[0] != '+' && !('0' <= s[0] && s[0] <= '9') ==> queue_capacity(Some(s))
            == 4500,
{
    reveal_strlit("+");
    let d = text::strip_prefix(s, "+"@);
    if "+"@.is_prefix_of(s) {
        assert(s.take(1)[0] == s[0]);
        assert(d == s.skip(1));
        if 0 < i < s.len() && !('0' <= s[i] && s[i] <= '9') {
            assert(d[i - 1] == s[i]);
            assert(!is_digit(d[i - 1]));
        }
    } else {
        if 0 < i < s.len() && !('0' <= s[i] && s[i] <= '9') {
            assert(!is_digit(d[i]));
        }
        if s.len() > 0 && !('0' <= s[0] && s[0] <= '9') {
            assert(!is_digit(d[0]));
        }
    }
}

/// An event carries the arguments that it was made of, each in its own field.
pub proof fn law_event_carries_arguments(
    event: UsageEvent,
    event_name: String,
    external_customer_id: String,
    properties: BTreeMap<String, String>,
    source: String,
)
    requires
        is_event_of(event, event_name, external_customer_id, properties, source),
    ensures
        event.event_name@ == event_name@,
        event.external_customer_id@ == external_customer_id@,
        event.properties == properties,
        event.source@ == source@,
        event.event_id@.len() == 36,
        event.timestamp@.last() == 'Z',
{
    let s = event.timestamp@;
    assert(s[s.len() - 1] == 'Z');
}

} // verus!

//! The wallet gate for prepaid organisations.
//!
//! Postpaid organisations may always proceed and suspended ones never. Prepaid
//! ones are blocked while their balance is below the minimum.
//!
//! A check never waits for the wallet service. It answers from a cached status,
//! and where there is none it lets the request pass and asks for one refresh in
//! the background.

use vstd::prelude::*;
use vstd::string::*;

use dashmap::DashMap;

use crate::http_status;
use crate::text;

verus! {

/// How long a status is cached, in seconds.
pub const CACHE_TTL_SECS: u64 = 60;

/// How long a wallet lookup may take, in seconds.
pub const WALLET_TIMEOUT_SECS: u64 = 5;

/// Whether an organisation may proceed.
#[derive(Debug, Clone, Copy, PartialEq, Eq, Structural)]
pub enum BalanceStatus {
    Allowed,
    Suspended,
    InsufficientBalance,
}

/// What a wallet says of its organisation besides the balance.
#[derive(Debug, PartialEq, Eq)]
pub struct WalletMetadata {
    pub is_kyc: Option<String>,
    pub is_suspended: Option<String>,
}

/// The wallet of an organisation.
#[derive(Debug, PartialEq, Eq)]
pub struct Wallet {
    pub real_time_balance: Option<String>,
    pub balance: Option<String>,
    pub metadata: WalletMetadata,
}

/// What follows from the wallets of an organisation.
#[derive(Debug, PartialEq, Eq)]
pub enum WalletVerdict {
    /// The status is clear.
    Decided(BalanceStatus),
    /// The status depends on whether this balance reaches the minimum.
    Compare(String),
}

/// Why nothing follows from a wallet lookup.
#[derive(Debug, Clone, Copy, PartialEq, Eq, Structural)]
pub enum WalletError {
    /// There was no answer, or not one that lists wallets.
    NoAnswer,
    /// The service answered with a status other than success.
    Status(u16),
    NoWallet,
    MissingBalance,
    /// The balance is not a number.
    UnreadableBalance,
}

/// Where the wallet service is and how to authenticate with it.
pub struct FlexPriceConfig {
    pub api_host: String,
    pub api_key: String,
}

/// `value` is the word `true`, in upper or lower case.
pub open spec fn truthy(value: Option<String>) -> bool {
    value matches Some(s) && text::ascii_lowercase(s@) == "true"@
}

/// Whether `value` is the word `true`, in upper or lower case.
pub fn is_truthy(value: &Option<String>) -> (r: bool)
    ensures
        r == truthy(*value),
{
    match value {
        Some(s) => text::same_ignoring_ascii_case(s.as_str(), "true"),
        None => false,
    }
}

/// The balance that counts: the real-time one unless it is missing or empty.
pub open spec fn balance_text(wallet: Wallet) -> Option<Seq<char>> {
    match wallet.real_time_balance {
        Some(s) => if s@.len() > 0 {
            Some(s@)
        } else {
            text::opt_view(wallet.balance)
        },
        None => text::opt_view(wallet.balance),
    }
}

/// What follows from a wallet. Suspension counts before everything else, and a
/// postpaid organisation needs no balance.
pub open spec fn wallet_verdict(wallet: Wallet, r: Result<WalletVerdict, WalletError>) -> bool {
    if truthy(wallet.metadata.is_suspended) {
        r == Ok::<WalletVerdict, WalletError>(WalletVerdict::Decided(BalanceStatus::Suspended))
    } else if truthy(wallet.metadata.is_kyc) {
        r == Ok::<WalletVerdict, WalletError>(WalletVerdict::Decided(BalanceStatus::Allowed))
    } else {
        match balance_text(wallet) {
            Some(b) => r matches Ok(WalletVerdict::Compare(s)) && s@ == b,
            None => r == Err::<WalletVerdict, WalletError>(WalletError::MissingBalance),
        }
    }
}

/// What follows from the wallets of an organisation, of which the first counts.
pub fn assess_wallets(wallets: &Vec<Wallet>) -> (r: Result<WalletVerdict, WalletError>)
    ensures
        wallets@.len() == 0 <==> r == Err::<WalletVerdict, WalletError>(WalletError::NoWallet),
        wallets@.len() > 0 ==> wallet_verdict(wallets@[0], r),
{
    if wallets.len() == 0 {
        return Err(WalletError::NoWallet);
    }
    let wallet: &Wallet = &wallets[0];
    if is_truthy(&wallet.metadata.is_suspended) {
        return Ok(WalletVerdict::Decided(BalanceStatus::Suspended));
    }
    if is_truthy(&wallet.metadata.is_kyc) {
        return Ok(WalletVerdict::Decided(BalanceStatus::Allowed));
    }
    if let Some(s) = &wallet.real_time_balance {
        if !s.as_str().is_empty() {
            return Ok(WalletVerdict::Compare(s.clone()));
        }
    }
    match &wallet.balance {
        Some(s) => Ok(WalletVerdict::Compare(s.clone())),
        None => Err(WalletError::MissingBalance),
    }
}

/// Whether a lookup with the HTTP status `status` has an answer to read.
pub fn lookup_answered(status: u16) -> (r: Result<(), WalletError>)
    ensures
        r == (if http_status::success(status) {
            Ok::<(), WalletError>(())
        } else {
            Err::<(), WalletError>(WalletError::Status(status))
        }),
{
    if http_status::is_success(status) {
        Ok(())
    } else {
        Err(WalletError::Status(status))
    }
}

/// The status of a prepaid organisation, by whether its balance reaches the
/// minimum, or nothing where the balance is not a number.
pub open spec fn prepaid_status(reaches_minimum: Option<bool>) -> Result<
    BalanceStatus,
    WalletError,
> {
    match reaches_minimum {
        Some(true) => Ok(BalanceStatus::Allowed),
        Some(false) => Ok(BalanceStatus::InsufficientBalance),
        None => Err(WalletError::UnreadableBalance),
    }
}

/// The status of the organisation with this wallet.
pub open spec fn wallet_status(wallet: Wallet, reaches_minimum: Option<bool>) -> Result<
    BalanceStatus,
    WalletError,
> {
    if truthy(wallet.metadata.is_suspended) {
        Ok(BalanceStatus::Suspended)
    } else if truthy(wallet.metadata.is_kyc) {
        Ok(BalanceStatus::Allowed)
    } else if balance_text(wallet) is None {
        Err(WalletError::MissingBalance)
    } else {
        prepaid_status(reaches_minimum)
    }
}

/// The status that follows from a verdict. `reaches_minimum` says whether the
/// balance in it reaches the minimum, or nothing where it is not a number.
pub fn settle(verdict: &WalletVerdict, reaches_minimum: Option<bool>) -> (r: Result<
    BalanceStatus,
    WalletError,
>)
    ensures
        r == (match *verdict {
            WalletVerdict::Decided(status) => Ok::<BalanceStatus, WalletError>(status),
            WalletVerdict::Compare(_) => prepaid_status(reaches_minimum),
        }),
        forall|wallet: Wallet| #[trigger]
            wallet_verdict(wallet, Ok(*verdict)) ==> r == wallet_status(wallet, reaches_minimum),
{
    match verdict {
        WalletVerdict::Decided(status) => Ok(*status),
        WalletVerdict::Compare(_) => match reaches_minimum {
            Some(true) => Ok(BalanceStatus::Allowed),
            Some(false) => Ok(BalanceStatus::InsufficientBalance),
            None => Err(WalletError::UnreadableBalance),
        },
    }
}

/// The status to cache for the outcome of a lookup.
pub open spec fn cached_status(outcome: Result<BalanceStatus, WalletError>) -> BalanceStatus {
    match outcome {
        Ok(status) => status,
        Err(_) => BalanceStatus::Allowed,
    }
}

/// The status to cache for the outcome of a lookup. A lookup that failed lets
/// requests pass.
pub fn status_to_cache(outcome: Result<BalanceStatus, WalletError>) -> (r: BalanceStatus)
    ensures
        r == cached_status(outcome),
{
    match outcome {
        Ok(status) => status,
        Err(_) => BalanceStatus::Allowed,
    }
}

/// `dashmap::DashMap`, a concurrent hash map.
#[verifier::external_type_specification]
#[verifier::external_body]
#[verifier::reject_recursive_types(K)]
#[verifier::reject_recursive_types(V)]
#[verifier::reject_recursive_types(S)]
pub struct ExDashMap<K, V, S>(dashmap::DashMap<K, V, S>);

/// The keys of a map.
pub uninterp spec fn keys(m: DashMap<String, ()>) -> Set<Seq<char>>;

/// `DashMap::new` makes a map without entries.
#[verifier::external_body]
fn empty_map() -> (m: DashMap<String, ()>)
    ensures
        keys(m) == Set::<Seq<char>>::empty(),
{
    DashMap::new()
}

/// `DashMap::insert` puts an entry into the map and returns the value that the
/// key had before, if it was there. The map is borrowed mutably: nothing else
/// reaches it meanwhile.
#[verifier::external_body]
fn insert_key(m: &mut DashMap<String, ()>, key: String) -> (r: Option<()>)
    ensures
        r is Some <==> keys(*old(m)).contains(key@),
        keys(*final(m)) == keys(*old(m)).insert(key@),
{
    m.insert(key, ())
}

/// `DashMap::remove` takes the entry of a key out of the map and returns it, if
/// it was there. The map is borrowed mutably: nothing else reaches it meanwhile.
#[verifier::external_body]
fn remove_key(m: &mut DashMap<String, ()>, key: &str) -> (r: Option<(String, ())>)
    ensures
        r is Some <==> keys(*old(m)).contains(key@),
        keys(*final(m)) == keys(*old(m)).remove(key@),
{
    m.remove(key)
}

/// The answer to a check.
#[derive(Debug, Clone, Copy, PartialEq, Eq, Structural)]
pub struct CheckAnswer {
    /// Whether the request may proceed.
    pub status: BalanceStatus,
    /// Whether the caller is to look up the wallet in the background.
    pub refresh: bool,
}

/// The answer to a check while the lookups of `in_flight` are under way.
pub open spec fn check_answer(
    in_flight: Set<Seq<char>>,
    org: Seq<char>,
    cached: Option<BalanceStatus>,
) -> CheckAnswer {
    match cached {
        Some(status) => CheckAnswer { status, refresh: false },
        None => CheckAnswer { status: BalanceStatus::Allowed, refresh: !in_flight.contains(org) },
    }
}

/// The lookups that are under way after a check.
pub open spec fn in_flight_after_check(
    in_flight: Set<Seq<char>>,
    org: Seq<char>,
    cached: Option<BalanceStatus>,
) -> Set<Seq<char>> {
    if cached is Some {
        in_flight
    } else {
        in_flight.insert(org)
    }
}

/// Decides whether organisations may proceed, and when to look up their wallets.
pub struct BalanceChecker {
    wallets_url: String,
    api_key: String,
    in_flight: DashMap<String, ()>,
}

impl View for BalanceChecker {
    type V = Set<Seq<char>>;

    /// The organisations whose wallets are being looked up.
    closed spec fn view(&self) -> Set<Seq<char>> {
        keys(self.in_flight)
    }
}

impl BalanceChecker {
    /// Where wallets are looked up.
    pub closed spec fn url(&self) -> Seq<char> {
        self.wallets_url@
    }

    /// The key that a lookup is made with.
    pub closed spec fn key(&self) -> Seq<char> {
        self.api_key@
    }

    /// A checker for the wallet service of `config`.
    pub fn new(config: &FlexPriceConfig) -> (r: BalanceChecker)
        ensures
            r@ == Set::<Seq<char>>::empty(),
            r.url() == "https://"@ + config.api_host@ + "/customers/wallets"@,
            r.key() == config.api_key@,
    {
        let mut url: String = "https://".to_owned();
        url.append(config.api_host.as_str());
        url.append("/customers/wallets");
        Self::from_wallets_url(url, config.api_key.clone())
    }

    /// A checker that looks up wallets at `wallets_url`.
    pub fn from_wallets_url(wallets_url: String, api_key: String) -> (r: BalanceChecker)
        ensures
            r@ == Set::<Seq<char>>::empty(),
            r.url() == wallets_url@,
            r.key() == api_key@,
    {
        BalanceChecker { wallets_url, api_key, in_flight: empty_map() }
    }

    /// Where wallets are looked up.
    pub fn wallets_url(&self) -> (r: &str)
        ensures
            r@ == self.url(),
    {
        self.wallets_url.as_str()
    }

    /// The key that a lookup is made with.
    pub fn api_key(&self) -> (r: &str)
        ensures
            r@ == self.key(),
    {
        self.api_key.as_str()
    }

    /// Whether `org_uuid` may proceed, given its cached status. Without one the
    /// request passes, and the caller is to look up the wallet unless a lookup
    /// for the same organisation is under way.
    pub fn check(&mut self, org_uuid: &str, cached: Option<BalanceStatus>) -> (r: CheckAnswer)
        ensures
            r == check_answer(old(self)@, org_uuid@, cached),
            final(self)@ == in_flight_after_check(old(self)@, org_uuid@, cached),
            final(self).url() == old(self).url(),
            final(self).key() == old(self).key(),
    {
        if let Some(status) = cached {
            return CheckAnswer { status, refresh: false };
        }
        let known: Option<()> = insert_key(&mut self.in_flight, org_uuid.to_owned());
        CheckAnswer { status: BalanceStatus::Allowed, refresh: known.is_none() }
    }

    /// Notes that the lookup for `org_uuid` is over.
    pub fn finish_refresh(&mut self, org_uuid: &str)
        ensures
            final(self)@ == old(self)@.remove(org_uuid@),
            final(self).url() == old(self).url(),
            final(self).key() == old(self).key(),
    {
        let _ = remove_key(&mut self.in_flight, org_uuid);
    }
}

/// What happens to a checker.
pub enum GateEvent {
    /// A request of `org`, with its cached status.
    Check { org: Seq<char>, cached: Option<BalanceStatus> },
    /// The lookup for `org` is over.
    Finished { org: Seq<char> },
}

/// The lookups that are under way after `events`, with none at the start.
pub open spec fn in_flight_after(events: Seq<GateEvent>) -> Set<Seq<char>>
    decreases events.len(),
{
    if events.len() == 0 {
        Set::empty()
    } else {
        let before = in_flight_after(events.drop_last());
        match events.last() {
            GateEvent::Check { org, cached } => in_flight_after_check(before, org, cached),
            GateEvent::Finished { org } => before.remove(org),
        }
    }
}

/// How many of `events` asked for a lookup for `org`.
pub open spec fn lookups_asked(events: Seq<GateEvent>, org: Seq<char>) -> nat
    decreases events.len(),
{
    if events.len() == 0 {
        0
    } else {
        let earlier = lookups_asked(events.drop_last(), org);
        match events.last() {
            GateEvent::Check { org: o, cached } => if o == org && check_answer(
                in_flight_after(events.drop_last()),
                o,
                cached,
            ).refresh {
                earlier + 1
            } else {
                earlier
            },
            GateEvent::Finished { .. } => earlier,
        }
    }
}

/// How many of `events` ended a lookup for `org` that was under way.
pub open spec fn lookups_finished(events: Seq<GateEvent>, org: Seq<char>) -> nat
    decreases events.len(),
{
    if events.len() == 0 {
        0
    } else {
        let earlier = lookups_finished(events.drop_last(), org);
        if events.last() == (GateEvent::Finished { org }) && in_flight_after(
            events.drop_last(),
        ).contains(org) {
            earlier + 1
        } else {
            earlier
        }
    }
}

/// A request without a cached status passes, whatever the wallet holds.
pub proof fn law_miss_passes(in_flight: Set<Seq<char>>, org: Seq<char>)
    ensures
        check_answer(in_flight, org, None).status == BalanceStatus::Allowed,
{
}

/// A cached status is the answer as it is, and asks for no lookup.
pub proof fn law_hit_is_answered(in_flight: Set<Seq<char>>, org: Seq<char>, status: BalanceStatus)
    ensures
        check_answer(in_flight, org, Some(status)).status == status,
        !check_answer(in_flight, org, Some(status)).refresh,
        in_flight_after_check(in_flight, org, Some(status)) == in_flight,
{
}

/// At any time at most one lookup is under way for an organisation: those asked
/// for are one more than those finished while it is in flight, and otherwise
/// all are finished.
pub proof fn law_one_lookup_at_a_time(events: Seq<GateEvent>, org: Seq<char>)
    ensures
        lookups_asked(events, org) == lookups_finished(events, org) + (if in_flight_after(
            events,
        ).contains(org) {
            1int
        } else {
            0
        }),
    decreases events.len(),
{
    if events.len() > 0 {
        law_one_lookup_at_a_time(events.drop_last(), org);
    }
}

/// However many requests of an organisation miss the cache before a lookup is
/// over, together they ask for exactly one.
pub proof fn law_misses_share_a_lookup(events: Seq<GateEvent>, org: Seq<char>)
    requires
        !events.contains(GateEvent::Finished { org }),
    ensures
        lookups_asked(events, org) == (if events.contains(GateEvent::Check { org, cached: None }) {
            1int
        } else {
            0
        }),
        in_flight_after(events).contains(org) == events.contains(
            GateEvent::Check { org, cached: None },
        ),
    decreases events.len(),
{
    if events.len() > 0 {
        let before = events.drop_last();
        let miss = GateEvent::Check { org, cached: None };
        assert(events =~= before.push(events.last()));
        assert(forall|e: GateEvent|
            #[trigger]
            events.contains(e) <==> before.contains(e) || events.last() == e) by {
            assert forall|e: GateEvent| before.contains(e) || events.last() == e implies
                #[trigger] events.contains(e) by {
                if before.contains(e) {
                    let i = choose|i: int| 0 <= i < before.len() && before[i] == e;
                    assert(events[i] == e);
                } else {
                    assert(events[events.len() - 1] == e);
                }
            }
            assert forall|e: GateEvent| #[trigger] events.contains(e) implies before.contains(e)
                || events.last() == e by {
                let i = choose|i: int| 0 <= i < events.len() && events[i] == e;
                if i < before.len() {
                    assert(before[i] == e);
                }
            }
        }
        law_misses_share_a_lookup(before, org);
        assert(events.contains(miss) <==> before.contains(miss) || events.last() == miss);
    }
}

/// A suspended organisation is blocked, postpaid or not and whatever its
/// balance.
pub proof fn law_suspended_is_blocked(wallet: Wallet, reaches_minimum: Option<bool>)
    requires
        truthy(wallet.metadata.is_suspended),
    ensures
        cached_status(wallet_status(wallet, reaches_minimum)) == BalanceStatus::Suspended,
{
}

/// A postpaid organisation passes whatever its balance, unless it is suspended.
pub proof fn law_postpaid_passes(wallet: Wallet, reaches_minimum: Option<bool>)
    requires
        truthy(wallet.metadata.is_kyc),
        !truthy(wallet.metadata.is_suspended),
    ensures
        cached_status(wallet_status(wallet, reaches_minimum)) == BalanceStatus::Allowed,
{
}

/// A prepaid organisation with a readable balance is blocked exactly where the
/// balance is below the minimum.
pub proof fn law_prepaid_needs_balance(wallet: Wallet, reaches_minimum: bool)
    requires
        !truthy(wallet.metadata.is_kyc),
        !truthy(wallet.metadata.is_suspended),
        balance_text(wallet) is Some,
    ensures
        cached_status(wallet_status(wallet, Some(reaches_minimum))) == (if reaches_minimum {
            BalanceStatus::Allowed
        } else {
            BalanceStatus::InsufficientBalance
        }),
{
}

/// A lookup that fails blocks nobody.
pub proof fn law_failed_lookup_passes(error: WalletError)
    ensures
        cached_status(Err(error)) == BalanceStatus::Allowed,
{
}

/// A flag is set by the four letters of `true`, each in upper or lower case, and by
/// nothing else.
pub proof fn law_truthy(s: String)
    ensures
        truthy(Some(s)) <==> s@.len() == 4 && (s@[0] == 't' || s@[0] == 'T') && (s@[1] == 'r'
            || s@[1] == 'R') && (s@[2] == 'u' || s@[2] == 'U') && (s@[3] == 'e' || s@[3] == 'E'),
        !truthy(None),
{
    reveal_strlit("true");
    let l = text::ascii_lowercase(s@);
    assert(l.len() == s@.len());
    if s@.len() == 4 {
        assert(l[0] == text::ascii_lower(s@[0]) && l[1] == text::ascii_lower(s@[1]));
        assert(l[2] == text::ascii_lower(s@[2]) && l[3] == text::ascii_lower(s@[3]));
        assert(text::ascii_lower(s@[0]) == 't' <==> s@[0] == 't' || s@[0] == 'T');
        assert(text::ascii_lower(s@[1]) == 'r' <==> s@[1] == 'r' || s@[1] == 'R');
        assert(text::ascii_lower(s@[2]) == 'u' <==> s@[2] == 'u' || s@[2] == 'U');
        assert(text::ascii_lower(s@[3]) == 'e' <==> s@[3] == 'e' || s@[3] == 'E');
        assert("true"@[0] == 't' && "true"@[1] == 'r' && "true"@[2] == 'u' && "true"@[3] == 'e');
        if l[0] == 't' && l[1] == 'r' && l[2] == 'u' && l[3] == 'e' {
            assert(l =~= "true"@);
        }
    }
}

/// The real-time balance of a prepaid organisation is the one that counts wherever
/// it is there and not empty, whatever it says and whatever the other balance is.
pub proof fn law_real_time_balance_counts(
    wallet: Wallet,
    real_time: String,
    r: Result<WalletVerdict, WalletError>,
)
    requires
        !truthy(wallet.metadata.is_suspended),
        !truthy(wallet.metadata.is_kyc),
        wallet.real_time_balance == Some(real_time),
        real_time@.len() > 0,
        wallet_verdict(wallet, r),
    ensures
        r matches Ok(WalletVerdict::Compare(s)) && s@ == real_time@,
{
}

/// Without a real-time balance the other one counts, and a wallet with neither
/// tells nothing.
pub proof fn law_other_balance_counts(wallet: Wallet, r: Result<WalletVerdict, WalletError>)
    requires
        !truthy(wallet.metadata.is_suspended),
        !truthy(wallet.metadata.is_kyc),
        wallet.real_time_balance is None || (wallet.real_time_balance matches Some(s) && s@.len()
            == 0),
        wallet_verdict(wallet, r),
    ensures
        wallet.balance matches Some(b) ==> (r matches Ok(WalletVerdict::Compare(s)) && s@ == b@),
        wallet.balance is None ==> r == Err::<WalletVerdict, WalletError>(
            WalletError::MissingBalance,
        ),
{
}

/// Suspension decides before anything else, and then being postpaid, whatever the
/// balances are.
pub proof fn law_flags_decide(wallet: Wallet, r: Result<WalletVerdict, WalletError>)
    requires
        wallet_verdict(wallet, r),
    ensures
        truthy(wallet.metadata.is_suspended) ==> r == Ok::<WalletVerdict, WalletError>(
            WalletVerdict::Decided(BalanceStatus::Suspended),
        ),
        !truthy(wallet.metadata.is_suspended) && truthy(wallet.metadata.is_kyc) ==> r == Ok::<
            WalletVerdict,
            WalletError,
        >(WalletVerdict::Decided(BalanceStatus::Allowed)),
{
}

/// A prepaid organisation passes exactly with a balance that reaches the minimum;
/// one that is no number is an error.
pub proof fn law_balance_decides()
    ensures
        prepaid_status(Some(true)) == Ok::<BalanceStatus, WalletError>(BalanceStatus::Allowed),
        prepaid_status(Some(false)) == Ok::<BalanceStatus, WalletError>(
            BalanceStatus::InsufficientBalance,
        ),
        prepaid_status(None) == Err::<BalanceStatus, WalletError>(WalletError::UnreadableBalance),
        forall|status: BalanceStatus| #[trigger] cached_status(Ok(status)) == status,
{
}

/// A request that misses the cache asks for a lookup exactly where none is under
/// way for its organisation, and then one is. Those of others are not touched.
pub proof fn law_miss_asks_for_lookup(in_flight: Set<Seq<char>>, org: Seq<char>, other: Seq<char>)
    requires
        other != org,
    ensures
        check_answer(in_flight, org, None).refresh <==> !in_flight.contains(org),
        in_flight_after_check(in_flight, org, None).contains(org),
        in_flight_after_check(in_flight, org, None).contains(other) <==> in_flight.contains(other),
{
}

/// Nothing follows for a prepaid organisation without a balance, and a lookup
/// without an answer to read is an error with its status.
pub proof fn law_missing_balance(wallet: Wallet, reaches_minimum: Option<bool>)
    requires
        !truthy(wallet.metadata.is_suspended),
        !truthy(wallet.metadata.is_kyc),
        wallet.real_time_balance is None || (wallet.real_time_balance matches Some(s) && s@.len()
            == 0),
        wallet.balance is None,
    ensures
        wallet_status(wallet, reaches_minimum) == Err::<BalanceStatus, WalletError>(
            WalletError::MissingBalance,
        ),
{
}

/// A prepaid organisation with a balance passes exactly where it reaches the
/// minimum, whichever of the two balances it is.
pub proof fn law_balance_is_compared(wallet: Wallet, reaches_minimum: bool)
    requires
        !truthy(wallet.metadata.is_suspended),
        !truthy(wallet.metadata.is_kyc),
        (wallet.real_time_balance matches Some(s) && s@.len() > 0) || wallet.balance is Some,
    ensures
        wallet_status(wallet, Some(reaches_minimum)) == Ok::<BalanceStatus, WalletError>(
            if reaches_minimum {
                BalanceStatus::Allowed
            } else {
                BalanceStatus::InsufficientBalance
            },
        ),
        wallet_status(wallet, None) == Err::<BalanceStatus, WalletError>(
            WalletError::UnreadableBalance,
        ),
{
}

} // verus!

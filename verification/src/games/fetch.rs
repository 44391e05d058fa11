//! When a catalog fetch is tried again, and after how long.
use vstd::prelude::*;
use crate::error::{retryable_spec, ProxyNexusError};
use crate::games::urls::{before_any, before_any_of, split_second, split_second_of};
use crate::text::{chars_of, string_of};

verus! {

/// How many times a fetch is tried in all.
pub const MAX_FETCH_ATTEMPTS: u32 = 4;

/// The wait before the first retry; each later one waits twice as long.
pub const FETCH_RETRY_BASE_DELAY_MS: u64 = 2000;

/// How long one fetch may take.
pub const FETCH_TIMEOUT_SECS: u64 = 120;

/// The host a URL names: what follows `://` up to the next `/`; a URL with
/// no `://` is read from its start.
pub open spec fn domain_spec(url: Seq<char>) -> Seq<char> {
    let rest = match split_second(url, "://"@) {
        Some(r) => r,
        None => url,
    };
    before_any(rest, seq!['/'])
}

/// The host a URL names, as errors name it.
pub fn url_domain(url: &str) -> (r: String)
    ensures
        r@ == domain_spec(url@),
{
    let v = chars_of(url);
    let sep = chars_of("://");
    proof {
        reveal_strlit("://");
    }
    let rest = match split_second_of(&v, &sep) {
        Some(r) => r,
        None => v,
    };
    let mut stops: Vec<char> = Vec::new();
    stops.push('/');
    assert(stops@ =~= seq!['/']);
    let host = before_any_of(&rest, &stops);
    string_of(&host)
}

/// The wait before retry number `attempt` (counting from one), in
/// milliseconds: the base delay, doubled for each retry before it.
pub open spec fn retry_delay_spec(attempt: nat) -> nat
    decreases attempt,
{
    if attempt <= 1 {
        FETCH_RETRY_BASE_DELAY_MS as nat
    } else {
        2 * retry_delay_spec((attempt - 1) as nat)
    }
}

/// What follows a fetch that was attempt number `attempt`: `None` when its
/// outcome stands (it succeeded, its failure is not worth another try, or
/// the attempts are spent), else the wait before the next attempt.
pub open spec fn next_attempt_spec(attempt: u32, outcome_retryable: bool) -> Option<nat> {
    if !outcome_retryable || attempt >= MAX_FETCH_ATTEMPTS {
        None
    } else {
        Some(retry_delay_spec(attempt as nat))
    }
}

/// What follows attempt number `attempt` of a fetch whose outcome was
/// `failure` (`None` for a success): `None` when the outcome stands, else
/// the milliseconds to wait before trying again.
pub fn next_attempt(attempt: u32, failure: Option<&ProxyNexusError>) -> (r: Option<u64>)
    requires
        1 <= attempt,
    ensures
        match r {
            Some(ms) => next_attempt_spec(attempt, failure matches Some(e) && retryable_spec(*e)) == Some(
                ms as nat,
            ),
            None => next_attempt_spec(attempt, failure matches Some(e) && retryable_spec(*e)) is None,
        },
{
    let retryable = match failure {
        Some(e) => e.is_retryable_fetch(),
        None => false,
    };
    if !retryable || attempt >= MAX_FETCH_ATTEMPTS {
        return None;
    }
    let mut ms: u64 = FETCH_RETRY_BASE_DELAY_MS;
    let mut k: u32 = 1;
    while k < attempt
        invariant
            1 <= k <= attempt,
            attempt < MAX_FETCH_ATTEMPTS,
            ms as nat == retry_delay_spec(k as nat),
            ms <= 8000,
        decreases attempt - k,
    {
        ms = ms * 2;
        k = k + 1;
        assert(ms <= 8000) by {
            assert(k <= 3);
            assert(ms == 2 * retry_delay_spec((k - 1) as nat));
            lemma_delay_bound(k as nat);
        }
    }
    Some(ms)
}

proof fn lemma_delay_bound(k: nat)
    requires
        1 <= k <= 3,
    ensures
        retry_delay_spec(k) <= 8000,
{
    reveal_with_fuel(retry_delay_spec, 4);
}

/// A fetch is tried at most `MAX_FETCH_ATTEMPTS` times, and each wait is
/// twice the one before it.
pub proof fn lemma_retries_are_bounded_and_back_off(attempt: u32, retryable: bool)
    requires
        attempt >= 1,
    ensures
        attempt >= MAX_FETCH_ATTEMPTS ==> next_attempt_spec(attempt, retryable) is None,
        retryable && attempt + 1 < MAX_FETCH_ATTEMPTS ==> next_attempt_spec((attempt + 1) as u32, retryable)
            == Some(2 * retry_delay_spec(attempt as nat)),
{
}

} // verus!

use proxynexus::error::ProxyNexusError;
use proxynexus::games::fetch::{next_attempt, url_domain, MAX_FETCH_ATTEMPTS};

fn http(status: u16) -> ProxyNexusError {
    ProxyNexusError::HttpStatus { domain: "ringsdb.com".to_string(), status }
}

#[test]
fn a_domain_is_the_host_after_the_scheme() {
    assert_eq!(url_domain("https://ringsdb.com/api/public/cards/"), "ringsdb.com");
    assert_eq!(url_domain("hallofbeorn.com/Export/PlayerCards"), "hallofbeorn.com");
}

#[test]
fn a_retryable_failure_waits_twice_as_long_each_time_until_the_attempts_run_out() {
    let e = http(503);
    assert_eq!(next_attempt(1, Some(&e)), Some(2000));
    assert_eq!(next_attempt(2, Some(&e)), Some(4000));
    assert_eq!(next_attempt(3, Some(&e)), Some(8000));
    assert_eq!(next_attempt(MAX_FETCH_ATTEMPTS, Some(&e)), None);
}

#[test]
fn a_success_or_a_client_error_stands() {
    assert_eq!(next_attempt(1, None), None);
    assert_eq!(next_attempt(1, Some(&http(404))), None);
}

use proxynexus::error::ProxyNexusError;

fn http(status: u16) -> ProxyNexusError {
    ProxyNexusError::HttpStatus { domain: "ringsdb.com".to_string(), status }
}

#[test]
fn server_errors_are_retried() {
    for status in [500, 502, 503, 504] {
        assert!(http(status).is_retryable_fetch(), "{status} should retry");
    }
}

#[test]
fn throttling_and_request_timeout_are_retried() {
    assert!(http(408).is_retryable_fetch());
    assert!(http(429).is_retryable_fetch());
}

#[test]
fn client_errors_are_not_retried() {
    for status in [400, 401, 403, 404, 410] {
        assert!(!http(status).is_retryable_fetch(), "{status} should not retry");
    }
}

#[test]
fn non_fetch_errors_are_not_retried() {
    assert!(!ProxyNexusError::Internal("bad catalog".into()).is_retryable_fetch());
}

#[test]
fn http_status_error_names_the_domain() {
    assert_eq!(http(504).to_string(), "ringsdb.com returned error: 504");
}

#[test]
fn a_timed_out_or_refused_connection_is_retried_and_other_network_failures_are_not() {
    let network = |is_timeout: bool, is_connect: bool| ProxyNexusError::Network {
        message: "down".to_string(),
        is_timeout,
        is_connect,
    };
    assert!(network(true, false).is_retryable_fetch());
    assert!(network(false, true).is_retryable_fetch());
    assert!(!network(false, false).is_retryable_fetch());
}

#[test]
fn each_error_displays_its_kind_before_its_message() {
    assert_eq!(ProxyNexusError::Internal("x".into()).to_string(), "Internal error: x");
    assert_eq!(ProxyNexusError::Database("y".into()).to_string(), "Database error: y");
    assert_eq!(ProxyNexusError::TomlDe("z".into()).to_string(), "Toml Deserialization error: z");
}

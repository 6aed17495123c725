use axum_health::address::{IpAddr, SocketAddr};
use axum_health::config::{HttpCheckConfig, HttpConfig};
use axum_health::health::ComponentDetails;
use axum_health::http::{
    check_reply, check_target, client_for_parts, client_for_target, mock_check, AddressLookup,
    ClientStep, Connection, HttpCheck, HttpHealthCheck, HttpProgress, HttpReply, HttpStep,
    HttpTarget, UrlParts,
};

fn local(port: u16) -> SocketAddr {
    SocketAddr::new(IpAddr::V4(0x7f00_0001), port)
}

fn pinned(step: Result<ClientStep, String>) -> (String, Vec<SocketAddr>) {
    match step {
        Ok(ClientStep::Connect(Connection::Pinned { host, addresses })) => (host, addresses),
        other => panic!("not pinned: {other:?}"),
    }
}

fn target(url: &str, resolve: Option<&str>) -> HttpTarget {
    HttpTarget {
        url: url.to_string(),
        resolve: resolve.map(|name| name.to_string()),
    }
}

fn finished(step: HttpStep) -> HttpCheck {
    match step {
        HttpStep::Finished(report) => report,
        other => panic!("not finished: {other:?}"),
    }
}

#[test]
fn resolved_client_accepts_ip_override() {
    let step = client_for_target(
        "https://internal.example.com/health",
        Some("127.0.0.1"),
        None,
    );
    assert!(step.is_ok());
    let (host, addresses) = pinned(step);
    assert_eq!(host, "internal.example.com");
    assert_eq!(addresses, vec![local(443)]);
}

#[test]
fn resolved_client_accepts_hostname_override() {
    let url = "https://internal.example.com/health";
    match client_for_target(url, Some("localhost"), None) {
        Ok(ClientStep::Lookup { name, port }) => {
            assert_eq!(name, "localhost");
            assert_eq!(port, 443);
        }
        other => panic!("no lookup: {other:?}"),
    }
    let lookup: AddressLookup = Ok(vec![local(443)]);
    let step = client_for_target(url, Some("localhost"), Some(&lookup));
    assert!(step.is_ok());
    assert_eq!(
        pinned(step),
        ("internal.example.com".to_string(), vec![local(443)])
    );
}

#[test]
fn resolved_client_rejects_invalid_url() {
    let step = client_for_target("not a url", Some("127.0.0.1"), None);
    assert!(step.is_err());
    let reason = reqwest::Url::parse("not a url").unwrap_err().to_string();
    assert_eq!(step.unwrap_err(), reason);
}

#[test]
fn resolved_client_rejects_unresolvable_hostname() {
    let lookup: AddressLookup = Err("failed to lookup address information".to_string());
    let step = client_for_target(
        "https://internal.example.com/health",
        Some("does-not-exist.invalid"),
        Some(&lookup),
    );
    assert!(step.is_err());
    assert_eq!(
        step.unwrap_err(),
        "failed to resolve does-not-exist.invalid: failed to lookup address information"
    );
}

#[test]
fn resolved_client_rejects_an_empty_lookup() {
    let lookup: AddressLookup = Ok(vec![]);
    let step = client_for_target("http://example.com", Some("nowhere"), Some(&lookup));
    assert_eq!(
        step.unwrap_err(),
        "failed to resolve nowhere: no addresses found"
    );
}

#[test]
fn the_port_is_that_of_the_url_or_of_its_scheme() {
    for (url, port) in [
        ("http://example.com", 80),
        ("https://example.com", 443),
        ("https://example.com:8443/x", 8443),
    ] {
        let (host, addresses) = pinned(client_for_target(url, Some("::1"), None));
        assert_eq!(host, "example.com");
        assert_eq!(addresses, vec![SocketAddr::new(IpAddr::V6(1), port)]);
    }
}

#[test]
fn urls_without_a_host_or_a_port_cannot_be_redirected() {
    assert_eq!(
        client_for_target("mailto:someone@example.com", Some("127.0.0.1"), None).unwrap_err(),
        "URL has no hostname"
    );
    assert_eq!(
        client_for_target("custom://example.com/", Some("127.0.0.1"), None).unwrap_err(),
        "URL has no known default port"
    );
    let parts = UrlParts {
        host: None,
        port: Some(80),
    };
    assert_eq!(
        client_for_parts(Ok(parts), "127.0.0.1", None).unwrap_err(),
        "URL has no hostname"
    );
    assert_eq!(
        client_for_parts(Err("bad".to_string()), "127.0.0.1", None).unwrap_err(),
        "bad"
    );
}

#[test]
fn plain_targets_go_to_the_host_of_the_url() {
    assert!(matches!(
        client_for_target("not a url", None, None),
        Ok(ClientStep::Connect(Connection::Shared))
    ));
    assert!(matches!(
        check_target(&target("https://example.com", None), 5, &HttpProgress::Start),
        HttpStep::Send { connection: Connection::Shared, timeout_seconds: 5, .. }
    ));
}

#[test]
fn mock_urls_are_answered_at_once() {
    let up = mock_check("mock://up").unwrap();
    assert_eq!((up.url.as_str(), up.status.as_str()), ("mock://up", "UP"));
    assert_eq!((up.http_status, up.error), (Some(200), None));
    let down = mock_check("mock://down").unwrap();
    assert_eq!((down.url.as_str(), down.status.as_str()), ("mock://down", "DOWN"));
    assert_eq!((down.http_status, down.error), (Some(503), None));
    let other = mock_check("mock://other").unwrap();
    assert_eq!(other.status.as_str(), "DOWN");
    assert_eq!(other.http_status, None);
    assert_eq!(other.error.as_deref(), Some("unsupported mock url: mock://other"));
    assert!(mock_check("mock:/up").is_none());
    assert!(mock_check("https://example.com/mock://up").is_none());
}

#[test]
fn mock_urls_are_never_requested() {
    let mock = target("mock://up", Some("localhost"));
    for progress in [
        HttpProgress::Start,
        HttpProgress::LookedUp(Err("no".to_string())),
        HttpProgress::Replied(HttpReply::Answered(500)),
    ] {
        assert_eq!(finished(check_target(&mock, 5, &progress)).status.as_str(), "UP");
    }
}

#[test]
fn replies_are_reported() {
    let report = check_reply("u".to_string(), 30, &HttpReply::TimedOut);
    assert_eq!(report.status.as_str(), "DOWN");
    assert_eq!(report.http_status, None);
    assert_eq!(
        report.error.as_deref(),
        Some("request timed out after 30 seconds")
    );
    let report = check_reply("u".to_string(), 0, &HttpReply::TimedOut);
    assert_eq!(
        report.error.as_deref(),
        Some("request timed out after 0 seconds")
    );
    let report = check_reply("u".to_string(), u64::MAX, &HttpReply::TimedOut);
    assert_eq!(
        report.error.as_deref(),
        Some("request timed out after 18446744073709551615 seconds")
    );
    let report = check_reply("u".to_string(), 5, &HttpReply::Failed("refused".to_string()));
    assert_eq!(report.status.as_str(), "DOWN");
    assert_eq!(report.error.as_deref(), Some("refused"));
}

#[test]
fn only_success_codes_are_up() {
    for (code, status) in [
        (100, "DOWN"),
        (199, "DOWN"),
        (200, "UP"),
        (204, "UP"),
        (299, "UP"),
        (300, "DOWN"),
        (404, "DOWN"),
        (503, "DOWN"),
    ] {
        let report = check_reply("u".to_string(), 5, &HttpReply::Answered(code));
        assert_eq!(report.status.as_str(), status, "{code}");
        assert_eq!(report.http_status, Some(code));
        assert_eq!(report.error, None);
    }
}

#[test]
fn a_target_is_looked_up_requested_and_reported() {
    let named = target("http://example.com/", Some("localhost"));
    match check_target(&named, 5, &HttpProgress::Start) {
        HttpStep::Lookup { name, port } => {
            assert_eq!((name.as_str(), port), ("localhost", 80));
        }
        other => panic!("no lookup: {other:?}"),
    }
    let found = HttpProgress::LookedUp(Ok(vec![local(80)]));
    match check_target(&named, 5, &found) {
        HttpStep::Send {
            url,
            connection: Connection::Pinned { host, addresses },
            timeout_seconds,
        } => {
            assert_eq!(url, "http://example.com/");
            assert_eq!(timeout_seconds, 5);
            assert_eq!(host, "example.com");
            assert_eq!(addresses, vec![local(80)]);
        }
        other => panic!("nothing to send: {other:?}"),
    }
    let missing = HttpProgress::LookedUp(Err("gone".to_string()));
    let report = finished(check_target(&named, 5, &missing));
    assert_eq!(report.url, "http://example.com/");
    assert_eq!(report.status.as_str(), "DOWN");
    assert_eq!(report.error.as_deref(), Some("failed to resolve localhost: gone"));
    let answered = HttpProgress::Replied(HttpReply::Answered(200));
    let report = finished(check_target(&named, 5, &answered));
    assert_eq!(report.url, "http://example.com/");
    assert_eq!(report.status.as_str(), "UP");
}

#[test]
fn the_component_waits_for_all_urls() {
    let config = HttpConfig {
        urls: vec!["mock://up".to_string(), "http://example.com".to_string()],
    };
    let check = HttpHealthCheck::new(&config.checks(), 5);
    assert_eq!(check.name(), "http");
    assert_eq!(check.timeout_seconds, 5);
    assert!(check.check(&[HttpProgress::Start, HttpProgress::Start]).is_none());
    let answered = HttpProgress::Replied(HttpReply::Answered(500));
    let component = check.check(&[HttpProgress::Start, answered]).unwrap();
    assert_eq!(component.status.as_str(), "DOWN");
    match component.details {
        ComponentDetails::Http(details) => {
            assert_eq!(details.urls.len(), 2);
            assert_eq!(details.urls[1].url, "http://example.com");
            assert_eq!(details.urls[1].http_status, Some(500));
        }
        _ => panic!("not about HTTP"),
    }
    let answered = HttpProgress::Replied(HttpReply::Answered(200));
    let component = check.check(&[HttpProgress::Start, answered]).unwrap();
    assert_eq!(component.status.as_str(), "UP");
}

#[test]
fn configured_targets_keep_their_override() {
    let config = [HttpCheckConfig {
        url: "https://example.com".to_string(),
        resolve: Some("10.0.0.1".to_string()),
    }];
    let check = HttpHealthCheck::new(&config, 7);
    assert_eq!(check.checks.len(), 1);
    assert_eq!(check.checks[0].url, "https://example.com");
    assert_eq!(check.checks[0].resolve.as_deref(), Some("10.0.0.1"));
    assert_eq!(check.timeout_seconds, 7);
}

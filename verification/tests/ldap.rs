use axum_health::config::LdapCheckConfig;
use axum_health::health::ComponentDetails;
use axum_health::ldap::{check_server, LdapCheck, LdapHealthCheck, LdapProgress, LdapStep, LdapTarget};

fn target(url: &str) -> LdapTarget {
    LdapTarget {
        url: url.to_string(),
        bind_dn: "cn=healthcheck,dc=example,dc=com".to_string(),
        password: "secret".to_string(),
    }
}

fn finished(step: LdapStep) -> LdapCheck {
    match step {
        LdapStep::Finished(report) => report,
        _ => panic!("something is left to do"),
    }
}

#[test]
fn rejects_non_ldaps_urls() {
    let result = finished(check_server(&target("ldap://localhost:389"), 1, &LdapProgress::Start));

    assert_eq!(result.status.as_str(), "DOWN");
    assert_eq!(
        result.error.as_deref(),
        Some("LDAP URL must use the ldaps:// scheme")
    );
}

#[test]
fn reports_connection_failure_without_exposing_password() {
    let server = target("ldaps://localhost:636");
    match check_server(&server, 1, &LdapProgress::Start) {
        LdapStep::Connect { url, timeout_seconds } => {
            assert_eq!(url, "ldaps://localhost:636");
            assert_eq!(timeout_seconds, 1);
        }
        other => panic!("not connected: {other:?}"),
    }
    let result = finished(check_server(
        &server,
        1,
        &LdapProgress::Connected(Err("connection refused".to_string())),
    ));

    assert_eq!(result.status.as_str(), "DOWN");
    assert!(!result.error.unwrap().contains("secret"));
}

#[test]
fn builds_multiple_targets() {
    let config = vec![
        LdapCheckConfig {
            url: "ldaps://ldap-one.example.com:636".to_string(),
            bind_dn: "cn=healthcheck,dc=example,dc=com".to_string(),
            password: "secret-one".to_string(),
        },
        LdapCheckConfig {
            url: "ldaps://ldap-two.example.com:636".to_string(),
            bind_dn: "cn=healthcheck,dc=example,dc=com".to_string(),
            password: "secret-two".to_string(),
        },
    ];

    let check = LdapHealthCheck::new(&config, 5);
    assert_eq!(check.servers.len(), 2);
    assert_eq!(check.servers[0].url, config[0].url);
    assert_eq!(check.servers[1].url, config[1].url);
    assert_eq!(check.servers[1].bind_dn, config[1].bind_dn);
    assert_eq!(check.servers[1].password, "secret-two");
    assert_eq!(check.timeout_seconds, 5);
}

#[test]
fn a_successful_bind_goes_through_all_steps() {
    let server = target("ldaps://localhost:636");
    match check_server(&server, 5, &LdapProgress::Connected(Ok(()))) {
        LdapStep::Bind {
            bind_dn,
            password,
            timeout_seconds,
        } => {
            assert_eq!(bind_dn, "cn=healthcheck,dc=example,dc=com");
            assert_eq!(password, "secret");
            assert_eq!(timeout_seconds, 5);
        }
        other => panic!("not bound: {other:?}"),
    }
    assert!(matches!(
        check_server(&server, 5, &LdapProgress::Bound(Ok(Ok(())))),
        LdapStep::Unbind
    ));
    let report = finished(check_server(
        &server,
        5,
        &LdapProgress::Unbound {
            bind: Ok(()),
            unbind: Ok(()),
        },
    ));
    assert_eq!(report.url, "ldaps://localhost:636");
    assert_eq!(report.status.as_str(), "UP");
    assert_eq!(report.error, None);
}

#[test]
fn a_refused_bind_is_unbound_and_goes_before_a_failed_unbind() {
    let server = target("ldaps://localhost:636");
    assert!(matches!(
        check_server(&server, 5, &LdapProgress::Bound(Ok(Err("refused".to_string())))),
        LdapStep::Unbind
    ));
    let report = finished(check_server(
        &server,
        5,
        &LdapProgress::Unbound {
            bind: Err("refused".to_string()),
            unbind: Err("gone".to_string()),
        },
    ));
    assert_eq!(report.status.as_str(), "DOWN");
    assert_eq!(report.error.as_deref(), Some("refused"));
    let report = finished(check_server(
        &server,
        5,
        &LdapProgress::Unbound {
            bind: Ok(()),
            unbind: Err("gone".to_string()),
        },
    ));
    assert_eq!(report.status.as_str(), "DOWN");
    assert_eq!(report.error.as_deref(), Some("gone"));
}

#[test]
fn a_bind_without_an_answer_is_not_unbound() {
    let report = finished(check_server(
        &target("ldaps://localhost:636"),
        5,
        &LdapProgress::Bound(Err("timeout".to_string())),
    ));
    assert_eq!(report.status.as_str(), "DOWN");
    assert_eq!(report.error.as_deref(), Some("timeout"));
}

#[test]
fn plain_urls_are_refused_at_every_step() {
    let server = target("http://localhost");
    for progress in [
        LdapProgress::Start,
        LdapProgress::Connected(Ok(())),
        LdapProgress::Bound(Ok(Ok(()))),
        LdapProgress::Unbound {
            bind: Ok(()),
            unbind: Ok(()),
        },
    ] {
        assert_eq!(finished(check_server(&server, 5, &progress)).status.as_str(), "DOWN");
    }
}

#[test]
fn reports_are_the_same_for_other_credentials() {
    let mut other = target("ldaps://localhost:636");
    other.bind_dn = "cn=other".to_string();
    other.password = "hidden".to_string();
    let progress = LdapProgress::Connected(Err("refused".to_string()));
    let one = finished(check_server(&target("ldaps://localhost:636"), 5, &progress));
    let two = finished(check_server(&other, 5, &progress));
    assert_eq!(one.url, two.url);
    assert_eq!(one.status, two.status);
    assert_eq!(one.error, two.error);
}

#[test]
fn the_component_waits_for_all_servers() {
    let check = LdapHealthCheck {
        servers: vec![target("ldaps://one"), target("ldap://two")],
        timeout_seconds: 5,
    };
    assert!(check.check(&[LdapProgress::Start, LdapProgress::Start]).is_none());
    let done = LdapProgress::Unbound {
        bind: Ok(()),
        unbind: Ok(()),
    };
    let component = check.check(&[done, LdapProgress::Start]).unwrap();
    assert_eq!(component.status.as_str(), "DOWN");
    match component.details {
        ComponentDetails::Ldap(details) => {
            assert_eq!(details.servers.len(), 2);
            assert_eq!(details.servers[0].status.as_str(), "UP");
            assert_eq!(details.servers[1].status.as_str(), "DOWN");
        }
        _ => panic!("not about LDAP"),
    }
    let none = LdapHealthCheck {
        servers: vec![],
        timeout_seconds: 5,
    };
    assert_eq!(none.check(&[]).unwrap().status.as_str(), "UP");
}

use axum_health::components::{Components, NamedHealth};
use axum_health::config::{DiskConfig, DnsConfig, HttpConfig};
use axum_health::disk::{DiskHealthCheck, FilesystemStats};
use axum_health::dns::DnsHealthCheck;
use axum_health::health::{
    aggregate, aggregate_response, liveness, readiness, ComponentDetails, ComponentHealth,
    HealthResponse,
};
use axum_health::http::{HttpHealthCheck, HttpProgress};
use axum_health::ping::PingHealthCheck;
use axum_health::status::{combine, Status};

fn http(urls: Vec<String>) -> ComponentHealth {
    let check = HttpHealthCheck::new(&HttpConfig { urls }.checks(), 5);
    let progress: Vec<HttpProgress> = check.checks.iter().map(|_| HttpProgress::Start).collect();
    check.check(&progress).unwrap()
}

fn dns(hosts: Vec<String>, lookups: Vec<Result<Vec<String>, String>>) -> ComponentHealth {
    DnsHealthCheck::new(&DnsConfig { hosts }.checks()).check(lookups)
}

fn names(response: &HealthResponse) -> Vec<&str> {
    let components = response.components.as_ref().unwrap();
    components.entries.iter().map(|entry| entry.name.as_str()).collect()
}

fn component<'a>(response: &'a HealthResponse, name: &str) -> &'a ComponentHealth {
    response.components.as_ref().unwrap().get(name).unwrap()
}

fn plain(name: &str, status: Status) -> NamedHealth {
    NamedHealth {
        name: name.to_string(),
        health: ComponentHealth {
            status,
            details: ComponentDetails::Empty,
        },
    }
}

#[test]
fn health_endpoint_reports_http_statuses() {
    let ok_url = "mock://up".to_string();
    let down_url = "mock://down".to_string();
    let urls = vec![ok_url.clone(), down_url.clone()];

    let response = aggregate_response(
        Some(http(urls)),
        Some(dns(vec![], vec![])),
        Some(DiskHealthCheck::new(&[]).check(vec![])),
        vec![],
    );

    assert_eq!(response.status.as_str(), "DOWN");
    assert_eq!(names(&response), vec!["disk", "dns", "http"]);

    let disk = component(&response, "disk");
    assert_eq!(disk.status.as_str(), "UP");
    assert!(matches!(&disk.details, ComponentDetails::Disk(details) if details.disks.is_empty()));

    let dns = component(&response, "dns");
    assert_eq!(dns.status.as_str(), "UP");
    assert!(matches!(&dns.details, ComponentDetails::Dns(details) if details.hosts.is_empty()));

    let http = component(&response, "http");
    assert_eq!(http.status.as_str(), "DOWN");
    match &http.details {
        ComponentDetails::Http(details) => {
            assert_eq!(details.urls.len(), 2);
            assert_eq!(details.urls[0].url, ok_url);
            assert_eq!(details.urls[0].status.as_str(), "UP");
            assert_eq!(details.urls[0].http_status, Some(200));
            assert_eq!(details.urls[0].error, None);
            assert_eq!(details.urls[1].url, down_url);
            assert_eq!(details.urls[1].status.as_str(), "DOWN");
            assert_eq!(details.urls[1].http_status, Some(503));
            assert_eq!(details.urls[1].error, None);
        }
        _ => panic!("not about HTTP"),
    }
}

#[test]
fn health_endpoint_reports_dns_resolution_statuses() {
    let dns = dns(
        vec!["localhost".to_string(), "no-such-host.invalid".to_string()],
        vec![
            Ok(vec!["127.0.0.1".to_string()]),
            Err("failed to lookup address information".to_string()),
        ],
    );
    let response = aggregate_response(
        Some(http(vec![])),
        Some(dns),
        Some(DiskHealthCheck::new(&[]).check(vec![])),
        vec![],
    );

    let dns = component(&response, "dns");
    assert_eq!(dns.status.as_str(), "DOWN");
    match &dns.details {
        ComponentDetails::Dns(details) => {
            assert_eq!(details.hosts.len(), 2);
            assert_eq!(details.hosts[0].host, "localhost");
            assert_eq!(details.hosts[0].status.as_str(), "UP");
            assert_eq!(details.hosts[1].host, "no-such-host.invalid");
            assert_eq!(details.hosts[1].status.as_str(), "DOWN");
        }
        _ => panic!("not about DNS"),
    }
}

#[test]
fn health_endpoint_reports_disk_statuses() {
    let disks = [
        DiskConfig {
            path: "/tmp".to_string(),
            threshold: 0,
        },
        DiskConfig {
            path: "/tmp".to_string(),
            threshold: 100,
        },
    ];
    let stats = FilesystemStats {
        f_frsize: 4096,
        f_bsize: 4096,
        f_blocks: 1000,
        f_bavail: 400,
    };
    let disk = DiskHealthCheck::new(&disks).check(vec![Ok(stats), Ok(stats)]);
    let response = aggregate_response(
        Some(http(vec![])),
        Some(dns(vec![], vec![])),
        Some(disk),
        vec![],
    );

    let disk = component(&response, "disk");
    assert_eq!(disk.status.as_str(), "DOWN");
    match &disk.details {
        ComponentDetails::Disk(details) => {
            assert_eq!(details.disks[0].path, "/tmp");
            assert_eq!(details.disks[0].threshold, 0);
            assert_eq!(details.disks[0].status.as_str(), "UP");
            assert_eq!(details.disks[1].threshold, 100);
            assert_eq!(details.disks[1].status.as_str(), "DOWN");
        }
        _ => panic!("not about disks"),
    }
}

#[test]
fn liveness_endpoint_stays_up() {
    let response = liveness();
    assert_eq!(response.status.as_str(), "UP");
    assert!(response.components.is_none());
}

#[test]
fn readiness_endpoint_stays_up() {
    let response = readiness();
    assert_eq!(response.status.as_str(), "UP");
    assert!(response.components.is_none());
}

#[test]
fn checks_that_are_not_configured_are_left_out() {
    let response = aggregate_response(None, None, None, vec![]);
    assert_eq!(response.status.as_str(), "UP");
    assert!(names(&response).is_empty());
    let response = aggregate_response(Some(http(vec![])), None, None, vec![]);
    assert_eq!(names(&response), vec!["http"]);
}

#[test]
fn plugins_report_under_their_own_names() {
    let plugins = vec![plain("zebra", Status::Up), plain("cache", Status::Down)];
    let response = aggregate_response(Some(http(vec![])), None, None, plugins);
    assert_eq!(response.status.as_str(), "DOWN");
    assert_eq!(names(&response), vec!["cache", "http", "zebra"]);
    assert_eq!(component(&response, "cache").status.as_str(), "DOWN");
    assert_eq!(component(&response, "zebra").status.as_str(), "UP");
}

#[test]
fn one_component_down_brings_down_the_service() {
    for down in 0..3 {
        let reports = (0..3)
            .map(|i| plain(&format!("c{i}"), if i == down { Status::Down } else { Status::Up }))
            .collect();
        assert_eq!(aggregate(reports).status.as_str(), "DOWN");
    }
    let reports = (0..3).map(|i| plain(&format!("c{i}"), Status::Up)).collect();
    assert_eq!(aggregate(reports).status.as_str(), "UP");
}

#[test]
fn a_later_report_replaces_an_earlier_one() {
    let mut components = Components::new();
    assert!(components.get("a").is_none());
    for (name, status) in [
        ("b", Status::Up),
        ("a", Status::Up),
        ("ab", Status::Up),
        ("b", Status::Down),
    ] {
        let entry = plain(name, status);
        components.insert(entry.name, entry.health);
    }
    let order: Vec<&str> = components.entries.iter().map(|entry| entry.name.as_str()).collect();
    assert_eq!(order, vec!["a", "ab", "b"]);
    assert_eq!(components.get("b").unwrap().status.as_str(), "DOWN");
    assert_eq!(components.get("ab").unwrap().status.as_str(), "UP");
    assert!(components.get("abc").is_none());
    assert!(components.get("").is_none());
}

#[test]
fn names_come_in_the_order_of_their_bytes() {
    let mut given = vec!["z", "Z", "é", "e", "ea", "\u{10ffff}", "\u{ffff}", "日本", "a-b", "a_b"];
    let reports = given.iter().map(|name| plain(name, Status::Up)).collect();
    let response = aggregate(reports);
    given.sort();
    assert_eq!(names(&response), given);
}

#[test]
fn statuses_combine() {
    assert_eq!(combine(&[]).as_str(), "UP");
    assert_eq!(combine(&[Status::Up, Status::Up]).as_str(), "UP");
    assert_eq!(combine(&[Status::Up, Status::Down]).as_str(), "DOWN");
    assert_ne!(Status::Up.as_str(), Status::Down.as_str());
}

#[test]
fn ping_is_always_up() {
    let component = PingHealthCheck.check();
    assert_eq!(component.status.as_str(), "UP");
    assert!(matches!(component.details, ComponentDetails::Empty));
}

use axum_health::config::{DiskConfig, DnsCheckConfig};
use axum_health::disk::{
    check_disk, disk_usage_percent_remaining, FilesystemStats, UsageErrorKind,
};
use axum_health::dns::{check_host, DnsHealthCheck};

fn stats(f_frsize: u64, f_bsize: u64, f_blocks: u64, f_bavail: u64) -> FilesystemStats {
    FilesystemStats {
        f_frsize,
        f_bsize,
        f_blocks,
        f_bavail,
    }
}

fn disk(threshold: u8) -> DiskConfig {
    DiskConfig {
        path: "/data".to_string(),
        threshold,
    }
}

#[test]
fn hosts_with_addresses_are_up() {
    let found = vec!["127.0.0.1".to_string(), "::1".to_string()];
    let report = check_host("localhost".to_string(), Ok(found.clone()));
    assert_eq!(report.host, "localhost");
    assert_eq!(report.status.as_str(), "UP");
    assert_eq!(report.addresses, Some(found));
    assert_eq!(report.error, None);
}

#[test]
fn hosts_without_addresses_are_down() {
    let report = check_host("empty".to_string(), Ok(vec![]));
    assert_eq!(report.status.as_str(), "DOWN");
    assert_eq!(report.addresses, None);
    assert_eq!(report.error.as_deref(), Some("no addresses resolved"));
    let report = check_host("broken".to_string(), Err("no such host".to_string()));
    assert_eq!(report.status.as_str(), "DOWN");
    assert_eq!(report.addresses, None);
    assert_eq!(report.error.as_deref(), Some("no such host"));
}

#[test]
fn configured_hosts_are_checked_in_order() {
    let config = [
        DnsCheckConfig {
            host: "b".to_string(),
        },
        DnsCheckConfig {
            host: "a".to_string(),
        },
    ];
    assert_eq!(DnsHealthCheck::new(&config).hosts, vec!["b", "a"]);
}

fn usage(answer: FilesystemStats) -> (u64, u64, u8) {
    disk_usage_percent_remaining("/", Ok(answer)).unwrap()
}

fn failure(path: &str, answer: Result<FilesystemStats, String>) -> (UsageErrorKind, String) {
    let error = disk_usage_percent_remaining(path, answer).unwrap_err();
    (error.kind, error.message)
}

#[test]
fn usage_is_computed_from_blocks() {
    assert_eq!(usage(stats(4096, 512, 1000, 255)), (4_096_000, 1_044_480, 25));
    assert_eq!(usage(stats(0, 512, 1000, 999)), (512_000, 511_488, 99));
    assert_eq!(usage(stats(1, 1, 3, 3)), (3, 3, 100));
    assert_eq!(usage(stats(1, 1, 1000, 9)), (1000, 9, 0));
}

#[test]
fn sizes_saturate() {
    assert_eq!(
        usage(stats(1 << 40, 1, 1 << 40, 1 << 40)),
        (u64::MAX, u64::MAX, 1)
    );
    assert_eq!(usage(stats(1, 1, 1, 3)), (1, 3, 44));
}

#[test]
fn unusable_answers_are_errors() {
    let no_bytes = "filesystem reports zero total bytes".to_string();
    assert_eq!(
        failure("/", Ok(stats(4096, 4096, 0, 0))),
        (UsageErrorKind::InvalidData, no_bytes.clone())
    );
    assert_eq!(
        failure("/", Ok(stats(0, 0, 10, 10))),
        (UsageErrorKind::InvalidData, no_bytes)
    );
    assert_eq!(
        failure("/missing", Err("No such file".to_string())),
        (UsageErrorKind::System, "No such file".to_string())
    );
    assert_eq!(
        failure("/a\0b", Ok(stats(1, 1, 1, 1))),
        (UsageErrorKind::InvalidInput, "path contains nul byte".to_string())
    );
}

#[test]
fn the_threshold_has_to_be_exceeded() {
    let answer = stats(1, 1, 100, 40);
    for (threshold, status) in [(0, "UP"), (39, "UP"), (40, "DOWN"), (41, "DOWN"), (100, "DOWN")] {
        let report = check_disk(&disk(threshold), Ok(answer));
        assert_eq!(report.status.as_str(), status, "{threshold}");
        assert_eq!(report.path, "/data");
        assert_eq!(report.threshold, threshold);
        assert_eq!(report.total_bytes, Some(100));
        assert_eq!(report.available_bytes, Some(40));
        assert_eq!(report.percent_remaining, Some(40));
        assert_eq!(report.error, None);
    }
}

#[test]
fn a_full_threshold_is_never_exceeded() {
    let report = check_disk(&disk(100), Ok(stats(4096, 4096, 500, 500)));
    assert_eq!(report.percent_remaining, Some(100));
    assert_eq!(report.status.as_str(), "DOWN");
}

#[test]
fn failures_are_reported_without_sizes() {
    let report = check_disk(&disk(10), Err("denied".to_string()));
    assert_eq!(report.path, "/data");
    assert_eq!(report.status.as_str(), "DOWN");
    assert_eq!(report.total_bytes, None);
    assert_eq!(report.available_bytes, None);
    assert_eq!(report.percent_remaining, None);
    assert_eq!(report.threshold, 10);
    assert_eq!(report.error.as_deref(), Some("denied"));
}

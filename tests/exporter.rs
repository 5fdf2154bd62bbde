use gpu_exporter::decimal::{format_u32, parse_u32};
use gpu_exporter::directory::{get_users, get_users_map, uid_range, Account, DirectoryError, UidRange, UserDirectory, UserIdentity};
use gpu_exporter::handlers::{metrics_reply, root_reply, speedtest_body, status_body, Reply, UpstreamFetch, SPEEDTEST_BYTES};
use gpu_exporter::metrics::{count_cards, AliveStatus, KeepAliveConfig, KeepAliveItem, Metrics, TelemetryError, UserLabel};
use gpu_exporter::nvml_metrics::{
    collect_users, sum_usage_by_uid, Attribution, DeviceReading, NvmlDevice, NvmlMetrics, NvmlMetricsCollector,
    NvmlUserUtilization, ProcessUsage, TelemetryReading,
};
use gpu_exporter::watchdog::{check_keep_alive_config, probe_alive, probe_timeout_millis, record_tick, ConfigError};

fn device(index: u32, minor: u32) -> NvmlDevice {
    NvmlDevice {
        index,
        minor_number: minor,
        name: format!("GPU {}", index),
        uuid: format!("GPU-{}", minor),
        temperature: 40 + index,
        power_usage: 70000,
        fan_speed: 30,
        memory_total: 16_000_000_000,
        memory_used: 1_000_000 + index as u64,
        utilization_memory: 12,
        utilization_gpu: 85,
    }
}

fn procs(list: &[(u32, u64)]) -> Vec<ProcessUsage> {
    list.iter().map(|&(uid, used_memory)| ProcessUsage { uid, used_memory }).collect()
}

fn ident(uid: u32, name: &str) -> UserIdentity {
    UserIdentity { uid, name: name.to_string() }
}

fn alice_directory() -> UserDirectory {
    UserDirectory { known: vec![ident(1000, "alice")], blocked: vec![ident(0, "root")] }
}

fn reading(devices: Vec<(NvmlDevice, Vec<ProcessUsage>)>) -> TelemetryReading {
    TelemetryReading {
        version: "535.104.05".to_string(),
        devices: devices.into_iter().map(|(device, processes)| DeviceReading { device, processes }).collect(),
    }
}

fn ready(a: Attribution) -> NvmlMetrics {
    match a {
        Attribution::Ready(m) => m,
        Attribution::NeedsRefresh => panic!("expected a snapshot"),
    }
}

fn snapshot_a() -> NvmlMetrics {
    let collector = NvmlMetricsCollector::new(false, alice_directory());
    let r = reading(vec![(device(0, 0), procs(&[(1000, 1_000_000)])), (device(1, 1), procs(&[(1000, 0)]))]);
    ready(collector.now(&r, false))
}

fn same_series(a: &Metrics, b: &Metrics) -> bool {
    a.nvml_status == b.nvml_status
        && a.version == b.version
        && a.device_info == b.device_info
        && a.fan_speed == b.fan_speed
        && a.memory_total == b.memory_total
        && a.memory_used == b.memory_used
        && a.power_usage == b.power_usage
        && a.temperature == b.temperature
        && a.utilization_gpu == b.utilization_gpu
        && a.utilization_memory == b.utilization_memory
        && a.users_used_memory == b.users_used_memory
        && a.users_used_cards == b.users_used_cards
}

#[test]
fn parse_u32_reads_decimal() {
    assert_eq!(parse_u32("1000"), Some(1000));
    assert_eq!(parse_u32("+60000"), Some(60000));
    assert_eq!(parse_u32("4294967295"), Some(u32::MAX));
    assert_eq!(parse_u32("4294967296"), None);
    assert_eq!(parse_u32(""), None);
    assert_eq!(parse_u32("+"), None);
    assert_eq!(parse_u32("12a"), None);
    assert_eq!(parse_u32("-1"), None);
}

#[test]
fn format_u32_writes_decimal() {
    assert_eq!(format_u32(0), "0");
    assert_eq!(format_u32(4242), "4242");
    assert_eq!(format_u32(u32::MAX), "4294967295");
}

#[test]
fn uid_range_from_login_defs() {
    let text = "# comment\nMAIL_DIR /var/mail\nUID_MIN\t\t\t 1000\nUID_MAX   60000\n";
    assert_eq!(uid_range(text), Ok(UidRange { uid_min: 1000, uid_max: 60000 }));
}

#[test]
fn uid_range_errors() {
    assert_eq!(uid_range("UID_MAX 60000\n"), Err(DirectoryError::MissingUidMin));
    assert_eq!(uid_range("UID_MIN 1000\n"), Err(DirectoryError::MissingUidMax));
    assert_eq!(uid_range("UID_MIN x\nUID_MAX 60000\n"), Err(DirectoryError::MalformedUidMin));
    assert_eq!(uid_range("UID_MIN 1000\nUID_MAX 99999999999\n"), Err(DirectoryError::MalformedUidMax));
}

#[test]
fn accounts_are_partitioned() {
    let accounts = vec![
        Account { uid: 0, name: "root".to_string(), shell: "/bin/bash".to_string() },
        Account { uid: 1000, name: "alice".to_string(), shell: "/bin/bash".to_string() },
        Account { uid: 1001, name: "svc".to_string(), shell: "/sbin/nologin".to_string() },
        Account { uid: 60000, name: "edge".to_string(), shell: "/bin/sh".to_string() },
    ];
    let range = UidRange { uid_min: 1000, uid_max: 60000 };
    let (known, blocked) = get_users(&accounts, range);
    assert_eq!(known.iter().map(|u| u.uid).collect::<Vec<_>>(), vec![1000]);
    assert_eq!(blocked.iter().map(|u| u.uid).collect::<Vec<_>>(), vec![0, 1001, 60000]);
    let dir = get_users_map(&accounts, range);
    assert_eq!(dir.known_name(1000), Some("alice".to_string()));
    assert_eq!(dir.known_name(0), None);
    assert_eq!(dir.blocked_name(1001), Some("svc".to_string()));
    assert_eq!(dir.blocked_name(4242), None);
}

#[test]
fn usage_is_summed_per_uid() {
    let sums = sum_usage_by_uid(&procs(&[(1000, 5), (0, 7), (1000, 10), (2000, 0)]));
    assert_eq!(sums, procs(&[(1000, 15), (0, 7), (2000, 0)]));
    let capped = sum_usage_by_uid(&procs(&[(1, u64::MAX), (1, 3)]));
    assert_eq!(capped, procs(&[(1, u64::MAX)]));
}

#[test]
fn scenario_two_devices_one_user() {
    let snap = snapshot_a();
    let mut m = Metrics::new();
    assert!(m.update(Ok(snap)).is_ok());
    assert_eq!(m.nvml_status, 1);
    assert_eq!(m.device_info.len(), 2);
    assert_eq!(m.device_info[0].minor_number, 0);
    assert_eq!(m.device_info[1].minor_number, 1);
    assert_eq!(m.users_used_memory.len(), 1);
    assert_eq!(m.users_used_memory[0].0, UserLabel { index: 0, uid: 1000, user_name: "alice".to_string() });
    assert_eq!(m.users_used_memory[0].1, 1_000_000);
    assert_eq!(m.users_used_cards.len(), 1);
    assert_eq!(m.users_used_cards[0].0.user_name, "alice");
    assert_eq!(m.users_used_cards[0].1, 1);
}

#[test]
fn device_series_equal_snapshot_fields() {
    let mut m = Metrics::new();
    m.update(Ok(snapshot_a())).unwrap();
    let d = device(1, 1);
    assert_eq!(m.fan_speed[1].1, d.fan_speed as u64);
    assert_eq!(m.memory_total[1].1, d.memory_total);
    assert_eq!(m.memory_used[1].1, d.memory_used);
    assert_eq!(m.power_usage[1].1, d.power_usage as u64);
    assert_eq!(m.temperature[1].1, d.temperature as u64);
    assert_eq!(m.utilization_gpu[1].1, 85);
    assert_eq!(m.utilization_memory[1].1, 12);
    assert_eq!(m.version[0].version, "535.104.05");
}

#[test]
fn ingest_is_idempotent() {
    let mut first = Metrics::new();
    first.update(Ok(snapshot_a())).unwrap();
    let mut twice = Metrics::new();
    twice.update(Ok(snapshot_a())).unwrap();
    twice.update(Ok(snapshot_a())).unwrap();
    assert!(same_series(&first, &twice));
}

#[test]
fn failure_clears_series() {
    let mut m = Metrics::new();
    m.update(Ok(snapshot_a())).unwrap();
    let r = m.update(Err(TelemetryError { message: "device lost".to_string() }));
    assert_eq!(r.unwrap_err().message, "device lost");
    assert_eq!(m.nvml_status, 0);
    assert!(m.version.is_empty() && m.device_info.is_empty() && m.fan_speed.is_empty());
    assert!(m.users_used_memory.is_empty() && m.users_used_cards.is_empty());
}

#[test]
fn zero_usage_never_shown() {
    let snap = NvmlMetrics {
        version: "1".to_string(),
        devices: vec![device(0, 0)],
        users_utilization: vec![
            NvmlUserUtilization { index: 0, uid: 1001, user_name: "bob".to_string(), used_gpu_memory: 0 },
            NvmlUserUtilization { index: 0, uid: 1002, user_name: "carol".to_string(), used_gpu_memory: 9 },
        ],
    };
    let mut m = Metrics::new();
    m.update(Ok(snap)).unwrap();
    assert_eq!(m.users_used_memory.len(), 1);
    assert_eq!(m.users_used_memory[0].0.user_name, "carol");
    let rows = collect_users(
        &reading(vec![(device(0, 0), procs(&[(1000, 0), (1000, 0)]))]).devices,
        &alice_directory(),
        true,
    );
    assert!(rows.is_empty());
}

#[test]
fn unknown_uid_hidden_after_refresh() {
    let mut collector = NvmlMetricsCollector::new(false, alice_directory());
    let r = reading(vec![(device(0, 0), procs(&[(4242, 10), (5353, 20), (1000, 30)]))]);
    assert!(matches!(collector.now(&r, false), Attribution::NeedsRefresh));
    collector.refresh(alice_directory());
    let snap = ready(collector.now(&r, true));
    assert_eq!(snap.users_utilization.len(), 1);
    assert_eq!(snap.users_utilization[0].user_name, "alice");
}

#[test]
fn unknown_uid_shown_by_number() {
    let collector = NvmlMetricsCollector::new(true, alice_directory());
    let r = reading(vec![(device(0, 0), procs(&[(4242, 10), (0, 5)]))]);
    let snap = ready(collector.now(&r, false));
    let names: Vec<String> = snap.users_utilization.iter().map(|u| u.user_name.clone()).collect();
    assert_eq!(names, vec!["4242".to_string(), "root".to_string()]);
}

#[test]
fn refresh_asked_once_per_cycle() {
    let collector = NvmlMetricsCollector::new(false, UserDirectory::empty());
    let r = reading(vec![
        (device(0, 0), procs(&[(7, 1), (8, 1)])),
        (device(1, 1), procs(&[(9, 1)])),
    ]);
    let mut refreshes = 0;
    let mut refreshed = false;
    loop {
        match collector.now(&r, refreshed) {
            Attribution::NeedsRefresh => {
                refreshes += 1;
                refreshed = true;
            }
            Attribution::Ready(snap) => {
                assert!(snap.users_utilization.is_empty());
                break;
            }
        }
    }
    assert_eq!(refreshes, 1);
}

#[test]
fn no_refresh_for_blocked_or_idle_uid() {
    let collector = NvmlMetricsCollector::new(false, alice_directory());
    let r = reading(vec![(device(0, 0), procs(&[(0, 10), (4242, 0)]))]);
    let snap = ready(collector.now(&r, false));
    assert!(snap.users_utilization.is_empty());
}

#[test]
fn cards_count_distinct_devices() {
    let rows = vec![
        (UserLabel { index: 0, uid: 1000, user_name: "alice".to_string() }, 5),
        (UserLabel { index: 1, uid: 1000, user_name: "alice".to_string() }, 5),
        (UserLabel { index: 0, uid: 1003, user_name: "alice".to_string() }, 7),
        (UserLabel { index: 1, uid: 1001, user_name: "bob".to_string() }, 1),
    ];
    let cards = count_cards(&rows);
    assert_eq!(cards.len(), 2);
    assert_eq!((cards[0].0.user_name.as_str(), cards[0].1), ("alice", 2));
    assert_eq!((cards[1].0.user_name.as_str(), cards[1].1), ("bob", 1));
}

fn item(host: &str, url: &str) -> KeepAliveItem {
    KeepAliveItem { hostname: host.to_string(), url: url.to_string() }
}

#[test]
fn keep_alive_config_checks() {
    let ok = KeepAliveConfig { interval: 9, item: vec![item("a", "http://10.0.0.1/"), item("b", "http://b.example:8080/x")] };
    assert_eq!(check_keep_alive_config(&ok), Ok(()));
    let zero = KeepAliveConfig { interval: 0, item: vec![item("a", "http://10.0.0.1/")] };
    assert_eq!(check_keep_alive_config(&zero), Err(ConfigError::ZeroInterval));
    let empty = KeepAliveConfig { interval: 5, item: vec![] };
    assert_eq!(check_keep_alive_config(&empty), Err(ConfigError::NoItems));
    let bad = KeepAliveConfig { interval: 5, item: vec![item("a", "http://10.0.0.1/"), item("b", "http://exa mple/")] };
    assert_eq!(check_keep_alive_config(&bad), Err(ConfigError::InvalidUrl(1)));
    let blank = KeepAliveConfig { interval: 5, item: vec![item("a", "")] };
    assert_eq!(check_keep_alive_config(&blank), Err(ConfigError::InvalidUrl(0)));
}

#[test]
fn probe_timeout_shares_interval() {
    assert_eq!(probe_timeout_millis(9, 3), 3000);
    assert_eq!(probe_timeout_millis(10, 3), 3333);
    assert_eq!(probe_timeout_millis(u64::MAX, 1), u64::MAX);
}

#[test]
fn watchdog_tick_records_each_target() {
    let items = vec![item("a", "http://a/"), item("b", "http://b/"), item("c", "http://c/")];
    let mut status = AliveStatus::new();
    record_tick(&mut status, &items, &vec![Some(200), None, Some(204)]);
    let values: Vec<(String, i64)> = status.alive_status.iter().map(|(l, v)| (l.hostname.clone(), *v)).collect();
    assert_eq!(values, vec![("a".to_string(), 1), ("b".to_string(), 0), ("c".to_string(), 1)]);
    record_tick(&mut status, &items, &vec![Some(500), None, Some(200)]);
    let values: Vec<(String, i64)> = status.alive_status.iter().map(|(l, v)| (l.hostname.clone(), *v)).collect();
    assert_eq!(values, vec![("a".to_string(), 0), ("b".to_string(), 0), ("c".to_string(), 1)]);
    assert!(probe_alive(Some(299)) && !probe_alive(Some(301)) && !probe_alive(None));
}

#[test]
fn metrics_reply_upstream_refused() {
    match metrics_reply(Some(UpstreamFetch::SendFailed), b"local".to_vec()) {
        Reply::InternalError(m) => assert_eq!(m, "Failed to get upstream data"),
        _ => panic!("expected a 500"),
    }
    match metrics_reply(Some(UpstreamFetch::Responded { status: 503, body: None }), b"local".to_vec()) {
        Reply::InternalError(m) => assert_eq!(m, "Failed to fetch upstream data"),
        _ => panic!("expected a 500"),
    }
    match metrics_reply(Some(UpstreamFetch::Responded { status: 200, body: None }), b"local".to_vec()) {
        Reply::InternalError(m) => assert_eq!(m, "Failed to parse upstream data"),
        _ => panic!("expected a 500"),
    }
}

#[test]
fn metrics_reply_merges_upstream_first() {
    match metrics_reply(Some(UpstreamFetch::Responded { status: 200, body: Some(b"up\n".to_vec()) }), b"local".to_vec()) {
        Reply::Success(b) => assert_eq!(b, b"up\nlocal".to_vec()),
        _ => panic!("expected a 200"),
    }
    match metrics_reply(None, b"local".to_vec()) {
        Reply::Success(b) => assert_eq!(b, b"local".to_vec()),
        _ => panic!("expected a 200"),
    }
}

#[test]
fn root_reply_follows_mode() {
    assert!(matches!(root_reply(false, None), Reply::NotFound));
    match root_reply(true, Some(UpstreamFetch::Responded { status: 200, body: Some(b"<html/>".to_vec()) })) {
        Reply::Success(b) => assert_eq!(b, b"<html/>".to_vec()),
        _ => panic!("expected a 200"),
    }
    assert!(matches!(root_reply(true, Some(UpstreamFetch::SendFailed)), Reply::InternalError(_)));
}

#[test]
fn speedtest_payload_is_zeroes() {
    let body = speedtest_body();
    assert_eq!(body.len(), 524288);
    assert_eq!(SPEEDTEST_BYTES, 524288);
    assert!(body.iter().all(|&b| b == 0));
    assert_eq!(status_body(), "ok");
}

#[test]
fn uid_range_refuses_wide_whitespace() {
    assert_eq!(uid_range("UID_MIN\u{a0}1000\nUID_MAX 60000\n"), Err(DirectoryError::WideWhitespace));
    assert_eq!(uid_range("# \u{3000} note\nUID_MIN 1000\nUID_MAX 60000\n"), Err(DirectoryError::WideWhitespace));
    assert_eq!(
        uid_range("# caf\u{e9}\nUID_MIN 1000\nUID_MAX 60000\n"),
        Ok(UidRange { uid_min: 1000, uid_max: 60000 })
    );
}

#[test]
fn shared_minor_number_keeps_one_series() {
    let snap = NvmlMetrics {
        version: "1".to_string(),
        devices: vec![device(0, 7), device(1, 7)],
        users_utilization: vec![],
    };
    let mut m = Metrics::new();
    m.update(Ok(snap)).unwrap();
    assert_eq!(m.device_info.len(), 2);
    assert_eq!(m.memory_used.len(), 1);
    assert_eq!(m.memory_used[0].1, device(1, 7).memory_used);
    assert_eq!(m.temperature[0].1, 41);
}

#[test]
fn same_name_uids_stay_separate_rows() {
    let dir = UserDirectory { known: vec![ident(1000, "alice"), ident(1003, "alice")], blocked: vec![] };
    let collector = NvmlMetricsCollector::new(false, dir);
    let r = reading(vec![(device(0, 0), procs(&[(1000, 5), (1003, 7)])), (device(1, 1), procs(&[(1003, 1)]))]);
    let mut m = Metrics::new();
    m.update(Ok(ready(collector.now(&r, false)))).unwrap();
    let rows: Vec<(u32, u32, u64)> = m.users_used_memory.iter().map(|(l, v)| (l.index, l.uid, *v)).collect();
    assert_eq!(rows, vec![(0, 1000, 5), (0, 1003, 7), (1, 1003, 1)]);
    assert_eq!(m.users_used_cards.len(), 1);
    assert_eq!(m.users_used_cards[0].1, 2);
}

#[test]
fn repeated_user_label_is_overwritten() {
    let snap = NvmlMetrics {
        version: "1".to_string(),
        devices: vec![device(0, 0)],
        users_utilization: vec![
            NvmlUserUtilization { index: 0, uid: 1000, user_name: "alice".to_string(), used_gpu_memory: 3 },
            NvmlUserUtilization { index: 0, uid: 1000, user_name: "alice".to_string(), used_gpu_memory: 8 },
        ],
    };
    let mut m = Metrics::new();
    m.update(Ok(snap)).unwrap();
    assert_eq!(m.users_used_memory.len(), 1);
    assert_eq!(m.users_used_memory[0].1, 8);
}

#[test]
fn watchdog_tick_leaves_other_targets() {
    let mut status = AliveStatus::new();
    status.update(&item("old", "http://old/"), true);
    record_tick(&mut status, &vec![item("a", "http://a/")], &vec![None]);
    let values: Vec<(String, i64)> = status.alive_status.iter().map(|(l, v)| (l.hostname.clone(), *v)).collect();
    assert_eq!(values, vec![("old".to_string(), 1), ("a".to_string(), 0)]);
}

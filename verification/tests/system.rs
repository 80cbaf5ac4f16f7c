use inference_router::config::settings::EnvVars;
use inference_router::system::gpu_watchdog::{
    capture_name, is_card, CoredumpSignature, CoredumpWatcher,
};
use inference_router::system::memcap::{
    compute_cap, configured_reserve_bytes, mem_total_kib, parse_mem_total, parse_systemd_unit,
    plan_cap, CapPlan, DEFAULT_SYSTEM_RESERVE_BYTES,
};
use inference_router::system::stats::{
    parse_kb, pick_cpu_sensor, read_cpu_sample, read_temp_milli, CpuSample, CpuUse, Sensor,
    SystemTracker,
};
use inference_router::GIB;

#[test]
fn cap_leaves_exactly_the_reserve() {
    // 64 GiB → 40 GiB cap; 128 GiB → 104 GiB cap.
    let cap = compute_cap(64 * GIB, 24 * GIB).unwrap();
    assert_eq!(cap.max, 40 * GIB);
    assert!(cap.high < cap.max && cap.high >= 38 * GIB);

    assert_eq!(compute_cap(128 * GIB, 24 * GIB).unwrap().max, 104 * GIB);
}

#[test]
fn no_cap_when_ram_below_reserve_plus_floor() {
    assert!(compute_cap(24 * GIB, 24 * GIB).is_none());
    assert!(compute_cap(25 * GIB, 24 * GIB).is_none()); // only 1 GiB left
}

#[test]
fn parses_mem_total_and_unit() {
    assert_eq!(
        parse_mem_total("MemFree: 100 kB\nMemTotal:   65390216 kB\n"),
        Some(65390216 * 1024)
    );
    assert_eq!(
        parse_systemd_unit(
            "0::/user.slice/user-1000.slice/user@1000.service/app.slice/inference-router.service\n"
        )
        .as_deref(),
        Some("inference-router.service")
    );
    assert_eq!(parse_systemd_unit("0::/user.slice/foo\n"), None);
}

#[test]
fn odd_reports_are_read_as_they_stand() {
    assert_eq!(mem_total_kib("MemTotal:\n"), None);
    assert_eq!(mem_total_kib("MemTotal: x kB\nMemTotal: 5 kB\n"), None);
    assert_eq!(mem_total_kib(""), None);
    assert_eq!(parse_systemd_unit(""), None);
    assert_eq!(parse_systemd_unit("0::/a/b.scope//\r\nrest"), Some("b.scope".to_string()));
    assert_eq!(parse_systemd_unit("plain.service"), Some("plain.service".to_string()));
    let small = compute_cap(10 * GIB, 8 * GIB).unwrap();
    assert_eq!((small.max, small.high), (2 * GIB, 2 * GIB - 2 * GIB / 20));
}

#[test]
fn the_limits_are_set_where_they_can_be() {
    let mem = "MemTotal: 67108864 kB\n";
    let groups = "0::/user.slice/inference-router.service\n";
    match plan_cap(Some(mem), Some(groups), 24 * GIB) {
        CapPlan::Apply { cap, arguments } => {
            assert_eq!(cap.max, 40 * GIB);
            assert_eq!(
                arguments,
                vec![
                    "--user".to_string(),
                    "set-property".to_string(),
                    "inference-router.service".to_string(),
                    format!("MemoryMax={}", 40 * GIB),
                    format!("MemoryHigh={}", 38 * GIB),
                    "MemorySwapMax=infinity".to_string(),
                ]
            );
        }
        other => panic!("{other:?}"),
    }
    assert!(matches!(plan_cap(None, Some(groups), 0), CapPlan::NoTotal));
    assert!(matches!(plan_cap(Some(mem), Some(groups), 63 * GIB), CapPlan::TooSmall));
    assert!(matches!(plan_cap(Some(mem), None, 0), CapPlan::NoUnit));
}

#[test]
fn the_environment_sets_the_reserve() {
    let env = |v: &str| EnvVars {
        vars: vec![("INFERENCE_ROUTER_SYSTEM_RESERVE_GIB".to_string(), v.to_string())],
    };
    assert_eq!(configured_reserve_bytes(&env(" 8 ")), 8 * GIB);
    assert_eq!(configured_reserve_bytes(&env("many")), DEFAULT_SYSTEM_RESERVE_BYTES);
    assert_eq!(DEFAULT_SYSTEM_RESERVE_BYTES, 24 * GIB);
}

#[test]
fn cpu_sample_first_call_is_zero() {
    let mut tracker = SystemTracker::default();
    let s = tracker.sample_from(Some("cpu  100 0 50 1000 0 0 0 0 0 0\n"), None, None);
    assert_eq!(s.cpu.busy, 0);
}

#[test]
fn cpu_sample_computes_delta() {
    let mut tracker = SystemTracker::default();
    // First sample: 100 busy, 1000 idle → total 1100.
    tracker.sample_from(Some("cpu  100 0 0 1000 0 0 0 0 0 0\n"), None, None);
    // Next sample: +100 busy user, +0 idle → 100% busy over the delta.
    let s = tracker.sample_from(Some("cpu  200 0 0 1000 0 0 0 0 0 0\n"), None, None);
    assert_eq!(s.cpu, CpuUse { busy: 100, total: 100 });
    // Next: +100 busy, +100 idle → 50%.
    let s = tracker.sample_from(Some("cpu  300 0 0 1100 0 0 0 0 0 0\n"), None, None);
    assert_eq!(s.cpu, CpuUse { busy: 100, total: 200 });
    // A report that cannot be read counts for nothing.
    let s = tracker.sample_from(Some("cpu0 1 2 3 4\n"), None, None);
    assert_eq!(s.cpu, CpuUse { busy: 0, total: 0 });
    assert_eq!(tracker.prev_cpu, Some(CpuSample { total: 1400, idle: 1100 }));
}

#[test]
fn meminfo_parses_used_and_total() {
    let mut tracker = SystemTracker::default();
    let s = tracker.sample_from(
        None,
        Some("MemTotal:       1000 kB\nMemFree:  100 kB\nMemAvailable:   400 kB\nBuffers: 0 kB\n"),
        None,
    );
    assert_eq!(s.ram_total, 1000 * 1024);
    assert_eq!(s.ram_used, (1000 - 400) * 1024);
}

fn sensor(name: &str, has_temp: bool) -> Sensor {
    Sensor { name: Some(name.to_string()), has_temp }
}

#[test]
fn resolve_cpu_temp_prefers_k10temp() {
    let sensors = vec![sensor("nvme\n", true), sensor("coretemp\n", true), sensor("k10temp\n", true)];
    assert_eq!(pick_cpu_sensor(&sensors), Some(2));
    let sensors = vec![sensor("my_cpu_thing", true), sensor("coretemp", false), sensor("k10temp", false)];
    assert_eq!(pick_cpu_sensor(&sensors), Some(0));
    let sensors = vec![Sensor { name: None, has_temp: true }, sensor("nvme", true)];
    assert_eq!(pick_cpu_sensor(&sensors), None);
}

#[test]
fn cpu_temp_is_read_and_scaled_to_celsius() {
    let mut tracker = SystemTracker::default();
    let s = tracker.sample_from(None, None, Some("68500\n"));
    assert_eq!(s.cpu_temp_milli, Some(68_500));
    assert_eq!(read_temp_milli(" -5 "), Some(-5));
    assert_eq!(read_temp_milli("-9223372036854775808"), Some(i64::MIN));
    assert_eq!(read_temp_milli("9223372036854775808"), None);
}

#[test]
fn numbers_in_reports_are_read() {
    assert_eq!(parse_kb("   12 kB"), 12);
    assert_eq!(parse_kb("none"), 0);
    assert_eq!(parse_kb(""), 0);
    assert_eq!(read_cpu_sample("cpu  1 2 3\n"), None);
    assert_eq!(
        read_cpu_sample("cpu  1 2 3 4 5 6 7 8 9 10 11\ncpu0 1"),
        Some(CpuSample { total: 55, idle: 9 })
    );
    assert_eq!(read_cpu_sample("cpu  1 x 3 4 5"), Some(CpuSample { total: 13, idle: 5 }));
}

fn dump(path: &str, mtime_secs: u64) -> CoredumpSignature {
    CoredumpSignature { path: path.to_string(), mtime_secs }
}

#[test]
fn each_hang_is_reported_once() {
    let mut w = CoredumpWatcher::new("/sys/class/drm", vec![dump("card0", 1)]);
    assert!(w.poll_new(&vec![dump("card0", 1)]).is_empty());
    let fresh = w.poll_new(&vec![dump("card0", 1), dump("card0", 2), dump("card0", 2)]);
    assert_eq!(fresh.len(), 1);
    assert_eq!((fresh[0].path.as_str(), fresh[0].mtime_secs), ("card0", 2));
    assert!(w.poll_new(&vec![dump("card0", 2)]).is_empty());
    assert_eq!(w.drm_root, "/sys/class/drm");
}

#[test]
fn cards_are_told_from_connectors() {
    assert!(is_card("card0"));
    assert!(!is_card("card1-DP-1"));
    assert!(!is_card("renderD128"));
    assert_eq!(capture_name(17), "devcoredump-17.bin");
}

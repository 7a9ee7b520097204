use cyberdeckstr::system_stats::{
    gpu_busy_percent, is_drm_card_name, parse_cpu_stats, parse_meminfo, parse_network_bytes,
    pick_largest_vram, sysfs_counter, CpuReading,
};

#[test]
fn cpu_line_sums_times() {
    let stat = "cpu  100 20 30 400 50 6 7 8 9 10\ncpu0 1 2 3 4 5 6 7 8\nintr 5\n";
    assert_eq!(parse_cpu_stats(stat), CpuReading::Times { total: 621, idle: 450 });
}

#[test]
fn short_cpu_line_uses_zero_for_missing_fields() {
    assert_eq!(parse_cpu_stats("cpu 1 2 3 4\ncpu 1 2 3 4 x"), CpuReading::Times { total: 10, idle: 4 });
}

#[test]
fn missing_cpu_line() {
    assert_eq!(parse_cpu_stats("cpu0 1 2 3 4 5\nintr 1"), CpuReading::Missing);
    assert_eq!(parse_cpu_stats(""), CpuReading::Missing);
}

#[test]
fn overflowing_cpu_counters() {
    let line = format!("cpu {} {} 0 0", u64::MAX, 1);
    assert_eq!(parse_cpu_stats(&line), CpuReading::Overflow);
}

#[test]
fn meminfo_totals() {
    let info = "MemTotal:       16318848 kB\nMemFree:  1 kB\nMemAvailable:   8000000 kB\nMemTotal: 5 kB\n";
    assert_eq!(parse_meminfo(info), Some((16318848, 8000000)));
    assert_eq!(parse_meminfo("MemTotal: 0 kB\nMemAvailable: 1 kB"), None);
    assert_eq!(parse_meminfo("MemTotal: 10 kB"), None);
    assert_eq!(parse_meminfo("MemAvailable: 3 kB\nMemTotal: 9 kB"), Some((9, 3)));
    assert_eq!(parse_meminfo("MemTotal: x kB\nMemAvailable: 3 kB"), None);
}

#[test]
fn network_bytes_skip_loopback() {
    let dev = "Inter-|   Receive |  Transmit\n face |bytes packets errs drop fifo frame compressed multicast|bytes\n    lo: 500 1 0 0 0 0 0 0 500 1 0 0 0 0 0 0\n  eth0: 1000 2 0 0 0 0 0 0 250 3 0 0 0 0 0 0\n wlan0: 7 1 0 0 0 0 0 0 3 1 0 0 0 0 0 0\n";
    assert_eq!(parse_network_bytes(dev), Some(1260));
    assert_eq!(parse_network_bytes(""), Some(0));
}

#[test]
fn network_bytes_overflow() {
    let dev = format!("eth0: {} 0 0 0 0 0 0 0 1 0\n", u64::MAX);
    assert_eq!(parse_network_bytes(&dev), None);
}

#[test]
fn gpu_readings() {
    assert_eq!(gpu_busy_percent(Some("37\n")), 37);
    assert_eq!(gpu_busy_percent(Some("250")), 100);
    assert_eq!(gpu_busy_percent(Some("300")), 0);
    assert_eq!(gpu_busy_percent(None), 0);
    assert_eq!(sysfs_counter(Some(" 8589934592\n")), 8589934592);
    assert_eq!(sysfs_counter(Some("n/a")), 0);
    assert_eq!(sysfs_counter(None), 0);
}

#[test]
fn card_names() {
    assert!(is_drm_card_name("card0"));
    assert!(is_drm_card_name("card12"));
    assert!(!is_drm_card_name("card0-DP-1"));
    assert!(!is_drm_card_name("renderD128"));
}

#[test]
fn largest_vram_first_wins() {
    assert_eq!(pick_largest_vram(&vec![0, 4, 8, 8, 2]), Some(2));
    assert_eq!(pick_largest_vram(&vec![0, 0]), None);
    assert_eq!(pick_largest_vram(&vec![]), None);
}

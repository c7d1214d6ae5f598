use devtop::devices::{
    device_name, is_loopback, is_system_volume, name_or_path, shown_disks, shown_interfaces,
    sort_disks_by_name,
};
use devtop::layout::{areas_from, build, Area};
use devtop::text::{contains, same_text, starts_with, take_chars, trim_leading};
use devtop::types::{DiskInfo, NetworkInfo};
use devtop::units::{byte_unit, ByteUnit};

#[test]
fn substring_and_prefix() {
    assert!(contains("cargo build", "build"));
    assert!(contains("abc", ""));
    assert!(!contains("ab", "abc"));
    assert!(!contains("abd", "abc"));
    assert!(starts_with("/System/Volumes/Data", "/System/Volumes"));
    assert!(!starts_with("/Sys", "/System"));
    assert!(same_text("lo", "lo"));
    assert!(!same_text("lo", "lo0"));
}

#[test]
fn trimming_and_truncation() {
    assert_eq!(trim_leading("///a/b", '/'), "a/b");
    assert_eq!(trim_leading("a", '/'), "a");
    assert_eq!(take_chars("héllo wörld!!", 7), "héllo w");
    assert_eq!(take_chars("ab", 12), "ab");
}

#[test]
fn units_thresholds() {
    assert_eq!(byte_unit(0), ByteUnit::Bytes);
    assert_eq!(byte_unit(1023), ByteUnit::Bytes);
    assert_eq!(byte_unit(1024), ByteUnit::Kilobytes);
    assert_eq!(byte_unit(1024 * 1024 - 1), ByteUnit::Kilobytes);
    assert_eq!(byte_unit(1024 * 1024), ByteUnit::Megabytes);
    assert_eq!(byte_unit(1024 * 1024 * 1024), ByteUnit::Gigabytes);
    assert_eq!(byte_unit(u64::MAX), ByteUnit::Gigabytes);
}

#[test]
fn loopback_and_system_volumes() {
    assert!(is_loopback("lo"));
    assert!(is_loopback("lo0"));
    assert!(!is_loopback("eth0"));
    assert!(!is_loopback("lo1"));
    assert!(is_system_volume("/System/Volumes/VM"));
    assert!(!is_system_volume("/"));
}

fn disk(name: &str, mount: &str) -> DiskInfo {
    DiskInfo { name: name.to_string(), mount_point: mount.to_string(), read_bps: 0, write_bps: 0 }
}

#[test]
fn disks_sorted_by_name_stably() {
    let disks = vec![disk("sdb", "/b"), disk("sda", "/a1"), disk("nvme0", "/"), disk("sda", "/a2"), disk("sd", "/x")];
    let sorted = sort_disks_by_name(disks);
    let order: Vec<(&str, &str)> = sorted.iter().map(|d| (d.name.as_str(), d.mount_point.as_str())).collect();
    assert_eq!(order, [("nvme0", "/"), ("sd", "/x"), ("sda", "/a1"), ("sda", "/a2"), ("sdb", "/b")]);
}

#[test]
fn device_names() {
    assert_eq!(device_name("/dev/disk1s1"), "disk1s1");
    assert_eq!(device_name("sda"), "sda");
    assert_eq!(device_name("/"), "/");
}

#[test]
fn device_name_fallback() {
    assert_eq!(name_or_path(Some("sda1".to_string()), "/dev/sda1"), "sda1");
    assert_eq!(name_or_path(None, "/"), "/");
}

fn iface(name: &str) -> NetworkInfo {
    NetworkInfo { name: name.to_string(), rx_bps: 1, tx_bps: 2 }
}

#[test]
fn shown_interfaces_leave_out_loopback() {
    let shown = shown_interfaces(vec![iface("lo"), iface("eth0"), iface("lo0"), iface("wlan0"), iface("lo1")]);
    let names: Vec<&str> = shown.iter().map(|n| n.name.as_str()).collect();
    assert_eq!(names, ["eth0", "wlan0", "lo1"]);
}

#[test]
fn shown_disks_leave_out_system_volumes_and_sort() {
    let shown = shown_disks(vec![
        disk("sdb", "/data"),
        disk("disk3s1", "/System/Volumes/Data"),
        disk("disk1", "/"),
        disk("disk3s5", "/System/Volumes/VM"),
        disk("sda", "/home"),
    ]);
    let names: Vec<&str> = shown.iter().map(|d| d.name.as_str()).collect();
    assert_eq!(names, ["disk1", "sda", "sdb"]);
}

#[test]
fn panel_layout_hides_docker_without_it() {
    let screen = Area { x: 0, y: 0, width: 80, height: 40 };
    let without = build(screen, false);
    assert!(without.docker.is_none());
    assert_eq!(without.cpu, Area { x: 0, y: 0, width: 80, height: 6 });
    assert_eq!(without.memory, Area { x: 0, y: 6, width: 80, height: 5 });
    assert_eq!(without.network, Area { x: 0, y: 11, width: 80, height: 6 });
    assert_eq!(without.process, Area { x: 0, y: 17, width: 80, height: 23 });
    let with = build(screen, true);
    assert_eq!(with.docker, Some(Area { x: 0, y: 32, width: 80, height: 8 }));
    assert_eq!(with.process, Area { x: 0, y: 17, width: 80, height: 15 });
    let parts: Vec<Area> = (0..5).map(|i| Area { x: i, y: 0, width: 1, height: 1 }).collect();
    let a = areas_from(&parts, true);
    assert_eq!(a.cpu.x, 0);
    assert_eq!(a.process.x, 3);
    assert_eq!(a.docker.map(|d| d.x), Some(4));
    assert!(areas_from(&parts[..4].to_vec(), false).docker.is_none());
}

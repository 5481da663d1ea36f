use coreos_installer::devguard::{report_busy_partitions, sort_busy_partitions, BusyPartitionInfo};
use coreos_installer::errors::ErrorKind;
use coreos_installer::pipeline::{
    check_ignition_config, check_source, install_action, install_step, plan_network_config_copy,
    postprocess_plan, DirEntryInfo, InstallAction, InstallConfig, InstallState, PostprocessStep,
};
use coreos_installer::wipe_block;

fn empty_config() -> InstallConfig {
    InstallConfig {
        device: "/dev/vda".to_string(),
        insecure: false,
        preserve_on_error: false,
        has_ignition: false,
        ignition_hash: None,
        firstboot_kargs: None,
        append_kargs: None,
        delete_kargs: None,
        platform: None,
        network_config: None,
    }
}

#[test]
fn test_check_source() {
    let e = check_source(0, false, false, false).unwrap_err();
    assert!(matches!(e.kind, ErrorKind::NoArtifactFound));

    let e = check_source(2, true, false, false).unwrap_err();
    assert!(matches!(e.kind, ErrorKind::AmbiguousArtifact));

    let e = check_source(1, false, true, false).unwrap_err();
    assert!(matches!(e.kind, ErrorKind::MissingSignature));

    // Insecure mode proceeds, with a warning owed to the user.
    assert_eq!(check_source(1, false, true, true).unwrap(), true);
    assert_eq!(check_source(1, true, true, false).unwrap(), false);
    assert_eq!(check_source(1, false, false, false).unwrap(), false);
}

#[test]
fn test_postprocess_plan_order() {
    let mut c = empty_config();
    assert_eq!(postprocess_plan(&c), vec![]);

    c.network_config = Some("/etc/nm".to_string());
    c.has_ignition = true;
    c.delete_kargs = Some(vec!["foo".to_string()]);
    c.platform = Some("openstack".to_string());
    let plan = postprocess_plan(&c);
    assert_eq!(
        plan,
        vec![
            PostprocessStep::WriteIgnition,
            PostprocessStep::EditKargs,
            PostprocessStep::WritePlatform,
            PostprocessStep::CopyNetworkConfig,
        ]
    );

    c.firstboot_kargs = Some("ip=dhcp".to_string());
    let plan = postprocess_plan(&c);
    assert_eq!(plan.len(), 5);
    assert_eq!(plan[1], PostprocessStep::WriteFirstbootKargs);
}

#[test]
fn test_state_machine_success_path() {
    let c = empty_config();
    let mut s = InstallState::Start;
    assert_eq!(install_action(s, &c), InstallAction::AcquireDevice);
    s = install_step(s, true, &c);
    assert_eq!(s, InstallState::DeviceAcquired);
    assert_eq!(install_action(s, &c), InstallAction::WriteImage);
    s = install_step(s, true, &c);
    assert_eq!(s, InstallState::ImageWritten);
    assert_eq!(install_action(s, &c), InstallAction::RereadTable);
    s = install_step(s, true, &c);
    assert_eq!(s, InstallState::TableReread);
    assert_eq!(install_action(s, &c), InstallAction::Settle);
    s = install_step(s, true, &c);
    assert_eq!(s, InstallState::Settled);
    // No postprocessing configured: straight to done.
    assert_eq!(install_action(s, &c), InstallAction::Finish);
    s = install_step(s, true, &c);
    assert_eq!(s, InstallState::Done);
}

#[test]
fn test_state_machine_postprocess_path() {
    let mut c = empty_config();
    c.platform = Some("openstack".to_string());
    let s = install_step(InstallState::Settled, true, &c);
    assert_eq!(s, InstallState::Postprocessed);
    assert_eq!(install_action(s, &c), InstallAction::Finish);
    assert_eq!(install_step(s, true, &c), InstallState::Done);
}

#[test]
fn test_failed_write_wipes_by_default() {
    let c = empty_config();
    // Failure after acquisition routes through recovery, whose action
    // destroys the partition table, and ends failed.
    let s = install_step(InstallState::DeviceAcquired, false, &c);
    assert_eq!(s, InstallState::Recovering);
    assert_eq!(install_action(s, &c), InstallAction::ClearPartitionTable);
    assert_eq!(install_step(s, true, &c), InstallState::Failed);
    assert_eq!(install_step(s, false, &c), InstallState::Failed);
}

#[test]
fn test_failed_write_preserves_on_request() {
    let mut c = empty_config();
    c.preserve_on_error = true;
    let s = install_step(InstallState::Settled, false, &c);
    assert_eq!(s, InstallState::Recovering);
    assert_eq!(install_action(s, &c), InstallAction::Finish);
    assert_eq!(install_step(s, true, &c), InstallState::Failed);
}

#[test]
fn test_failure_before_acquisition_is_terminal() {
    let c = empty_config();
    assert_eq!(install_step(InstallState::Start, false, &c), InstallState::Failed);
}

#[test]
fn test_wipe_block_covers_first_mib() {
    let b = wipe_block();
    assert_eq!(b.len(), 1024 * 1024);
    assert_eq!(b[0], 0);
    assert_eq!(b[b.len() - 1], 0);
    assert!(b.iter().all(|&x| x == 0));
}

#[test]
fn test_check_ignition_config() {
    let data = vec![b'a', b'b', b'c'];
    assert!(check_ignition_config(&None, &data).is_ok());

    let h = coreos_installer::hash::IgnitionHash::try_parse(
        "sha512-ddaf35a193617abacc417349ae20413112e6fa4e89a97ea20a9eeee64b55d39a2192992a274fc1a836ba3c23a3feebbd454d4423643ce80e2a9ac94fa54ca49f",
    )
    .unwrap();
    assert!(check_ignition_config(&Some(h), &data).is_ok());

    let h = coreos_installer::hash::IgnitionHash::try_parse(
        "sha512-cf83e1357eefb8bdf1542850d66d8007d620e4050b5715dc83f4a921d36ce9ce47d0d13c5d85f2b0ff8318d2877eec2f63b931bd47417a81a538327af927da3e",
    )
    .unwrap();
    let e = check_ignition_config(&Some(h), &data).unwrap_err();
    assert!(matches!(e.kind, ErrorKind::HashMismatch { .. }));
}

#[test]
fn test_network_config_copy_plan() {
    let entries = vec![
        DirEntryInfo { name: "eth0.nmconnection".to_string(), is_file: true },
        DirEntryInfo { name: "subdir".to_string(), is_file: false },
        DirEntryInfo { name: "eth1.nmconnection".to_string(), is_file: true },
    ];
    let plan = plan_network_config_copy(&entries);
    assert_eq!(plan, vec!["eth0.nmconnection".to_string(), "eth1.nmconnection".to_string()]);
}

fn part(path: &str, mp: Option<&str>, swap: bool, holders: &[&str]) -> BusyPartitionInfo {
    BusyPartitionInfo {
        path: path.to_string(),
        mountpoint: mp.map(|s| s.to_string()),
        swap,
        holders: holders.iter().map(|s| s.to_string()).collect(),
    }
}

#[test]
fn test_busy_partition_report() {
    let parts = vec![
        part("/dev/vda3", None, true, &[]),
        part("/dev/vda1", Some("/boot"), false, &["pid 321"]),
        part("/dev/vda2", None, false, &["pid 100", "pid 200"]),
    ];
    let sorted = sort_busy_partitions(parts);
    assert_eq!(sorted[0].path, "/dev/vda1");
    assert_eq!(sorted[1].path, "/dev/vda2");
    assert_eq!(sorted[2].path, "/dev/vda3");

    let lines = report_busy_partitions("/dev/vda", &sorted);
    assert_eq!(
        lines,
        vec![
            "Partitions in use on /dev/vda:".to_string(),
            "    /dev/vda1 mounted on /boot".to_string(),
            "    /dev/vda1 in use by pid 321".to_string(),
            "    /dev/vda2 in use by pid 100".to_string(),
            "    /dev/vda2 in use by pid 200".to_string(),
            "    /dev/vda3 is swap device".to_string(),
        ]
    );
}

#[test]
fn test_busy_partition_sort_equal_keys() {
    let parts = vec![
        part("/dev/vdb1", None, true, &[]),
        part("/dev/vda1", Some("/boot"), false, &[]),
        part("/dev/vdb1", None, false, &["pid 7"]),
    ];
    let sorted = sort_busy_partitions(parts);
    assert_eq!(sorted.len(), 3);
    assert_eq!(sorted[0].path, "/dev/vda1");
    assert_eq!(sorted[1].path, "/dev/vdb1");
    assert_eq!(sorted[2].path, "/dev/vdb1");
}

#[test]
fn test_busy_partition_report_empty() {
    let lines = report_busy_partitions("/dev/vda", &Vec::new());
    assert!(lines.is_empty());
}

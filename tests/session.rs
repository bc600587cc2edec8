use icicle::disk::{BootMode, FileSystemKind, InstallError, TableKind};
use icicle::install::{Install, Outcome, Step};
use icicle::mount::MountTask;
use icicle::plan::DiskTask;
use icicle::privilege::{exit_status, require_root, EXIT_FAILED, EXIT_NOT_ROOT};
use icicle::schema::CustomPartition;

const SECTORS_250GB: u64 = 250_000_000_000 / 512;

fn custom(format: Option<&str>, mountpoint: Option<&str>, device: &str) -> CustomPartition {
    CustomPartition {
        format: format.map(|s| s.to_string()),
        mountpoint: mountpoint.map(|s| s.to_string()),
        device: device.to_string(),
    }
}

fn step_name(s: &Step) -> String {
    match s {
        Step::OpenDisk { disk } => format!("open {}", disk),
        Step::Disk(DiskTask::CreateTable { disk, table }) => format!("table {} {:?}", disk, table),
        Step::Disk(DiskTask::AddPartition { partition, .. }) => {
            format!("add {} {:?} {}", partition.mountpoint, partition.fs, partition.esp)
        }
        Step::Disk(DiskTask::Modify { partition, format, esp, .. }) => {
            format!("modify {} {:?} {}", partition, format, esp)
        }
        Step::Disk(DiskTask::Commit { disk }) => format!("commit {}", disk),
        Step::Disk(DiskTask::FormatNew { disk }) => format!("format {}", disk),
        Step::Disk(DiskTask::Reload { disk }) => format!("reload {}", disk),
        Step::Mount(MountTask::CreateDir { mountpoint }) => format!("mkdir {}", mountpoint),
        Step::Mount(MountTask::Mount { device, mountpoint, restricted }) => {
            format!("mount {} {} {}", device, mountpoint, restricted)
        }
        Step::Mount(MountTask::SwapOn { device }) => format!("swapon {}", device),
    }
}

fn opened(partitions: &[&str]) -> Outcome {
    Outcome::Opened {
        sectors: SECTORS_250GB,
        sector_size: 512,
        partitions: partitions.iter().map(|s| s.to_string()).collect(),
    }
}

/// Runs the session, answering each step with `answer`, and lists the steps.
fn drive(run: &mut Install, mut answer: impl FnMut(&Step) -> Outcome) -> Vec<String> {
    let mut seen = vec![];
    let mut guard = 0;
    while let Some(step) = run.current() {
        seen.push(step_name(&step));
        let o = answer(&step);
        run.report(o);
        guard += 1;
        assert!(guard < 100);
    }
    seen
}

#[test]
fn whole_disk_efi_install() {
    let mut run = Install::full_disk("/dev/sda".to_string(), BootMode::Efi);
    let seen = drive(&mut run, |s| match s {
        Step::OpenDisk { .. } => opened(&[]),
        Step::Disk(DiskTask::Reload { .. }) => Outcome::Reloaded {
            mounts: vec![
                ("/dev/sda1".to_string(), "/boot".to_string()),
                ("/dev/sda2".to_string(), "/".to_string()),
            ],
        },
        _ => Outcome::Done,
    });
    assert_eq!(
        seen,
        vec![
            "open /dev/sda",
            "table /dev/sda Gpt",
            "add /boot Fat32 true",
            "add / Ext4 false",
            "commit /dev/sda",
            "format /dev/sda",
            "reload /dev/sda",
            "mkdir /",
            "mount /dev/sda2 / false",
            "mkdir /boot",
            "mount /dev/sda1 /boot true",
        ]
    );
    assert!(run.is_done());
    assert!(run.errors().is_empty());
}

#[test]
fn whole_disk_legacy_install() {
    let mut run = Install::full_disk("/dev/sda".to_string(), BootMode::Legacy);
    let seen = drive(&mut run, |s| match s {
        Step::OpenDisk { .. } => opened(&[]),
        Step::Disk(DiskTask::Reload { .. }) => Outcome::Reloaded {
            mounts: vec![("/dev/sda1".to_string(), "/".to_string())],
        },
        _ => Outcome::Done,
    });
    assert_eq!(seen[1], "table /dev/sda Msdos");
    assert_eq!(seen[2], "add / Ext4 false");
    assert_eq!(seen.len(), 8);
    let _ = TableKind::Msdos;
}

#[test]
fn whole_disk_missing_disk() {
    let mut run = Install::full_disk("/dev/sdz".to_string(), BootMode::Efi);
    let seen = drive(&mut run, |_| Outcome::Failed);
    assert_eq!(seen, vec!["open /dev/sdz"]);
    assert!(matches!(&run.errors()[..], [InstallError::DiskNotFound(d)] if d == "/dev/sdz"));
}

#[test]
fn whole_disk_failure_stops_everything() {
    let mut run = Install::full_disk("/dev/sda".to_string(), BootMode::Efi);
    let seen = drive(&mut run, |s| match s {
        Step::OpenDisk { .. } => opened(&[]),
        Step::Disk(DiskTask::Commit { .. }) => Outcome::Failed,
        _ => Outcome::Done,
    });
    assert_eq!(seen.last().unwrap(), "commit /dev/sda");
    assert!(matches!(&run.errors()[..], [InstallError::CommitFailed(d)] if d == "/dev/sda"));
}

#[test]
fn whole_disk_mount_failure_is_fatal() {
    let mut run = Install::full_disk("/dev/sda".to_string(), BootMode::Efi);
    let seen = drive(&mut run, |s| match s {
        Step::OpenDisk { .. } => opened(&[]),
        Step::Disk(DiskTask::Reload { .. }) => Outcome::Reloaded {
            mounts: vec![
                ("/dev/sda1".to_string(), "/boot".to_string()),
                ("/dev/sda2".to_string(), "/".to_string()),
            ],
        },
        Step::Mount(MountTask::Mount { .. }) => Outcome::Failed,
        _ => Outcome::Done,
    });
    assert_eq!(seen.last().unwrap(), "mount /dev/sda2 / false");
    assert_eq!(run.errors().len(), 1);
}

#[test]
fn whole_disk_too_small_fails_planning() {
    let mut run = Install::full_disk("/dev/sda".to_string(), BootMode::Efi);
    let seen = drive(&mut run, |_| Outcome::Opened { sectors: 1000, sector_size: 512, partitions: vec![] });
    assert_eq!(seen, vec!["open /dev/sda"]);
    assert!(matches!(&run.errors()[..], [InstallError::PartitionCreationFailed(_)]));
}

#[test]
fn custom_dual_mount() {
    let entries = vec![
        ("/dev/sdb1".to_string(), custom(Some("ext4"), Some("/"), "/dev/sdb")),
        ("/dev/sdb2".to_string(), custom(Some("fat32"), Some("/boot"), "/dev/sdb")),
    ];
    let mut run = Install::custom(&entries, BootMode::Efi);
    let seen = drive(&mut run, |s| match s {
        Step::OpenDisk { .. } => opened(&["/dev/sdb1", "/dev/sdb2"]),
        _ => Outcome::Done,
    });
    assert_eq!(
        seen,
        vec![
            "open /dev/sdb",
            "modify /dev/sdb1 Some(Ext4) false",
            "modify /dev/sdb2 Some(Fat32) true",
            "commit /dev/sdb",
            "format /dev/sdb",
            "reload /dev/sdb",
            "mkdir /",
            "mount /dev/sdb1 / false",
            "mkdir /boot",
            "mount /dev/sdb2 /boot true",
        ]
    );
    assert!(run.errors().is_empty());
}

#[test]
fn custom_swap_partition() {
    let entries = vec![
        ("/dev/sdb1".to_string(), custom(Some("ext4"), Some("/"), "/dev/sdb")),
        ("/dev/sdb3".to_string(), custom(Some("swap"), None, "/dev/sdb")),
    ];
    let mut run = Install::custom(&entries, BootMode::Legacy);
    let seen = drive(&mut run, |s| match s {
        Step::OpenDisk { .. } => opened(&["/dev/sdb1", "/dev/sdb3"]),
        _ => Outcome::Done,
    });
    assert!(seen.contains(&"modify /dev/sdb3 Some(Swap) false".to_string()));
    assert!(seen.contains(&"swapon /dev/sdb3".to_string()));
    assert!(!seen.iter().any(|s| s.starts_with("mkdir") && s.contains("sdb3")));
    assert!(!seen.iter().any(|s| s.starts_with("mount /dev/sdb3")));
}

#[test]
fn custom_unknown_format_does_not_abort() {
    let entries = vec![
        ("/dev/sdb1".to_string(), custom(Some("zfs"), Some("/"), "/dev/sdb")),
        ("/dev/sdb2".to_string(), custom(Some("ext4"), Some("/home"), "/dev/sdb")),
    ];
    let mut run = Install::custom(&entries, BootMode::Legacy);
    let seen = drive(&mut run, |s| match s {
        Step::OpenDisk { .. } => opened(&["/dev/sdb1", "/dev/sdb2"]),
        _ => Outcome::Done,
    });
    assert!(!seen.iter().any(|s| s.starts_with("modify /dev/sdb1")));
    assert!(seen.contains(&"modify /dev/sdb2 Some(Ext4) false".to_string()));
    assert!(seen.contains(&"mount /dev/sdb1 / false".to_string()));
    assert!(run.errors().is_empty());
}

#[test]
fn custom_failed_disk_does_not_block_others() {
    let entries = vec![
        ("/dev/sda1".to_string(), custom(Some("ext4"), Some("/"), "/dev/sda")),
        ("/dev/sdb1".to_string(), custom(Some("ext4"), Some("/home"), "/dev/sdb")),
    ];
    let mut run = Install::custom(&entries, BootMode::Legacy);
    let seen = drive(&mut run, |s| match s {
        Step::OpenDisk { disk } if disk == "/dev/sda" => Outcome::Failed,
        Step::OpenDisk { .. } => opened(&["/dev/sdb1"]),
        _ => Outcome::Done,
    });
    assert_eq!(seen[0], "open /dev/sda");
    assert_eq!(seen[1], "open /dev/sdb");
    assert!(seen.contains(&"reload /dev/sdb".to_string()));
    // no mounts once a disk has failed
    assert!(!seen.iter().any(|s| s.starts_with("mkdir")));
    assert!(matches!(&run.errors()[..], [InstallError::DiskNotFound(d)] if d == "/dev/sda"));
}

#[test]
fn custom_missing_partition_fails_its_disk() {
    let entries = vec![("/dev/sdb9".to_string(), custom(Some("ext4"), Some("/"), "/dev/sdb"))];
    let mut run = Install::custom(&entries, BootMode::Legacy);
    let seen = drive(&mut run, |_| opened(&["/dev/sdb1"]));
    assert_eq!(seen, vec!["open /dev/sdb"]);
    assert!(matches!(&run.errors()[..], [InstallError::PartitionNotFound(p)] if p == "/dev/sdb9"));
}

#[test]
fn custom_mount_failures_continue() {
    let entries = vec![
        ("/dev/sdb1".to_string(), custom(None, Some("/"), "/dev/sdb")),
        ("/dev/sdb2".to_string(), custom(None, Some("/home"), "/dev/sdb")),
        ("/dev/sdb3".to_string(), custom(None, Some("/boot"), "/dev/sdb")),
    ];
    let mut run = Install::custom(&entries, BootMode::Legacy);
    let seen = drive(&mut run, |s| match s {
        Step::OpenDisk { .. } => opened(&["/dev/sdb1", "/dev/sdb2", "/dev/sdb3"]),
        Step::Mount(MountTask::CreateDir { mountpoint }) if mountpoint == "/" => Outcome::Failed,
        Step::Mount(MountTask::Mount { mountpoint, .. }) if mountpoint == "/home" => Outcome::Failed,
        _ => Outcome::Done,
    });
    let mounts: Vec<&String> = seen.iter().filter(|s| s.starts_with("m")).collect();
    assert_eq!(
        mounts,
        vec!["mkdir /", "mkdir /home", "mount /dev/sdb2 /home false", "mkdir /boot", "mount /dev/sdb3 /boot true"]
    );
    assert_eq!(run.errors().len(), 2);
}

#[test]
fn custom_without_directives_is_done() {
    let run = Install::custom(&vec![], BootMode::Efi);
    assert!(run.is_done());
    assert!(run.current().is_none());
}

#[test]
fn privilege_gate() {
    assert!(require_root(0).is_ok());
    let e = require_root(1000).unwrap_err();
    assert!(matches!(e, InstallError::PrivilegeError));
    assert_eq!(exit_status(&e), EXIT_NOT_ROOT);
    assert_ne!(exit_status(&e), 0);
    let other = InstallError::MountFailed("/".to_string());
    assert_eq!(exit_status(&other), EXIT_FAILED);
    assert_ne!(exit_status(&other), exit_status(&e));
    let _ = FileSystemKind::Ext4;
}

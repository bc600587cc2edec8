use icicle::disk::{parse_format, BootMode, FileSystemKind, InstallError, TableKind};
use icicle::layout::plan_full_disk;
use icicle::mount::{mount_order, MountEntry, MountTask};
use icicle::plan::{custom_disk_tasks, full_disk_tasks, group_directives, DiskGroup, DiskTask};
use icicle::schema::CustomPartition;

const SECTORS_250GB: u64 = 250_000_000_000 / 512;

fn custom(format: Option<&str>, mountpoint: Option<&str>, device: &str) -> CustomPartition {
    CustomPartition {
        format: format.map(|s| s.to_string()),
        mountpoint: mountpoint.map(|s| s.to_string()),
        device: device.to_string(),
    }
}

fn entry(device: &str, mountpoint: Option<&str>, swap: bool) -> MountEntry {
    MountEntry { device: device.to_string(), mountpoint: mountpoint.map(|s| s.to_string()), swap }
}

fn describe(t: &MountTask) -> String {
    match t {
        MountTask::CreateDir { mountpoint } => format!("mkdir {}", mountpoint),
        MountTask::Mount { device, mountpoint, restricted } => {
            format!("mount {} {} {}", device, mountpoint, restricted)
        }
        MountTask::SwapOn { device } => format!("swapon {}", device),
    }
}

#[test]
fn format_names_are_recognized() {
    assert_eq!(parse_format("btrfs"), Some(FileSystemKind::Btrfs));
    assert_eq!(parse_format("ext4"), Some(FileSystemKind::Ext4));
    assert_eq!(parse_format("ext3"), Some(FileSystemKind::Ext3));
    assert_eq!(parse_format("fat32"), Some(FileSystemKind::Fat32));
    assert_eq!(parse_format("ntfs"), Some(FileSystemKind::Ntfs));
    assert_eq!(parse_format("xfs"), Some(FileSystemKind::Xfs));
    assert_eq!(parse_format("swap"), Some(FileSystemKind::Swap));
}

#[test]
fn unknown_format_name_is_none() {
    assert_eq!(parse_format("zfs"), None);
    assert_eq!(parse_format(""), None);
    assert_eq!(parse_format("ext"), None);
    assert_eq!(parse_format("EXT4"), None);
}

#[test]
fn whole_disk_efi_layout_on_250gb() {
    let l = plan_full_disk(SECTORS_250GB, 512, BootMode::Efi).unwrap();
    assert_eq!(l.table, TableKind::Gpt);
    assert_eq!(l.partitions.len(), 2);
    let boot = &l.partitions[0];
    assert_eq!((boot.start, boot.end), (4096, 4096 + 4_194_304));
    assert_eq!((boot.end - boot.start) * 512, 2 * 1024 * 1024 * 1024);
    assert_eq!(boot.fs, FileSystemKind::Fat32);
    assert!(boot.esp);
    assert_eq!(boot.mountpoint, "/boot");
    let root = &l.partitions[1];
    assert_eq!((root.start, root.end), (4_198_400, SECTORS_250GB - 4096));
    assert_eq!(root.fs, FileSystemKind::Ext4);
    assert!(!root.esp);
    assert_eq!(root.mountpoint, "/");
    assert!(root.end <= SECTORS_250GB);
}

#[test]
fn whole_disk_legacy_layout_is_one_root() {
    let l = plan_full_disk(SECTORS_250GB, 512, BootMode::Legacy).unwrap();
    assert_eq!(l.table, TableKind::Msdos);
    assert_eq!(l.partitions.len(), 1);
    let root = &l.partitions[0];
    assert_eq!((root.start, root.end), (4096, SECTORS_250GB - 4096));
    assert_eq!(root.fs, FileSystemKind::Ext4);
    assert_eq!(root.mountpoint, "/");
}

#[test]
fn whole_disk_layout_with_4k_sectors() {
    let sectors = 250_000_000_000 / 4096;
    let l = plan_full_disk(sectors, 4096, BootMode::Efi).unwrap();
    assert_eq!((l.partitions[0].start, l.partitions[0].end), (512, 512 + 524_288));
    assert_eq!(l.partitions[1].end, sectors - 512);
}

#[test]
fn whole_disk_too_small() {
    // exactly the boot partition and both margins: no room for a root
    assert!(plan_full_disk(4096 + 4_194_304 + 4096, 512, BootMode::Efi).is_none());
    assert!(plan_full_disk(4096 + 4_194_304 + 4097, 512, BootMode::Efi).is_some());
    assert!(plan_full_disk(8192, 512, BootMode::Legacy).is_none());
    assert!(plan_full_disk(8193, 512, BootMode::Legacy).is_some());
    assert!(plan_full_disk(0, 512, BootMode::Legacy).is_none());
}

#[test]
fn whole_disk_tasks_in_order() {
    let l = plan_full_disk(SECTORS_250GB, 512, BootMode::Efi).unwrap();
    let t = full_disk_tasks(&"/dev/sda".to_string(), &l);
    assert_eq!(t.len(), 6);
    assert!(matches!(&t[0], DiskTask::CreateTable { disk, table: TableKind::Gpt } if disk == "/dev/sda"));
    assert!(matches!(&t[1], DiskTask::AddPartition { partition, .. } if partition.mountpoint == "/boot"));
    assert!(matches!(&t[2], DiskTask::AddPartition { partition, .. } if partition.mountpoint == "/"));
    assert!(matches!(&t[3], DiskTask::Commit { .. }));
    assert!(matches!(&t[4], DiskTask::FormatNew { .. }));
    assert!(matches!(&t[5], DiskTask::Reload { .. }));
}

#[test]
fn mounts_root_before_boot() {
    let entries = vec![entry("/dev/sda1", Some("/boot"), false), entry("/dev/sda2", Some("/"), false)];
    let got: Vec<String> = mount_order(&entries).iter().map(describe).collect();
    assert_eq!(
        got,
        vec![
            "mkdir /",
            "mount /dev/sda2 / false",
            "mkdir /boot",
            "mount /dev/sda1 /boot true",
        ]
    );
}

#[test]
fn mounts_parents_before_children() {
    let entries = vec![
        entry("/dev/sdc1", Some("/boot/efi"), false),
        entry("/dev/sdc2", Some("/home"), false),
        entry("/dev/sdc3", Some("/"), false),
        entry("/dev/sdc4", Some("/boot"), false),
    ];
    let got: Vec<String> = mount_order(&entries).iter().map(describe).collect();
    assert_eq!(
        got,
        vec![
            "mkdir /",
            "mount /dev/sdc3 / false",
            "mkdir /home",
            "mount /dev/sdc2 /home false",
            "mkdir /boot",
            "mount /dev/sdc4 /boot true",
            "mkdir /boot/efi",
            "mount /dev/sdc1 /boot/efi false",
        ]
    );
    let mut last = 0;
    for t in mount_order(&entries) {
        if let MountTask::CreateDir { mountpoint } = t {
            assert!(mountpoint.len() >= last);
            last = mountpoint.len();
        }
    }
}

#[test]
fn swap_is_activated_not_mounted() {
    let entries = vec![entry("/dev/sdb3", None, true), entry("/dev/sdb1", Some("/"), false)];
    let got: Vec<String> = mount_order(&entries).iter().map(describe).collect();
    assert_eq!(got, vec!["swapon /dev/sdb3", "mkdir /", "mount /dev/sdb1 / false"]);
}

#[test]
fn entries_without_mountpoint_are_skipped() {
    let entries = vec![entry("/dev/sdb2", None, false)];
    assert!(mount_order(&entries).is_empty());
    assert!(mount_order(&vec![]).is_empty());
}

#[test]
fn directives_grouped_by_disk_and_sorted() {
    let entries = vec![
        ("/dev/sdb2".to_string(), custom(Some("ext4"), None, "/dev/sdb")),
        ("/dev/sda1".to_string(), custom(None, Some("/home"), "/dev/sda")),
        ("/dev/sdb1".to_string(), custom(Some("fat32"), Some("/boot"), "/dev/sdb")),
    ];
    let groups = group_directives(&entries);
    assert_eq!(groups.len(), 2);
    assert_eq!(groups[0].device, "/dev/sdb");
    let paths: Vec<&str> = groups[0].directives.iter().map(|d| d.0.as_str()).collect();
    assert_eq!(paths, vec!["/dev/sdb1", "/dev/sdb2"]);
    assert_eq!(groups[1].device, "/dev/sda");
    assert_eq!(groups[1].directives.len(), 1);
}

#[test]
fn custom_tasks_format_and_flag_boot() {
    let group = DiskGroup {
        device: "/dev/sdb".to_string(),
        directives: vec![
            ("/dev/sdb1".to_string(), custom(Some("ext4"), Some("/"), "/dev/sdb")),
            ("/dev/sdb2".to_string(), custom(Some("fat32"), Some("/boot"), "/dev/sdb")),
        ],
    };
    let existing = vec!["/dev/sdb1".to_string(), "/dev/sdb2".to_string()];
    let t = custom_disk_tasks(&group, &existing, BootMode::Efi).unwrap();
    assert_eq!(t.len(), 5);
    assert!(matches!(&t[0], DiskTask::Modify { partition, format: Some(FileSystemKind::Ext4), esp: false, .. } if partition == "/dev/sdb1"));
    assert!(matches!(&t[1], DiskTask::Modify { partition, format: Some(FileSystemKind::Fat32), esp: true, .. } if partition == "/dev/sdb2"));
    assert!(matches!(&t[2], DiskTask::Commit { .. }));
    let legacy = custom_disk_tasks(&group, &existing, BootMode::Legacy).unwrap();
    assert!(matches!(&legacy[1], DiskTask::Modify { esp: false, .. }));
}

#[test]
fn custom_tasks_ignore_unknown_format() {
    let group = DiskGroup {
        device: "/dev/sdb".to_string(),
        directives: vec![
            ("/dev/sdb1".to_string(), custom(Some("zfs"), None, "/dev/sdb")),
            ("/dev/sdb2".to_string(), custom(Some("xfs"), Some("/home"), "/dev/sdb")),
        ],
    };
    let existing = vec!["/dev/sdb1".to_string(), "/dev/sdb2".to_string()];
    let t = custom_disk_tasks(&group, &existing, BootMode::Efi).unwrap();
    assert_eq!(t.len(), 4);
    assert!(matches!(&t[0], DiskTask::Modify { partition, format: Some(FileSystemKind::Xfs), .. } if partition == "/dev/sdb2"));
    assert!(matches!(&t[3], DiskTask::Reload { .. }));
}

#[test]
fn custom_tasks_missing_partition() {
    let group = DiskGroup {
        device: "/dev/sdb".to_string(),
        directives: vec![
            ("/dev/sdb1".to_string(), custom(Some("ext4"), None, "/dev/sdb")),
            ("/dev/sdb7".to_string(), custom(Some("ext4"), None, "/dev/sdb")),
        ],
    };
    let existing = vec!["/dev/sdb1".to_string()];
    match custom_disk_tasks(&group, &existing, BootMode::Efi) {
        Err(InstallError::PartitionNotFound(p)) => assert_eq!(p, "/dev/sdb7"),
        other => panic!("unexpected {:?}", other),
    }
}

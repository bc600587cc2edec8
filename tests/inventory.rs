use icicle::config::{configuration_files, ChoiceEnum, ConfigType, IcicleConfig, InstallationConfig};
use icicle::enumerate::{enumerate_disks, report_disk, DeviceInfo, PartitionInfo};
use icicle::i18n::{brace_pattern, freplace, kreplace, substituted};
use icicle::model::{PartitionMethod, PartitionModel, PartitionMsg};
use icicle::files::parent_dir;
use icicle::schema::{boot_disk, CustomPartition, PartitionSchema};

fn part(path: Option<&str>, fs: Option<&str>, sectors: u64) -> PartitionInfo {
    PartitionInfo { path: path.map(|s| s.to_string()), fs_type: fs.map(|s| s.to_string()), sectors }
}

fn device(path: &str, sectors: u64, partitions: Option<Vec<PartitionInfo>>) -> DeviceInfo {
    DeviceInfo { path: path.to_string(), sectors, sector_size: 512, partitions }
}

fn devices() -> Vec<DeviceInfo> {
    vec![
        device(
            "/dev/sdb",
            2000,
            Some(vec![
                part(Some("/dev/sdb2"), None, 100),
                part(None, None, 50),
                part(Some("/dev/sdb1"), Some("ext4"), 200),
            ]),
        ),
        device("/dev/nvme0n1", 1000, None),
        device("/dev/sda", 3000, Some(vec![part(Some("/dev/sda10"), Some("xfs"), 7), part(Some("/dev/sda1"), Some("vfat"), 9)])),
    ]
}

fn summary(disks: &[icicle::enumerate::Disk]) -> Vec<String> {
    let mut out = vec![];
    for d in disks {
        out.push(format!("{} {}", d.name, d.size));
        for p in &d.partitions {
            out.push(format!("  {} {} {}", p.name, p.format, p.size));
        }
    }
    out
}

#[test]
fn enumeration_sorted_and_filtered() {
    let got = summary(&enumerate_disks(devices()));
    assert_eq!(
        got,
        vec![
            "/dev/nvme0n1 512000",
            "/dev/sda 1536000",
            "  /dev/sda1 vfat 4608",
            "  /dev/sda10 xfs 3584",
            "/dev/sdb 1024000",
            "  /dev/sdb1 ext4 102400",
            "  /dev/sdb2 unknown 51200",
        ]
    );
}

#[test]
fn enumeration_is_deterministic() {
    let first = summary(&enumerate_disks(devices()));
    let mut reversed = devices();
    reversed.reverse();
    let second = summary(&enumerate_disks(reversed));
    assert_eq!(first, second);
    assert_eq!(first, summary(&enumerate_disks(devices())));
}

#[test]
fn unreadable_table_lists_no_partitions() {
    let d = report_disk(&device("/dev/sdc", 10, None));
    assert_eq!(d.name, "/dev/sdc");
    assert_eq!(d.size, 5120);
    assert!(d.partitions.is_empty());
    assert!(enumerate_disks(vec![]).is_empty());
}

fn schema_pairs(m: &PartitionModel) -> Vec<String> {
    match &m.schema {
        Some(PartitionSchema::Custom(v)) => {
            let mut out: Vec<String> = v
                .iter()
                .map(|(k, c)| format!("{} {:?} {:?} {}", k, c.format, c.mountpoint, c.device))
                .collect();
            out.sort();
            out
        }
        Some(PartitionSchema::FullDisk(d)) => vec![format!("full {}", d)],
        None => vec![],
    }
}

fn s(x: &str) -> String {
    x.to_string()
}

#[test]
fn later_mount_claim_wins() {
    let mut m = PartitionModel::new(true);
    m.update(PartitionMsg::SetMethod(PartitionMethod::Advanced));
    m.update(PartitionMsg::AddMountPartition(s("/dev/sdb1"), s("/"), s("/dev/sdb")));
    m.update(PartitionMsg::AddFormatPartition(s("/dev/sdb2"), s("ext4"), s("/dev/sdb")));
    m.update(PartitionMsg::AddMountPartition(s("/dev/sdb2"), s("/"), s("/dev/sdb")));
    // sdb1 had nothing else to do and is dropped; sdb2 now holds "/"
    assert_eq!(schema_pairs(&m), vec!["/dev/sdb2 Some(\"ext4\") Some(\"/\") /dev/sdb"]);
    m.update(PartitionMsg::AddFormatPartition(s("/dev/sdb1"), s("xfs"), s("/dev/sdb")));
    m.update(PartitionMsg::AddMountPartition(s("/dev/sdb1"), s("/"), s("/dev/sdb")));
    assert_eq!(
        schema_pairs(&m),
        vec![
            "/dev/sdb1 Some(\"xfs\") Some(\"/\") /dev/sdb",
            "/dev/sdb2 Some(\"ext4\") None /dev/sdb",
        ]
    );
}

#[test]
fn clearing_both_fields_drops_the_directive() {
    let mut m = PartitionModel::new(false);
    m.update(PartitionMsg::AddFormatPartition(s("/dev/sda1"), s("ext4"), s("/dev/sda")));
    m.update(PartitionMsg::AddMountPartition(s("/dev/sda1"), s("/home"), s("/dev/sda")));
    m.update(PartitionMsg::RemoveFormatPartition(s("/dev/sda1")));
    assert_eq!(schema_pairs(&m), vec!["/dev/sda1 None Some(\"/home\") /dev/sda"]);
    m.update(PartitionMsg::RemoveMountPartition(s("/dev/sda1")));
    assert!(schema_pairs(&m).is_empty());
    assert!(matches!(&m.schema, Some(PartitionSchema::Custom(v)) if v.is_empty()));
}

#[test]
fn add_partition_takes_the_mountpoint() {
    let mut m = PartitionModel::new(false);
    m.update(PartitionMsg::AddMountPartition(s("/dev/sda1"), s("/boot"), s("/dev/sda")));
    m.update(PartitionMsg::AddPartition(
        s("/dev/sda2"),
        CustomPartition { format: Some(s("fat32")), mountpoint: Some(s("/boot")), device: s("/dev/sda") },
    ));
    assert_eq!(schema_pairs(&m), vec!["/dev/sda2 Some(\"fat32\") Some(\"/boot\") /dev/sda"]);
}

#[test]
fn readiness() {
    let mut m = PartitionModel::new(true);
    assert!(!m.is_ready());
    m.update(PartitionMsg::SetFullDisk(s("/dev/sda")));
    assert!(m.is_ready());
    m.update(PartitionMsg::Refresh);
    assert!(!m.is_ready());
    m.update(PartitionMsg::AddMountPartition(s("/dev/sda2"), s("/"), s("/dev/sda")));
    assert!(!m.is_ready());
    m.update(PartitionMsg::AddMountPartition(s("/dev/sda1"), s("/boot"), s("/dev/sda")));
    assert!(m.is_ready());
    let mut legacy = PartitionModel::new(false);
    legacy.update(PartitionMsg::AddMountPartition(s("/dev/sda2"), s("/"), s("/dev/sda")));
    assert!(legacy.is_ready());
    legacy.update(PartitionMsg::SetMethod(PartitionMethod::Basic));
    assert!(legacy.schema.is_none());
}

#[test]
fn positional_holes() {
    assert_eq!(freplace(s("Installing {} on {}"), &["NixOS", "/dev/sda"]), "Installing NixOS on /dev/sda");
    assert_eq!(freplace(s("a{}b{}c"), &["X"]), "aXb");
    assert_eq!(freplace(s("no holes"), &["X"]), "no holes");
    assert_eq!(freplace(s("{{}}"), &["X"]), "{X}");
    assert_eq!(freplace(s(""), &[]), "");
}

#[test]
fn named_placeholders() {
    assert_eq!(brace_pattern("name"), "\\{name\\}");
    assert_eq!(kreplace(s("Hello {name}, {name}!"), &[("name", "Ada")]), "Hello Ada, Ada!");
    assert_eq!(kreplace(s("{a}-{b}"), &[("a", "1"), ("b", "$2")]), "1-$2");
    assert_eq!(kreplace(s("keep {(}"), &[("(", "x")]), "keep {(}");
    assert_eq!(substituted(s("old"), None), "old");
    assert_eq!(substituted(s("old"), Some(s("new"))), "new");
}

#[test]
fn configuration_file_list() {
    let c = IcicleConfig {
        distribution_name: s("NixOS"),
        branding: s("nixos"),
        internet_check_url: s("https://nixos.org"),
        default_hostname: s("nixos"),
        choices: vec![
            ChoiceEnum::Configuration { file: s("gnome.yml"), config: InstallationConfig::empty() },
            ChoiceEnum::Live,
            ChoiceEnum::Configuration { file: s("kde.yml"), config: InstallationConfig::empty() },
        ],
    };
    assert_eq!(configuration_files(&c), vec![s("gnome.yml"), s("kde.yml")]);
    assert_eq!(InstallationConfig::empty().config_type, ConfigType::Flakes);
}

#[test]
fn parent_directories() {
    assert_eq!(parent_dir("/tmp/icicle/etc/nixos/configuration.nix"), "/tmp/icicle/etc/nixos");
    assert_eq!(parent_dir("/etc/x"), "/etc");
    assert_eq!(parent_dir("/x"), "");
    assert_eq!(parent_dir("x"), "x");
    assert_eq!(parent_dir("a/b/"), "a/b");
}

#[test]
fn boot_disk_choice() {
    assert_eq!(boot_disk(&PartitionSchema::FullDisk(s("/dev/sda"))), Some(s("/dev/sda")));
    let custom = PartitionSchema::Custom(vec![
        (s("/dev/sdb2"), CustomPartition { format: None, mountpoint: Some(s("/boot")), device: s("/dev/sdb") }),
        (s("/dev/nvme0n1p2"), CustomPartition { format: Some(s("ext4")), mountpoint: Some(s("/")), device: s("/dev/nvme0n1") }),
    ]);
    assert_eq!(boot_disk(&custom), Some(s("/dev/nvme0n1")));
    let rootless = PartitionSchema::Custom(vec![(
        s("/dev/sdb2"),
        CustomPartition { format: None, mountpoint: Some(s("/home")), device: s("/dev/sdb") },
    )]);
    assert_eq!(boot_disk(&rootless), None);
}

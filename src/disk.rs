use vstd::prelude::*;

verus! {

/// The file systems a partition can be formatted with.
#[derive(Clone, Copy, Debug, PartialEq, Eq, Structural)]
pub enum FileSystemKind {
    Btrfs,
    Ext4,
    Ext3,
    Fat32,
    Ntfs,
    Xfs,
    Swap,
}

/// Partition table types.
#[derive(Clone, Copy, Debug, PartialEq, Eq, Structural)]
pub enum TableKind {
    Gpt,
    Msdos,
}

/// How the firmware boots the machine.
#[derive(Clone, Copy, Debug, PartialEq, Eq, Structural)]
pub enum BootMode {
    Efi,
    Legacy,
}

/// What can go wrong while partitioning and mounting. Each carries the
/// offending disk, partition or mountpoint.
#[derive(Clone, Debug)]
pub enum InstallError {
    PrivilegeError,
    DiskNotFound(String),
    PartitionNotFound(String),
    TableCreationFailed(String),
    PartitionCreationFailed(String),
    CommitFailed(String),
    FormatFailed(String),
    ReloadFailed(String),
    MountFailed(String),
    SchemaParseError(String),
}

/// The file system a format name stands for; unknown names stand for none.
pub open spec fn format_of(name: Seq<char>) -> Option<FileSystemKind> {
    if name == "btrfs"@ {
        Some(FileSystemKind::Btrfs)
    } else if name == "ext4"@ {
        Some(FileSystemKind::Ext4)
    } else if name == "ext3"@ {
        Some(FileSystemKind::Ext3)
    } else if name == "fat32"@ {
        Some(FileSystemKind::Fat32)
    } else if name == "ntfs"@ {
        Some(FileSystemKind::Ntfs)
    } else if name == "xfs"@ {
        Some(FileSystemKind::Xfs)
    } else if name == "swap"@ {
        Some(FileSystemKind::Swap)
    } else {
        None
    }
}

/// Character-wise equality of two strings.
pub fn str_eq(a: &str, b: &str) -> (r: bool)
    ensures
        r == (a@ == b@),
{
    let n = a.unicode_len();
    if n != b.unicode_len() {
        return false;
    }
    let mut i: usize = 0;
    while i < n
        invariant
            n == a@.len() == b@.len(),
            i <= n,
            forall|j: int| 0 <= j < i ==> a@[j] == b@[j],
        decreases n - i,
    {
        if a.get_char(i) != b.get_char(i) {
            return false;
        }
        i = i + 1;
    }
    assert(a@ =~= b@);
    true
}

/// Translates a format name into a file system.
pub fn parse_format(name: &str) -> (r: Option<FileSystemKind>)
    ensures
        r == format_of(name@),
{
    if str_eq(name, "btrfs") {
        Some(FileSystemKind::Btrfs)
    } else if str_eq(name, "ext4") {
        Some(FileSystemKind::Ext4)
    } else if str_eq(name, "ext3") {
        Some(FileSystemKind::Ext3)
    } else if str_eq(name, "fat32") {
        Some(FileSystemKind::Fat32)
    } else if str_eq(name, "ntfs") {
        Some(FileSystemKind::Ntfs)
    } else if str_eq(name, "xfs") {
        Some(FileSystemKind::Xfs)
    } else if str_eq(name, "swap") {
        Some(FileSystemKind::Swap)
    } else {
        None
    }
}

/// The table type a boot mode calls for.
pub open spec fn table_for(mode: BootMode) -> TableKind {
    match mode {
        BootMode::Efi => TableKind::Gpt,
        BootMode::Legacy => TableKind::Msdos,
    }
}

pub fn table_kind(mode: BootMode) -> (r: TableKind)
    ensures
        r == table_for(mode),
{
    match mode {
        BootMode::Efi => TableKind::Gpt,
        BootMode::Legacy => TableKind::Msdos,
    }
}

} // verus!

verus! {

pub enum ErrorView {
    PrivilegeError,
    DiskNotFound(Seq<char>),
    PartitionNotFound(Seq<char>),
    TableCreationFailed(Seq<char>),
    PartitionCreationFailed(Seq<char>),
    CommitFailed(Seq<char>),
    FormatFailed(Seq<char>),
    ReloadFailed(Seq<char>),
    MountFailed(Seq<char>),
    SchemaParseError(Seq<char>),
}

impl View for InstallError {
    type V = ErrorView;

    open spec fn view(&self) -> ErrorView {
        match self {
            InstallError::PrivilegeError => ErrorView::PrivilegeError,
            InstallError::DiskNotFound(s) => ErrorView::DiskNotFound(s@),
            InstallError::PartitionNotFound(s) => ErrorView::PartitionNotFound(s@),
            InstallError::TableCreationFailed(s) => ErrorView::TableCreationFailed(s@),
            InstallError::PartitionCreationFailed(s) => ErrorView::PartitionCreationFailed(s@),
            InstallError::CommitFailed(s) => ErrorView::CommitFailed(s@),
            InstallError::FormatFailed(s) => ErrorView::FormatFailed(s@),
            InstallError::ReloadFailed(s) => ErrorView::ReloadFailed(s@),
            InstallError::MountFailed(s) => ErrorView::MountFailed(s@),
            InstallError::SchemaParseError(s) => ErrorView::SchemaParseError(s@),
        }
    }
}

pub open spec fn errors_view(v: Seq<InstallError>) -> Seq<ErrorView> {
    v.map_values(|e: InstallError| e@)
}

} // verus!

use crate::disk::{table_for, table_kind, BootMode, FileSystemKind, TableKind};
use vstd::prelude::*;
use vstd::string::StringExecFns;

verus! {

/// Space left free at each end of a disk for alignment and the table.
pub const ALIGN_BYTES: u64 = 2097152;

/// Size of the EFI boot partition of a whole-disk install.
pub const BOOT_BYTES: u64 = 2147483648;

/// A partition to create, over the sectors `start..end`.
#[derive(Clone, Debug)]
pub struct PlannedPartition {
    pub start: u64,
    pub end: u64,
    pub fs: FileSystemKind,
    pub esp: bool,
    pub mountpoint: String,
}

pub struct PartView {
    pub start: int,
    pub end: int,
    pub fs: FileSystemKind,
    pub esp: bool,
    pub mountpoint: Seq<char>,
}

impl View for PlannedPartition {
    type V = PartView;

    open spec fn view(&self) -> PartView {
        PartView {
            start: self.start as int,
            end: self.end as int,
            fs: self.fs,
            esp: self.esp,
            mountpoint: self.mountpoint@,
        }
    }
}

/// A fresh partition table and the partitions to create on it.
#[derive(Clone, Debug)]
pub struct DiskLayout {
    pub table: TableKind,
    pub partitions: Vec<PlannedPartition>,
}

pub open spec fn parts_view(v: Seq<PlannedPartition>) -> Seq<PartView> {
    v.map_values(|p: PlannedPartition| p@)
}

pub open spec fn align_sectors(sector_size: int) -> int {
    ALIGN_BYTES as int / sector_size
}

pub open spec fn boot_sectors(sector_size: int) -> int {
    BOOT_BYTES as int / sector_size
}

/// Where the first partition starts.
pub open spec fn first_sector(sector_size: int) -> int {
    align_sectors(sector_size)
}

/// Where the last partition ends.
pub open spec fn last_sector(sectors: int, sector_size: int) -> int {
    sectors - align_sectors(sector_size)
}

/// Where the root partition starts.
pub open spec fn root_start(sector_size: int, mode: BootMode) -> int {
    match mode {
        BootMode::Efi => first_sector(sector_size) + boot_sectors(sector_size),
        BootMode::Legacy => first_sector(sector_size),
    }
}

/// A whole-disk layout exists when the root partition is left some space.
pub open spec fn layout_fits(sectors: int, sector_size: int, mode: BootMode) -> bool {
    root_start(sector_size, mode) < last_sector(sectors, sector_size)
}

pub open spec fn boot_part(sector_size: int) -> PartView {
    PartView {
        start: first_sector(sector_size),
        end: first_sector(sector_size) + boot_sectors(sector_size),
        fs: FileSystemKind::Fat32,
        esp: true,
        mountpoint: "/boot"@,
    }
}

pub open spec fn root_part(sectors: int, sector_size: int, mode: BootMode) -> PartView {
    PartView {
        start: root_start(sector_size, mode),
        end: last_sector(sectors, sector_size),
        fs: FileSystemKind::Ext4,
        esp: false,
        mountpoint: "/"@,
    }
}

/// The partitions of a whole-disk install: under EFI a FAT32 boot
/// partition then an ext4 root over the rest, otherwise the root alone.
pub open spec fn whole_disk_parts(sectors: int, sector_size: int, mode: BootMode) -> Seq<PartView> {
    match mode {
        BootMode::Efi => seq![boot_part(sector_size), root_part(sectors, sector_size, mode)],
        BootMode::Legacy => seq![root_part(sectors, sector_size, mode)],
    }
}

/// Plans a whole-disk install on a disk of `sectors` sectors of
/// `sector_size` bytes. `None` when the disk is too small to hold it.
pub fn plan_full_disk(sectors: u64, sector_size: u64, mode: BootMode) -> (r: Option<DiskLayout>)
    requires
        sector_size > 0,
    ensures
        r is Some <==> layout_fits(sectors as int, sector_size as int, mode),
        r matches Some(l) ==> l.table == table_for(mode) && parts_view(l.partitions@)
            == whole_disk_parts(sectors as int, sector_size as int, mode),
{
    let align = ALIGN_BYTES / sector_size;
    let boot = BOOT_BYTES / sector_size;
    if sectors < align {
        return None;
    }
    let last = sectors - align;
    let start = match mode {
        BootMode::Efi => align + boot,
        BootMode::Legacy => align,
    };
    if start >= last {
        return None;
    }
    let mut partitions: Vec<PlannedPartition> = Vec::new();
    if mode == BootMode::Efi {
        partitions.push(
            PlannedPartition {
                start: align,
                end: align + boot,
                fs: FileSystemKind::Fat32,
                esp: true,
                mountpoint: String::from_str("/boot"),
            },
        );
    }
    partitions.push(
        PlannedPartition {
            start,
            end: last,
            fs: FileSystemKind::Ext4,
            esp: false,
            mountpoint: String::from_str("/"),
        },
    );
    let r = DiskLayout { table: table_kind(mode), partitions };
    assert(parts_view(r.partitions@) =~= whole_disk_parts(sectors as int, sector_size as int, mode));
    Some(r)
}

} // verus!

verus! {

/// On a disk that holds the boot partition, its alignment margins and some
/// root space, an EFI whole-disk layout has exactly two partitions: a FAT32
/// EFI system partition of the fixed boot size at the start, mounted at
/// `/boot`, then an ext4 root over the rest, mounted at `/`. Together they
/// never cover more sectors than the disk has.
pub proof fn lemma_whole_disk_efi(sectors: int, sector_size: int)
    requires
        sector_size > 0,
        layout_fits(sectors, sector_size, BootMode::Efi),
    ensures
        ({
            let p = whole_disk_parts(sectors, sector_size, BootMode::Efi);
            &&& p.len() == 2
            &&& p[0].fs == FileSystemKind::Fat32 && p[0].esp && p[0].mountpoint == "/boot"@
            &&& p[0].start == first_sector(sector_size)
            &&& p[0].end - p[0].start == BOOT_BYTES as int / sector_size
            &&& p[1].fs == FileSystemKind::Ext4 && !p[1].esp && p[1].mountpoint == "/"@
            &&& p[1].start == p[0].end && p[1].end == last_sector(sectors, sector_size)
            &&& 0 <= p[0].start <= p[0].end == p[1].start < p[1].end <= sectors
            &&& (p[0].end - p[0].start) + (p[1].end - p[1].start) <= sectors
        }),
{
    assert(ALIGN_BYTES as int / sector_size >= 0) by (nonlinear_arith)
        requires
            sector_size > 0,
    ;
    assert(BOOT_BYTES as int / sector_size >= 0) by (nonlinear_arith)
        requires
            sector_size > 0,
    ;
}

/// Under legacy boot a whole-disk layout is one ext4 root partition over the
/// whole usable disk, mounted at `/`.
pub proof fn lemma_whole_disk_legacy(sectors: int, sector_size: int)
    requires
        sector_size > 0,
        layout_fits(sectors, sector_size, BootMode::Legacy),
    ensures
        ({
            let p = whole_disk_parts(sectors, sector_size, BootMode::Legacy);
            &&& p.len() == 1
            &&& p[0].fs == FileSystemKind::Ext4 && !p[0].esp && p[0].mountpoint == "/"@
            &&& p[0].start == first_sector(sector_size)
            &&& p[0].end == last_sector(sectors, sector_size)
            &&& 0 <= p[0].start < p[0].end <= sectors
        }),
{
    assert(ALIGN_BYTES as int / sector_size >= 0) by (nonlinear_arith)
        requires
            sector_size > 0,
    ;
}

} // verus!

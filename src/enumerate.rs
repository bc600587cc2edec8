use crate::order::{
    ascending, keys_unique, lemma_ascending_unique, lemma_map_same_multiset, path_le, sort_by_path,
    PathKeyed,
};
use vstd::prelude::*;
use vstd::string::StringExecFns;

verus! {

/// A partition as the device layer reports it: its device path, if it has
/// one, its detected file system, if any, and its length in sectors.
#[derive(Debug)]
pub struct PartitionInfo {
    pub path: Option<String>,
    pub fs_type: Option<String>,
    pub sectors: u64,
}

/// A block device as the device layer reports it. `partitions` is `None`
/// when its partition table could not be read.
#[derive(Debug)]
pub struct DeviceInfo {
    pub path: String,
    pub sectors: u64,
    pub sector_size: u64,
    pub partitions: Option<Vec<PartitionInfo>>,
}

/// An enumerated partition: device path, file system or "unknown", size in
/// bytes.
#[derive(Debug)]
pub struct Partition {
    pub name: String,
    pub format: String,
    pub size: u64,
}

/// An enumerated disk: device path, size in bytes, partitions by path.
#[derive(Debug)]
pub struct Disk {
    pub name: String,
    pub size: u64,
    pub partitions: Vec<Partition>,
}

pub struct PartitionInfoView {
    pub path: Option<Seq<char>>,
    pub fs_type: Option<Seq<char>>,
    pub sectors: nat,
}

pub struct DeviceInfoView {
    pub path: Seq<char>,
    pub sectors: nat,
    pub sector_size: nat,
    pub partitions: Option<Seq<PartitionInfoView>>,
}

pub struct PartitionView {
    pub name: Seq<char>,
    pub format: Seq<char>,
    pub size: nat,
}

pub struct DiskView {
    pub name: Seq<char>,
    pub size: nat,
    pub partitions: Seq<PartitionView>,
}

pub open spec fn opt_str(o: Option<String>) -> Option<Seq<char>> {
    match o {
        Some(s) => Some(s@),
        None => None,
    }
}

impl View for PartitionInfo {
    type V = PartitionInfoView;

    open spec fn view(&self) -> PartitionInfoView {
        PartitionInfoView {
            path: opt_str(self.path),
            fs_type: opt_str(self.fs_type),
            sectors: self.sectors as nat,
        }
    }
}

impl View for DeviceInfo {
    type V = DeviceInfoView;

    open spec fn view(&self) -> DeviceInfoView {
        DeviceInfoView {
            path: self.path@,
            sectors: self.sectors as nat,
            sector_size: self.sector_size as nat,
            partitions: match self.partitions {
                Some(v) => Some(v@.map_values(|p: PartitionInfo| p@)),
                None => None,
            },
        }
    }
}

impl View for Partition {
    type V = PartitionView;

    open spec fn view(&self) -> PartitionView {
        PartitionView { name: self.name@, format: self.format@, size: self.size as nat }
    }
}

impl View for Disk {
    type V = DiskView;

    open spec fn view(&self) -> DiskView {
        DiskView {
            name: self.name@,
            size: self.size as nat,
            partitions: self.partitions@.map_values(|p: Partition| p@),
        }
    }
}

impl PathKeyed for Partition {
    open spec fn path_key(&self) -> Seq<char> {
        self.name@
    }

    fn path(&self) -> (r: &str) {
        self.name.as_str()
    }
}

impl PathKeyed for DeviceInfo {
    open spec fn path_key(&self) -> Seq<char> {
        self.path@
    }

    fn path(&self) -> (r: &str) {
        self.path.as_str()
    }
}

/// How a partition with a device path gets listed.
pub open spec fn listed(p: PartitionInfoView, sector_size: nat) -> PartitionView {
    PartitionView {
        name: p.path->0,
        format: match p.fs_type {
            Some(f) => f,
            None => "unknown"@,
        },
        size: p.sectors * sector_size,
    }
}

/// The partitions of `ps` that have a device path, as listed, in order.
pub open spec fn listed_from(ps: Seq<PartitionInfoView>, sector_size: nat) -> Seq<PartitionView>
    decreases ps.len(),
{
    if ps.len() == 0 {
        Seq::empty()
    } else {
        listed_from(ps.drop_last(), sector_size) + if ps.last().path is Some {
            seq![listed(ps.last(), sector_size)]
        } else {
            Seq::empty()
        }
    }
}

/// The partitions that get listed for a device: none where its table could
/// not be read.
pub open spec fn listed_partitions(d: DeviceInfoView) -> Seq<PartitionView> {
    match d.partitions {
        None => Seq::empty(),
        Some(ps) => listed_from(ps, d.sector_size),
    }
}

pub open spec fn names_ascending(s: Seq<PartitionView>) -> bool {
    forall|i: int, j: int| 0 <= i < j < s.len() ==> path_le(#[trigger] s[i].name, #[trigger] s[j].name)
}

/// `r` reports device `d`: its path and size in bytes, and its listed
/// partitions in ascending order of path.
pub open spec fn reports(d: DeviceInfoView, r: DiskView) -> bool {
    &&& r.name == d.path
    &&& r.size == d.sectors * d.sector_size
    &&& r.partitions.to_multiset() == listed_partitions(d).to_multiset()
    &&& names_ascending(r.partitions)
}

/// Sizes in bytes fit in 64 bits.
pub open spec fn sizes_fit(d: DeviceInfoView) -> bool {
    &&& d.sectors * d.sector_size <= u64::MAX
    &&& d.partitions matches Some(ps) ==> forall|i: int|
        0 <= i < ps.len() ==> #[trigger] ps[i].sectors * d.sector_size <= u64::MAX
}

fn copy_str(s: &String) -> (r: String)
    ensures
        r@ == s@,
{
    s.clone()
}

/// Reports one device, partitions sorted by path.
pub fn report_disk(d: &DeviceInfo) -> (r: Disk)
    requires
        sizes_fit(d@),
    ensures
        reports(d@, r@),
{
    let mut parts: Vec<Partition> = Vec::new();
    let ghost dv = d@;
    match &d.partitions {
        None => {},
        Some(ps) => {
            let ghost pv = ps@.map_values(|p: PartitionInfo| p@);
            let mut i: usize = 0;
            while i < ps.len()
                invariant
                    dv == d@,
                    dv.partitions == Some(pv),
                    pv == ps@.map_values(|p: PartitionInfo| p@),
                    sizes_fit(dv),
                    i <= ps.len(),
                    parts@.map_values(|p: Partition| p@) == listed_from(pv.take(i as int), dv.sector_size),
                decreases ps.len() - i,
            {
                let ghost before = parts@.map_values(|p: Partition| p@);
                assert(pv.take(i + 1) =~= pv.take(i as int).push(pv[i as int]));
                assert(pv[i as int].sectors * dv.sector_size <= u64::MAX);
                match &ps[i].path {
                    Some(path) => {
                        let format = match &ps[i].fs_type {
                            Some(f) => copy_str(f),
                            None => String::from_str("unknown"),
                        };
                        parts.push(
                            Partition {
                                name: copy_str(path),
                                format,
                                size: ps[i].sectors * d.sector_size,
                            },
                        );
                    },
                    None => {},
                }
                assert(pv.take(i + 1).drop_last() =~= pv.take(i as int));
                assert(parts@.map_values(|p: Partition| p@) =~= listed_from(pv.take(i + 1), dv.sector_size));
                i = i + 1;
            }
            assert(pv.take(ps.len() as int) =~= pv);
        },
    }
    assert(parts@.map_values(|p: Partition| p@) =~= listed_partitions(dv));
    let ghost unsorted = parts@;
    sort_by_path(&mut parts);
    proof {
        lemma_map_same_multiset(parts@, unsorted, |p: Partition| p@);
        let pm = parts@.map_values(|p: Partition| p@);
        assert forall|i: int, j: int| 0 <= i < j < pm.len() implies path_le(
            #[trigger] pm[i].name,
            #[trigger] pm[j].name,
        ) by {
            assert(path_le(parts@[i].path_key(), parts@[j].path_key()));
        }
    }
    Disk { name: copy_str(&d.path), size: d.sectors * d.sector_size, partitions: parts }
}

} // verus!

verus! {

pub open spec fn devices_view(v: Seq<DeviceInfo>) -> Seq<DeviceInfoView> {
    v.map_values(|d: DeviceInfo| d@)
}

pub open spec fn disks_view(v: Seq<Disk>) -> Seq<DiskView> {
    v.map_values(|d: Disk| d@)
}

/// Each `r[i]` reports `p[i]`.
pub open spec fn reports_each(p: Seq<DeviceInfoView>, r: Seq<DiskView>) -> bool {
    &&& p.len() == r.len()
    &&& forall|i: int| 0 <= i < p.len() ==> reports(#[trigger] p[i], r[i])
}

pub open spec fn disk_names_ascending(r: Seq<DiskView>) -> bool {
    forall|i: int, j: int| 0 <= i < j < r.len() ==> path_le(#[trigger] r[i].name, #[trigger] r[j].name)
}

/// `r` reports the devices `devs`, one disk each, in ascending order of path.
pub open spec fn enumerated(devs: Seq<DeviceInfoView>, r: Seq<DiskView>) -> bool {
    &&& disk_names_ascending(r)
    &&& exists|p: Seq<DeviceInfoView>| #[trigger]
        reports_each(p, r) && p.to_multiset() == devs.to_multiset()
}

/// Lists the devices as disks sorted by path, each with its partitions
/// sorted by path. A device whose table could not be read is listed with
/// no partitions.
pub fn enumerate_disks(devices: Vec<DeviceInfo>) -> (r: Vec<Disk>)
    requires
        forall|i: int| 0 <= i < devices@.len() ==> sizes_fit(#[trigger] devices@[i]@),
    ensures
        enumerated(devices_view(devices@), disks_view(r@)),
{
    broadcast use vstd::seq_lib::group_to_multiset_ensures;

    let ghost orig = devices@;
    let mut devices = devices;
    sort_by_path(&mut devices);
    proof {
        lemma_map_same_multiset(devices@, orig, |d: DeviceInfo| d@);
        assert forall|i: int| 0 <= i < devices@.len() implies sizes_fit(#[trigger] devices@[i]@) by {
            assert(devices@.to_multiset().count(devices@[i]) > 0);
            assert(orig.contains(devices@[i]));
        }
    }
    let mut out: Vec<Disk> = Vec::new();
    let mut i: usize = 0;
    while i < devices.len()
        invariant
            i <= devices@.len(),
            out@.len() == i,
            forall|k: int| 0 <= k < devices@.len() ==> sizes_fit(#[trigger] devices@[k]@),
            forall|k: int| 0 <= k < i ==> reports(#[trigger] devices@[k]@, out@[k]@),
        decreases devices.len() - i,
    {
        let d = report_disk(&devices[i]);
        out.push(d);
        i = i + 1;
    }
    proof {
        let p = devices_view(devices@);
        let r = disks_view(out@);
        assert(reports_each(p, r));
        assert forall|a: int, b: int| 0 <= a < b < r.len() implies path_le(
            #[trigger] r[a].name,
            #[trigger] r[b].name,
        ) by {
            assert(path_le(devices@[a].path_key(), devices@[b].path_key()));
            assert(reports(devices@[a]@, out@[a]@) && r[a] == out@[a]@);
            assert(reports(devices@[b]@, out@[b]@) && r[b] == out@[b]@);
        }
    }
    out
}

} // verus!

verus! {

pub open spec fn device_path() -> spec_fn(DeviceInfoView) -> Seq<char> {
    |d: DeviceInfoView| d.path
}

pub open spec fn partition_name() -> spec_fn(PartitionView) -> Seq<char> {
    |p: PartitionView| p.name
}

/// Enumerating the same devices twice, in whatever order the device layer
/// hands them over, gives the same disks in the same order, each with the
/// same partitions in the same order, as long as no two devices share a
/// path and no two partitions of a device share one.
pub proof fn lemma_enumeration_deterministic(
    devs1: Seq<DeviceInfoView>,
    devs2: Seq<DeviceInfoView>,
    r1: Seq<DiskView>,
    r2: Seq<DiskView>,
)
    requires
        devs1.to_multiset() == devs2.to_multiset(),
        keys_unique(devs1.to_multiset(), device_path()),
        forall|d: DeviceInfoView|
            #[trigger] devs1.to_multiset().count(d) > 0 ==> keys_unique(
                listed_partitions(d).to_multiset(),
                partition_name(),
            ),
        enumerated(devs1, r1),
        enumerated(devs2, r2),
    ensures
        r1 == r2,
{
    broadcast use vstd::seq_lib::group_to_multiset_ensures;

    let pa = choose|p: Seq<DeviceInfoView>| #[trigger]
        reports_each(p, r1) && p.to_multiset() == devs1.to_multiset();
    let pb = choose|p: Seq<DeviceInfoView>| #[trigger]
        reports_each(p, r2) && p.to_multiset() == devs2.to_multiset();
    assert(ascending(pa, device_path())) by {
        assert forall|i: int, j: int| 0 <= i < j < pa.len() implies path_le(
            device_path()(#[trigger] pa[i]),
            device_path()(#[trigger] pa[j]),
        ) by {
            assert(reports(pa[i], r1[i]) && reports(pa[j], r1[j]));
            assert(path_le(r1[i].name, r1[j].name));
        }
    }
    assert(ascending(pb, device_path())) by {
        assert forall|i: int, j: int| 0 <= i < j < pb.len() implies path_le(
            device_path()(#[trigger] pb[i]),
            device_path()(#[trigger] pb[j]),
        ) by {
            assert(reports(pb[i], r2[i]) && reports(pb[j], r2[j]));
            assert(path_le(r2[i].name, r2[j].name));
        }
    }
    lemma_ascending_unique(pa, pb, device_path());
    assert forall|i: int| 0 <= i < r1.len() implies r1[i] == r2[i] by {
        let d = pa[i];
        assert(reports(d, r1[i]) && reports(d, r2[i]));
        assert(pa.to_multiset().count(d) > 0) by {
            assert(pa.contains(d));
        }
        let a = r1[i].partitions;
        let b = r2[i].partitions;
        assert(ascending(a, partition_name())) by {
            assert forall|x: int, y: int| 0 <= x < y < a.len() implies path_le(
                partition_name()(#[trigger] a[x]),
                partition_name()(#[trigger] a[y]),
            ) by {
                assert(path_le(a[x].name, a[y].name));
            }
        }
        assert(ascending(b, partition_name())) by {
            assert forall|x: int, y: int| 0 <= x < y < b.len() implies path_le(
                partition_name()(#[trigger] b[x]),
                partition_name()(#[trigger] b[y]),
            ) by {
                assert(path_le(b[x].name, b[y].name));
            }
        }
        lemma_ascending_unique(a, b, partition_name());
    }
    assert(r1 =~= r2);
}

} // verus!

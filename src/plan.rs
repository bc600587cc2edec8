use crate::disk::{format_of, parse_format, str_eq, BootMode, FileSystemKind, InstallError, TableKind};
use crate::layout::{DiskLayout, PartView, PlannedPartition};
use crate::order::{sort_by_path, PathKeyed};
use crate::schema::{copy_custom, opt_seq, CustomPartition, CustomView};
use vstd::prelude::*;

verus! {

/// One operation on a disk, in the order they are carried out: a fresh
/// table and its partitions for a whole-disk install, or changes to
/// existing partitions; then the commit of the table, the formatting of
/// what the commit produced, and the reload of the kernel's view.
#[derive(Debug)]
pub enum DiskTask {
    CreateTable { disk: String, table: TableKind },
    AddPartition { disk: String, partition: PlannedPartition },
    /// Format an existing partition and/or flag it as EFI system partition.
    Modify { disk: String, partition: String, format: Option<FileSystemKind>, esp: bool },
    Commit { disk: String },
    FormatNew { disk: String },
    Reload { disk: String },
}

pub enum DiskTaskView {
    CreateTable(Seq<char>, TableKind),
    AddPartition(Seq<char>, PartView),
    Modify(Seq<char>, Seq<char>, Option<FileSystemKind>, bool),
    Commit(Seq<char>),
    FormatNew(Seq<char>),
    Reload(Seq<char>),
}

impl View for DiskTask {
    type V = DiskTaskView;

    open spec fn view(&self) -> DiskTaskView {
        match self {
            DiskTask::CreateTable { disk, table } => DiskTaskView::CreateTable(disk@, *table),
            DiskTask::AddPartition { disk, partition } => DiskTaskView::AddPartition(disk@, partition@),
            DiskTask::Modify { disk, partition, format, esp } => DiskTaskView::Modify(
                disk@,
                partition@,
                *format,
                *esp,
            ),
            DiskTask::Commit { disk } => DiskTaskView::Commit(disk@),
            DiskTask::FormatNew { disk } => DiskTaskView::FormatNew(disk@),
            DiskTask::Reload { disk } => DiskTaskView::Reload(disk@),
        }
    }
}

pub open spec fn disk_tasks_view(v: Seq<DiskTask>) -> Seq<DiskTaskView> {
    v.map_values(|t: DiskTask| t@)
}

/// Commit, format what was committed, reload.
pub open spec fn finish_tasks(disk: Seq<char>) -> Seq<DiskTaskView> {
    seq![DiskTaskView::Commit(disk), DiskTaskView::FormatNew(disk), DiskTaskView::Reload(disk)]
}

/// The tasks of a whole-disk install of `parts` on a fresh table.
pub open spec fn full_disk_sequence(disk: Seq<char>, table: TableKind, parts: Seq<PartView>) -> Seq<
    DiskTaskView,
> {
    seq![DiskTaskView::CreateTable(disk, table)] + parts.map_values(
        |p: PartView| DiskTaskView::AddPartition(disk, p),
    ) + finish_tasks(disk)
}

pub fn copy_planned(p: &PlannedPartition) -> (r: PlannedPartition)
    ensures
        r@ == p@,
{
    PlannedPartition {
        start: p.start,
        end: p.end,
        fs: p.fs,
        esp: p.esp,
        mountpoint: p.mountpoint.clone(),
    }
}

fn push_finish(out: &mut Vec<DiskTask>, disk: &String)
    ensures
        disk_tasks_view(final(out)@) == disk_tasks_view(old(out)@) + finish_tasks(disk@),
{
    let ghost before = disk_tasks_view(out@);
    out.push(DiskTask::Commit { disk: disk.clone() });
    out.push(DiskTask::FormatNew { disk: disk.clone() });
    out.push(DiskTask::Reload { disk: disk.clone() });
    assert(disk_tasks_view(out@) =~= before + finish_tasks(disk@));
}

/// The tasks that lay `layout` out on `disk`.
pub fn full_disk_tasks(disk: &String, layout: &DiskLayout) -> (r: Vec<DiskTask>)
    ensures
        disk_tasks_view(r@) == full_disk_sequence(
            disk@,
            layout.table,
            layout.partitions@.map_values(|p: PlannedPartition| p@),
        ),
{
    let ghost parts = layout.partitions@.map_values(|p: PlannedPartition| p@);
    let mut out: Vec<DiskTask> = Vec::new();
    out.push(DiskTask::CreateTable { disk: disk.clone(), table: layout.table });
    let mut i: usize = 0;
    while i < layout.partitions.len()
        invariant
            i <= layout.partitions@.len(),
            parts == layout.partitions@.map_values(|p: PlannedPartition| p@),
            disk_tasks_view(out@) == seq![DiskTaskView::CreateTable(disk@, layout.table)] + parts.take(
                i as int,
            ).map_values(|p: PartView| DiskTaskView::AddPartition(disk@, p)),
        decreases layout.partitions.len() - i,
    {
        let ghost before = disk_tasks_view(out@);
        out.push(DiskTask::AddPartition { disk: disk.clone(), partition: copy_planned(&layout.partitions[i]) });
        assert(parts.take(i + 1) =~= parts.take(i as int).push(parts[i as int]));
        assert(parts[i as int] == layout.partitions@[i as int]@);
        assert(disk_tasks_view(out@) =~= before.push(DiskTaskView::AddPartition(disk@, parts[i as int])));
        assert(parts.take(i + 1).map_values(|p: PartView| DiskTaskView::AddPartition(disk@, p)) =~= parts.take(
            i as int,
        ).map_values(|p: PartView| DiskTaskView::AddPartition(disk@, p)).push(
            DiskTaskView::AddPartition(disk@, parts[i as int]),
        ));
        assert(disk_tasks_view(out@) =~= seq![DiskTaskView::CreateTable(disk@, layout.table)]
            + parts.take(i + 1).map_values(|p: PartView| DiskTaskView::AddPartition(disk@, p)));
        i = i + 1;
    }
    assert(parts.take(layout.partitions@.len() as int) =~= parts);
    push_finish(&mut out, disk);
    out
}

} // verus!

verus! {

/// The directives for the partitions of one disk, by partition path.
#[derive(Debug)]
pub struct DiskGroup {
    pub device: String,
    pub directives: Vec<(String, CustomPartition)>,
}

pub open spec fn pairs_view(v: Seq<(String, CustomPartition)>) -> Seq<(Seq<char>, CustomView)> {
    v.map_values(|e: (String, CustomPartition)| (e.0@, e.1@))
}

pub open spec fn strings_view(v: Seq<String>) -> Seq<Seq<char>> {
    v.map_values(|s: String| s@)
}

/// The file system a directive asks for; an unknown name asks for none.
pub open spec fn directive_fs(c: CustomView) -> Option<FileSystemKind> {
    match c.format {
        Some(f) => format_of(f),
        None => None,
    }
}

/// Under EFI, the partition mounted at `/boot` is flagged as EFI system
/// partition.
pub open spec fn directive_esp(c: CustomView, mode: BootMode) -> bool {
    mode == BootMode::Efi && c.mountpoint == Some("/boot"@)
}

/// The task for one directive, if it asks for a change.
pub open spec fn directive_task(disk: Seq<char>, path: Seq<char>, c: CustomView, mode: BootMode) -> Seq<
    DiskTaskView,
> {
    if directive_fs(c) is Some || directive_esp(c, mode) {
        seq![DiskTaskView::Modify(disk, path, directive_fs(c), directive_esp(c, mode))]
    } else {
        Seq::empty()
    }
}

pub open spec fn directive_tasks(disk: Seq<char>, s: Seq<(Seq<char>, CustomView)>, mode: BootMode) -> Seq<
    DiskTaskView,
>
    decreases s.len(),
{
    if s.len() == 0 {
        Seq::empty()
    } else {
        directive_tasks(disk, s.drop_last(), mode) + directive_task(disk, s.last().0, s.last().1, mode)
    }
}

/// The first directive path that names no existing partition.
pub open spec fn first_missing(s: Seq<(Seq<char>, CustomView)>, existing: Seq<Seq<char>>) -> Option<
    Seq<char>,
>
    decreases s.len(),
{
    if s.len() == 0 {
        None
    } else if !existing.contains(s[0].0) {
        Some(s[0].0)
    } else {
        first_missing(s.drop_first(), existing)
    }
}

fn contains_str(v: &Vec<String>, s: &String) -> (r: bool)
    ensures
        r == strings_view(v@).contains(s@),
{
    let mut i: usize = 0;
    while i < v.len()
        invariant
            i <= v@.len(),
            forall|j: int| 0 <= j < i ==> v@[j]@ != s@,
        decreases v.len() - i,
    {
        if str_eq(v[i].as_str(), s.as_str()) {
            assert(strings_view(v@)[i as int] == s@);
            return true;
        }
        i = i + 1;
    }
    proof {
        if strings_view(v@).contains(s@) {
            let j = choose|j: int| 0 <= j < v@.len() && strings_view(v@)[j] == s@;
            assert(v@[j]@ == s@);
        }
    }
    false
}

fn fs_of(format: &Option<String>) -> (r: Option<FileSystemKind>)
    ensures
        r == (match opt_seq(*format) {
            Some(f) => format_of(f),
            None => None,
        }),
{
    match format {
        Some(f) => parse_format(f.as_str()),
        None => None,
    }
}

/// The tasks that apply a disk's directives once the disk is open and its
/// partitions are known; the first directive naming a partition the disk
/// does not have fails the disk before anything is changed.
pub fn custom_disk_tasks(group: &DiskGroup, existing: &Vec<String>, mode: BootMode) -> (r: Result<
    Vec<DiskTask>,
    InstallError,
>)
    ensures
        match first_missing(pairs_view(group.directives@), strings_view(existing@)) {
            Some(p) => r matches Err(InstallError::PartitionNotFound(q)) && q@ == p,
            None => r matches Ok(t) && disk_tasks_view(t@) == directive_tasks(
                group.device@,
                pairs_view(group.directives@),
                mode,
            ) + finish_tasks(group.device@),
        },
{
    let ghost s = pairs_view(group.directives@);
    let ghost ex = strings_view(existing@);
    let n = group.directives.len();
    let mut i: usize = 0;
    assert(s.subrange(0, n as int) =~= s);
    while i < n
        invariant
            n == group.directives@.len() == s.len(),
            s == pairs_view(group.directives@),
            ex == strings_view(existing@),
            i <= n,
            first_missing(s, ex) == first_missing(s.subrange(i as int, n as int), ex),
        decreases n - i,
    {
        let ghost rest = s.subrange(i as int, n as int);
        assert(rest[0] == s[i as int]);
        if !contains_str(existing, &group.directives[i].0) {
            return Err(InstallError::PartitionNotFound(group.directives[i].0.clone()));
        }
        assert(rest.drop_first() =~= s.subrange(i + 1, n as int));
        i = i + 1;
    }
    assert(s.subrange(n as int, n as int).len() == 0);
    let mut out: Vec<DiskTask> = Vec::new();
    let mut i: usize = 0;
    while i < n
        invariant
            n == group.directives@.len() == s.len(),
            s == pairs_view(group.directives@),
            i <= n,
            disk_tasks_view(out@) == directive_tasks(group.device@, s.take(i as int), mode),
        decreases n - i,
    {
        let ghost before = disk_tasks_view(out@);
        let c = &group.directives[i].1;
        let fs = fs_of(&c.format);
        let esp = match mode {
            BootMode::Efi => match &c.mountpoint {
                Some(m) => str_eq(m.as_str(), "/boot"),
                None => false,
            },
            BootMode::Legacy => false,
        };
        if fs.is_some() || esp {
            out.push(
                DiskTask::Modify {
                    disk: group.device.clone(),
                    partition: group.directives[i].0.clone(),
                    format: fs,
                    esp,
                },
            );
        }
        assert(s.take(i + 1).drop_last() =~= s.take(i as int));
        assert(s.take(i + 1).last() == s[i as int]);
        assert(disk_tasks_view(out@) =~= directive_tasks(group.device@, s.take(i + 1), mode));
        i = i + 1;
    }
    assert(s.take(n as int) =~= s);
    push_finish(&mut out, &group.device);
    Ok(out)
}

/// A directive whose format name is not one of the known file systems is
/// planned exactly as if it named no format: it formats nothing, and the
/// rest of the disk's plan is unchanged.
pub proof fn lemma_unknown_format_ignored(
    disk: Seq<char>,
    s: Seq<(Seq<char>, CustomView)>,
    i: int,
    mode: BootMode,
)
    requires
        0 <= i < s.len(),
        s[i].1.format matches Some(f) && format_of(f) is None,
    ensures
        directive_tasks(disk, s, mode) == directive_tasks(
            disk,
            s.update(i, (s[i].0, CustomView { format: None, ..s[i].1 })),
            mode,
        ),
        forall|j: int|
            0 <= j < directive_task(disk, s[i].0, s[i].1, mode).len() ==> (#[trigger] directive_task(
                disk,
                s[i].0,
                s[i].1,
                mode,
            )[j] matches DiskTaskView::Modify(_, _, fs, _) && fs is None),
    decreases s.len(),
{
    let u = s.update(i, (s[i].0, CustomView { format: None, ..s[i].1 }));
    if i < s.len() - 1 {
        lemma_unknown_format_ignored(disk, s.drop_last(), i, mode);
        assert(u.drop_last() =~= s.drop_last().update(i, (s[i].0, CustomView { format: None, ..s[i].1 })));
        assert(u.last() == s.last());
    } else {
        assert(u.drop_last() =~= s.drop_last());
    }
}

} // verus!

verus! {

impl PathKeyed for (String, CustomPartition) {
    open spec fn path_key(&self) -> Seq<char> {
        self.0@
    }

    fn path(&self) -> (r: &str) {
        self.0.as_str()
    }
}

/// The disks the directives are on, in order of first mention.
pub open spec fn devices_in_order(s: Seq<(Seq<char>, CustomView)>) -> Seq<Seq<char>>
    decreases s.len(),
{
    if s.len() == 0 {
        Seq::empty()
    } else {
        let d = devices_in_order(s.drop_last());
        if d.contains(s.last().1.device) {
            d
        } else {
            d.push(s.last().1.device)
        }
    }
}

/// The directives for partitions of disk `dev`, in order.
pub open spec fn on_device(s: Seq<(Seq<char>, CustomView)>, dev: Seq<char>) -> Seq<(Seq<char>, CustomView)>
    decreases s.len(),
{
    if s.len() == 0 {
        Seq::empty()
    } else {
        on_device(s.drop_last(), dev) + if s.last().1.device == dev {
            seq![s.last()]
        } else {
            Seq::empty()
        }
    }
}

pub open spec fn pair_key() -> spec_fn((Seq<char>, CustomView)) -> Seq<char> {
    |e: (Seq<char>, CustomView)| e.0
}

/// `r` groups the directives `s` by disk: one group per disk, in order of
/// first mention, each holding that disk's directives by partition path.
pub open spec fn grouped(s: Seq<(Seq<char>, CustomView)>, r: Seq<DiskGroup>) -> bool {
    &&& r.len() == devices_in_order(s).len()
    &&& forall|g: int|
        0 <= g < r.len() ==> {
            &&& (#[trigger] r[g]).device@ == devices_in_order(s)[g]
            &&& pairs_view(r[g].directives@).to_multiset() == on_device(s, r[g].device@).to_multiset()
            &&& crate::order::ascending(pairs_view(r[g].directives@), pair_key())
        }
}

fn copy_pair(e: &(String, CustomPartition)) -> (r: (String, CustomPartition))
    ensures
        r.0@ == e.0@,
        r.1@ == e.1@,
{
    (e.0.clone(), copy_custom(&e.1))
}

/// Groups directives by the disk they are on.
pub fn group_directives(entries: &Vec<(String, CustomPartition)>) -> (r: Vec<DiskGroup>)
    ensures
        grouped(pairs_view(entries@), r@),
{
    let ghost s = pairs_view(entries@);
    let n = entries.len();
    let mut groups: Vec<DiskGroup> = Vec::new();
    let mut i: usize = 0;
    while i < n
        invariant
            n == entries@.len() == s.len(),
            s == pairs_view(entries@),
            i <= n,
            groups@.len() == devices_in_order(s.take(i as int)).len(),
            forall|g: int|
                0 <= g < groups@.len() ==> (#[trigger] groups@[g]).device@ == devices_in_order(
                    s.take(i as int),
                )[g] && pairs_view(groups@[g].directives@) == on_device(
                    s.take(i as int),
                    groups@[g].device@,
                ),
        decreases n - i,
    {
        let ghost t = s.take(i as int);
        let ghost t1 = s.take(i + 1);
        assert(t1.drop_last() =~= t);
        assert(t1.last() == s[i as int]);
        let dev = &entries[i].1.device;
        let mut g: usize = 0;
        while g < groups.len() && !str_eq(groups[g].device.as_str(), dev.as_str())
            invariant
                g <= groups@.len(),
                forall|h: int| 0 <= h < g ==> (#[trigger] groups@[h]).device@ != dev@,
            decreases groups.len() - g,
        {
            g = g + 1;
        }
        let ghost old_groups = groups@;
        if g == groups.len() {
            let mut ds: Vec<(String, CustomPartition)> = Vec::new();
            ds.push(copy_pair(&entries[i]));
            groups.push(DiskGroup { device: dev.clone(), directives: ds });
            proof {
                assert(!devices_in_order(t).contains(dev@)) by {
                    if devices_in_order(t).contains(dev@) {
                        let h = choose|h: int| 0 <= h < devices_in_order(t).len() && devices_in_order(t)[h] == dev@;
                        assert(old_groups[h].device@ == dev@);
                    }
                }
                assert forall|h: int| 0 <= h < groups@.len() implies (#[trigger] groups@[h]).device@
                    == devices_in_order(t1)[h] && pairs_view(groups@[h].directives@) == on_device(
                    t1,
                    groups@[h].device@,
                ) by {
                    if h < old_groups.len() {
                        assert(groups@[h] == old_groups[h]);
                        assert(groups@[h].device@ != dev@);
                        assert(on_device(t1, groups@[h].device@) =~= on_device(t, groups@[h].device@));
                    } else {
                        assert(on_device(t, dev@) =~= Seq::<(Seq<char>, CustomView)>::empty()) by {
                            lemma_on_device_absent(t, dev@);
                        }
                        assert(pairs_view(groups@[h].directives@) =~= seq![s[i as int]]);
                        assert(on_device(t1, dev@) =~= seq![s[i as int]]);
                    }
                }
            }
        } else {
            let mut grp = groups.remove(g);
            grp.directives.push(copy_pair(&entries[i]));
            groups.insert(g, grp);
            proof {
                assert(devices_in_order(t).contains(dev@)) by {
                    assert(devices_in_order(t)[g as int] == dev@);
                }
                assert forall|h: int| 0 <= h < groups@.len() implies (#[trigger] groups@[h]).device@
                    == devices_in_order(t1)[h] && pairs_view(groups@[h].directives@) == on_device(
                    t1,
                    groups@[h].device@,
                ) by {
                    if h != g {
                        assert(groups@[h] == old_groups[h]);
                        assert(devices_in_order(t)[h] != devices_in_order(t)[g as int]) by {
                            lemma_devices_distinct(t);
                        }
                        assert(on_device(t1, groups@[h].device@) =~= on_device(t, groups@[h].device@));
                    } else {
                        assert(pairs_view(groups@[h].directives@) =~= pairs_view(old_groups[h].directives@).push(
                            s[i as int],
                        ));
                        assert(on_device(t1, dev@) =~= on_device(t, dev@).push(s[i as int]));
                    }
                }
            }
        }
        i = i + 1;
    }
    assert(s.take(n as int) =~= s);
    let ghost exact = groups@;
    let mut k: usize = 0;
    while k < groups.len()
        invariant
            k <= groups@.len(),
            groups@.len() == exact.len() == devices_in_order(s).len(),
            forall|g: int| 0 <= g < exact.len() ==> (#[trigger] exact[g]).device@ == devices_in_order(s)[g]
                && pairs_view(exact[g].directives@) == on_device(s, exact[g].device@),
            forall|g: int| k <= g < groups@.len() ==> #[trigger] groups@[g] == exact[g],
            forall|g: int|
                0 <= g < k ==> {
                    &&& (#[trigger] groups@[g]).device@ == devices_in_order(s)[g]
                    &&& pairs_view(groups@[g].directives@).to_multiset() == on_device(
                        s,
                        groups@[g].device@,
                    ).to_multiset()
                    &&& crate::order::ascending(pairs_view(groups@[g].directives@), pair_key())
                },
        decreases groups.len() - k,
    {
        let ghost before = groups@;
        let mut grp = groups.remove(k);
        let ghost unsorted = grp.directives@;
        sort_by_path(&mut grp.directives);
        proof {
            crate::order::lemma_map_same_multiset(
                grp.directives@,
                unsorted,
                |e: (String, CustomPartition)| (e.0@, e.1@),
            );
            let pv = pairs_view(grp.directives@);
            assert forall|a: int, b: int| 0 <= a < b < pv.len() implies crate::order::path_le(
                pair_key()(#[trigger] pv[a]),
                pair_key()(#[trigger] pv[b]),
            ) by {
                assert(crate::order::path_le(grp.directives@[a].path_key(), grp.directives@[b].path_key()));
            }
        }
        groups.insert(k, grp);
        proof {
            assert forall|g: int| k + 1 <= g < groups@.len() implies #[trigger] groups@[g] == exact[g] by {
                assert(groups@[g] == before[g]);
            }
            assert forall|g: int| 0 <= g < k implies #[trigger] groups@[g] == before[g] by {}
        }
        k = k + 1;
    }
    groups
}

proof fn lemma_on_device_absent(s: Seq<(Seq<char>, CustomView)>, dev: Seq<char>)
    requires
        !devices_in_order(s).contains(dev),
    ensures
        on_device(s, dev).len() == 0,
    decreases s.len(),
{
    if s.len() > 0 {
        let d = devices_in_order(s.drop_last());
        if d.contains(dev) {
            let h = choose|h: int| 0 <= h < d.len() && d[h] == dev;
            assert(devices_in_order(s).contains(dev)) by {
                if d.contains(s.last().1.device) {
                    assert(devices_in_order(s)[h] == dev);
                } else {
                    assert(devices_in_order(s)[h] == dev);
                }
            }
        }
        lemma_on_device_absent(s.drop_last(), dev);
        if s.last().1.device == dev {
            if d.contains(s.last().1.device) {
            } else {
                assert(devices_in_order(s)[d.len() as int] == dev);
            }
        }
    }
}

proof fn lemma_devices_distinct(s: Seq<(Seq<char>, CustomView)>)
    ensures
        forall|a: int, b: int|
            0 <= a < b < devices_in_order(s).len() ==> devices_in_order(s)[a] != devices_in_order(s)[b],
    decreases s.len(),
{
    if s.len() > 0 {
        lemma_devices_distinct(s.drop_last());
        let d = devices_in_order(s.drop_last());
        if !d.contains(s.last().1.device) {
            assert forall|a: int, b: int|
                0 <= a < b < devices_in_order(s).len() implies devices_in_order(s)[a] != devices_in_order(s)[b] by {
                if b == d.len() {
                    assert(devices_in_order(s)[a] == d[a]);
                }
            }
        }
    }
}

} // verus!

use crate::disk::{errors_view, str_eq, table_for, BootMode, ErrorView, InstallError};
use crate::layout::{plan_full_disk, whole_disk_parts, layout_fits};
use crate::mount::{entries_view, mount_order, mount_sequence, tasks_view, EntryView, MountEntry, MountTask, MountTaskView};
use crate::plan::{
    custom_disk_tasks, directive_tasks, disk_tasks_view, finish_tasks, first_missing,
    full_disk_sequence, full_disk_tasks, group_directives, pairs_view, strings_view,
    DiskGroup, DiskTask, DiskTaskView,
};
use crate::schema::{CustomPartition, CustomView};
use vstd::prelude::*;

verus! {

/// What the caller is to do next.
#[derive(Debug)]
pub enum Step {
    /// Open the disk and report its geometry and partitions.
    OpenDisk { disk: String },
    Disk(DiskTask),
    Mount(MountTask),
}

/// How a step went.
#[derive(Debug)]
pub enum Outcome {
    Failed,
    Done,
    /// The disk is open: its length in sectors, the sector size, and the
    /// device paths of its partitions.
    Opened { sectors: u64, sector_size: u64, partitions: Vec<String> },
    /// The disk was reloaded: the device path and mountpoint of each new
    /// partition that has one.
    Reloaded { mounts: Vec<(String, String)> },
}

#[derive(Clone, Copy, Debug, PartialEq, Eq, Structural)]
pub enum Phase {
    /// Opening the disk of group `g`.
    Open(usize),
    /// Running task `t` of the disk of group `g`.
    Disk(usize, usize),
    /// Running mount task `t`.
    Mount(usize),
    Done,
}

/// The progress of one partitioning run: disk by disk, then the mounts.
/// Within a disk a failure ends that disk. Under a whole-disk install any
/// failure ends the run; under custom directives the other disks are still
/// done, the mounts only when no disk failed, and a failed mount does not
/// stop the mounts after it.
#[derive(Debug)]
pub struct Install {
    full: bool,
    mode: BootMode,
    groups: Vec<DiskGroup>,
    entries: Vec<MountEntry>,
    queue: Vec<DiskTask>,
    mounts: Vec<MountTask>,
    phase: Phase,
    errors: Vec<InstallError>,
}

pub struct GroupView {
    pub device: Seq<char>,
    pub directives: Seq<(Seq<char>, CustomView)>,
}

pub struct InstallView {
    pub full: bool,
    pub mode: BootMode,
    pub groups: Seq<GroupView>,
    pub entries: Seq<EntryView>,
    pub queue: Seq<DiskTaskView>,
    pub mounts: Seq<MountTaskView>,
    pub phase: Phase,
    pub errors: Seq<ErrorView>,
}

pub enum StepView {
    OpenDisk(Seq<char>),
    Disk(DiskTaskView),
    Mount(MountTaskView),
}

pub enum OutcomeView {
    Failed,
    Done,
    Opened(nat, nat, Seq<Seq<char>>),
    Reloaded(Seq<(Seq<char>, Seq<char>)>),
}

impl View for Outcome {
    type V = OutcomeView;

    open spec fn view(&self) -> OutcomeView {
        match self {
            Outcome::Failed => OutcomeView::Failed,
            Outcome::Done => OutcomeView::Done,
            Outcome::Opened { sectors, sector_size, partitions } => OutcomeView::Opened(
                *sectors as nat,
                *sector_size as nat,
                strings_view(partitions@),
            ),
            Outcome::Reloaded { mounts } => OutcomeView::Reloaded(
                mounts@.map_values(|m: (String, String)| (m.0@, m.1@)),
            ),
        }
    }
}

impl View for Step {
    type V = StepView;

    open spec fn view(&self) -> StepView {
        match self {
            Step::OpenDisk { disk } => StepView::OpenDisk(disk@),
            Step::Disk(t) => StepView::Disk(t@),
            Step::Mount(t) => StepView::Mount(t@),
        }
    }
}

impl View for Install {
    type V = InstallView;

    closed spec fn view(&self) -> InstallView {
        InstallView {
            full: self.full,
            mode: self.mode,
            groups: self.groups@.map_values(
                |g: DiskGroup| GroupView { device: g.device@, directives: pairs_view(g.directives@) },
            ),
            entries: entries_view(self.entries@),
            queue: disk_tasks_view(self.queue@),
            mounts: tasks_view(self.mounts@),
            phase: self.phase,
            errors: errors_view(self.errors@),
        }
    }
}

/// The groups of a custom run: one per disk, in order of first mention,
/// each with that disk's directives by partition path.
pub open spec fn groups_of(s: Seq<(Seq<char>, CustomView)>, gs: Seq<GroupView>) -> bool {
    &&& gs.len() == crate::plan::devices_in_order(s).len()
    &&& forall|g: int|
        0 <= g < gs.len() ==> {
            &&& (#[trigger] gs[g]).device == crate::plan::devices_in_order(s)[g]
            &&& gs[g].directives.to_multiset() == crate::plan::on_device(s, gs[g].device).to_multiset()
            &&& crate::order::ascending(gs[g].directives, crate::plan::pair_key())
        }
}

/// The error a failed disk task reports.
pub open spec fn task_error(t: DiskTaskView) -> ErrorView {
    match t {
        DiskTaskView::CreateTable(d, _) => ErrorView::TableCreationFailed(d),
        DiskTaskView::AddPartition(d, _) => ErrorView::PartitionCreationFailed(d),
        DiskTaskView::Modify(_, p, _, _) => ErrorView::FormatFailed(p),
        DiskTaskView::Commit(d) => ErrorView::CommitFailed(d),
        DiskTaskView::FormatNew(d) => ErrorView::FormatFailed(d),
        DiskTaskView::Reload(d) => ErrorView::ReloadFailed(d),
    }
}

/// The error a failed mount task reports.
pub open spec fn mount_error(t: MountTaskView) -> ErrorView {
    match t {
        MountTaskView::CreateDir(m) => ErrorView::MountFailed(m),
        MountTaskView::Mount(_, m, _) => ErrorView::MountFailed(m),
        MountTaskView::SwapOn(d) => ErrorView::MountFailed(d),
    }
}

/// The mounts of a custom run: each directive's partition, mounted at its
/// mountpoint or, when it is to be formatted as swap, activated as swap.
pub open spec fn custom_entries(s: Seq<(Seq<char>, CustomView)>) -> Seq<EntryView> {
    s.map_values(
        |e: (Seq<char>, CustomView)|
            EntryView {
                device: e.0,
                mountpoint: e.1.mountpoint,
                swap: e.1.format == Some("swap"@),
            },
    )
}

/// The mounts after a whole-disk install: the new partitions with their
/// mountpoints.
pub open spec fn reloaded_entries(m: Seq<(Seq<char>, Seq<char>)>) -> Seq<EntryView> {
    m.map_values(
        |e: (Seq<char>, Seq<char>)| EntryView { device: e.0, mountpoint: Some(e.1), swap: false },
    )
}

/// Starts the mounts, or finishes when there are none.
pub open spec fn start_mounts(v: InstallView, mounts: Seq<MountTaskView>) -> InstallView {
    InstallView {
        queue: Seq::empty(),
        mounts,
        phase: if mounts.len() > 0 {
            Phase::Mount(0)
        } else {
            Phase::Done
        },
        ..v
    }
}

/// What follows once the disk of group `g` is done with, well or not.
pub open spec fn after_group(v: InstallView, g: int) -> InstallView {
    if g + 1 < v.groups.len() {
        InstallView { queue: Seq::empty(), phase: Phase::Open((g + 1) as usize), ..v }
    } else if v.errors.len() == 0 && !v.full {
        start_mounts(v, mount_sequence(v.entries))
    } else {
        InstallView { queue: Seq::empty(), phase: Phase::Done, ..v }
    }
}

pub open spec fn fail_with(v: InstallView, e: ErrorView) -> InstallView {
    InstallView { errors: v.errors.push(e), ..v }
}

pub open spec fn stop(v: InstallView) -> InstallView {
    InstallView { queue: Seq::empty(), phase: Phase::Done, ..v }
}

/// The run once the disk of group `g` was opened.
pub open spec fn on_opened(v: InstallView, g: int, sectors: nat, sector_size: nat, parts: Seq<Seq<char>>) -> InstallView {
    let dev = v.groups[g].device;
    if v.full {
        if sector_size == 0 || !layout_fits(sectors as int, sector_size as int, v.mode) {
            stop(fail_with(v, ErrorView::PartitionCreationFailed(dev)))
        } else {
            InstallView {
                queue: full_disk_sequence(
                    dev,
                    table_for(v.mode),
                    whole_disk_parts(sectors as int, sector_size as int, v.mode),
                ),
                phase: Phase::Disk(g as usize, 0),
                ..v
            }
        }
    } else {
        match first_missing(v.groups[g].directives, parts) {
            Some(p) => after_group(fail_with(v, ErrorView::PartitionNotFound(p)), g),
            None => InstallView {
                queue: directive_tasks(dev, v.groups[g].directives, v.mode) + finish_tasks(dev),
                phase: Phase::Disk(g as usize, 0),
                ..v
            },
        }
    }
}

/// The run after the caller reports outcome `o` of the current step.
pub open spec fn next_state(v: InstallView, o: OutcomeView) -> InstallView {
    match v.phase {
        Phase::Open(g) => match o {
            OutcomeView::Opened(sectors, sector_size, parts) => on_opened(v, g as int, sectors, sector_size, parts),
            _ => {
                let w = fail_with(v, ErrorView::DiskNotFound(v.groups[g as int].device));
                if v.full {
                    stop(w)
                } else {
                    after_group(w, g as int)
                }
            },
        },
        Phase::Disk(g, t) => match o {
            OutcomeView::Failed => {
                let w = fail_with(v, task_error(v.queue[t as int]));
                if v.full {
                    stop(w)
                } else {
                    after_group(w, g as int)
                }
            },
            _ => if t + 1 < v.queue.len() {
                InstallView { phase: Phase::Disk(g, (t + 1) as usize), ..v }
            } else if v.full {
                start_mounts(
                    v,
                    mount_sequence(
                        match o {
                            OutcomeView::Reloaded(m) => reloaded_entries(m),
                            _ => Seq::empty(),
                        },
                    ),
                )
            } else {
                after_group(v, g as int)
            },
        },
        Phase::Mount(t) => {
            let next = if o is Failed && v.mounts[t as int] is CreateDir {
                t + 2
            } else {
                t + 1
            };
            let w = if o is Failed {
                fail_with(v, mount_error(v.mounts[t as int]))
            } else {
                v
            };
            if o is Failed && v.full {
                InstallView { phase: Phase::Done, ..w }
            } else if next < v.mounts.len() {
                InstallView { phase: Phase::Mount(next as usize), ..w }
            } else {
                InstallView { phase: Phase::Done, ..w }
            }
        },
        Phase::Done => v,
    }
}

/// The step the run is at.
pub open spec fn current_step(v: InstallView) -> Option<StepView> {
    match v.phase {
        Phase::Open(g) => Some(StepView::OpenDisk(v.groups[g as int].device)),
        Phase::Disk(_, t) => Some(StepView::Disk(v.queue[t as int])),
        Phase::Mount(t) => Some(StepView::Mount(v.mounts[t as int])),
        Phase::Done => None,
    }
}

impl Install {
    /// The phase points at a step that exists.
    pub closed spec fn wf(&self) -> bool {
        &&& self.full ==> self.groups@.len() == 1
        &&& match self.phase {
            Phase::Open(g) => g < self.groups@.len(),
            Phase::Disk(g, t) => g < self.groups@.len() && t < self.queue@.len(),
            Phase::Mount(t) => t < self.mounts@.len(),
            Phase::Done => true,
        }
    }
}

} // verus!

verus! {

fn copy_disk_task(t: &DiskTask) -> (r: DiskTask)
    ensures
        r@ == t@,
{
    match t {
        DiskTask::CreateTable { disk, table } => DiskTask::CreateTable { disk: disk.clone(), table: *table },
        DiskTask::AddPartition { disk, partition } => DiskTask::AddPartition {
            disk: disk.clone(),
            partition: crate::plan::copy_planned(partition),
        },
        DiskTask::Modify { disk, partition, format, esp } => DiskTask::Modify {
            disk: disk.clone(),
            partition: partition.clone(),
            format: *format,
            esp: *esp,
        },
        DiskTask::Commit { disk } => DiskTask::Commit { disk: disk.clone() },
        DiskTask::FormatNew { disk } => DiskTask::FormatNew { disk: disk.clone() },
        DiskTask::Reload { disk } => DiskTask::Reload { disk: disk.clone() },
    }
}

fn copy_mount_task(t: &MountTask) -> (r: MountTask)
    ensures
        r@ == t@,
{
    match t {
        MountTask::CreateDir { mountpoint } => MountTask::CreateDir { mountpoint: mountpoint.clone() },
        MountTask::Mount { device, mountpoint, restricted } => MountTask::Mount {
            device: device.clone(),
            mountpoint: mountpoint.clone(),
            restricted: *restricted,
        },
        MountTask::SwapOn { device } => MountTask::SwapOn { device: device.clone() },
    }
}

fn disk_task_error(t: &DiskTask) -> (r: InstallError)
    ensures
        r@ == task_error(t@),
{
    match t {
        DiskTask::CreateTable { disk, .. } => InstallError::TableCreationFailed(disk.clone()),
        DiskTask::AddPartition { disk, .. } => InstallError::PartitionCreationFailed(disk.clone()),
        DiskTask::Modify { partition, .. } => InstallError::FormatFailed(partition.clone()),
        DiskTask::Commit { disk } => InstallError::CommitFailed(disk.clone()),
        DiskTask::FormatNew { disk } => InstallError::FormatFailed(disk.clone()),
        DiskTask::Reload { disk } => InstallError::ReloadFailed(disk.clone()),
    }
}

fn mount_task_error(t: &MountTask) -> (r: InstallError)
    ensures
        r@ == mount_error(t@),
{
    match t {
        MountTask::CreateDir { mountpoint } => InstallError::MountFailed(mountpoint.clone()),
        MountTask::Mount { mountpoint, .. } => InstallError::MountFailed(mountpoint.clone()),
        MountTask::SwapOn { device } => InstallError::MountFailed(device.clone()),
    }
}

fn is_swap_format(format: &Option<String>) -> (r: bool)
    ensures
        r == (crate::schema::opt_seq(*format) == Some("swap"@)),
{
    match format {
        Some(f) => str_eq(f.as_str(), "swap"),
        None => false,
    }
}

fn mount_entries_of(entries: &Vec<(String, CustomPartition)>) -> (r: Vec<MountEntry>)
    ensures
        entries_view(r@) == custom_entries(pairs_view(entries@)),
{
    let mut out: Vec<MountEntry> = Vec::new();
    let mut i: usize = 0;
    while i < entries.len()
        invariant
            i <= entries@.len(),
            entries_view(out@) == custom_entries(pairs_view(entries@.take(i as int))),
        decreases entries.len() - i,
    {
        let ghost before = entries_view(out@);
        let c = &entries[i].1;
        let mountpoint = match &c.mountpoint {
            Some(m) => Some(m.clone()),
            None => None,
        };
        out.push(MountEntry { device: entries[i].0.clone(), mountpoint, swap: is_swap_format(&c.format) });
        assert(entries@.take(i + 1) =~= entries@.take(i as int).push(entries@[i as int]));
        assert(entries_view(out@) =~= before.push(out@[i as int]@));
        assert(pairs_view(entries@.take(i + 1)) =~= pairs_view(entries@.take(i as int)).push(
            (entries@[i as int].0@, entries@[i as int].1@),
        ));
        assert(custom_entries(pairs_view(entries@.take(i + 1))) =~= custom_entries(
            pairs_view(entries@.take(i as int)),
        ).push(out@[i as int]@));
        i = i + 1;
    }
    assert(entries@.take(entries@.len() as int) =~= entries@);
    out
}

fn reloaded_mount_entries(mounts: &Vec<(String, String)>) -> (r: Vec<MountEntry>)
    ensures
        entries_view(r@) == reloaded_entries(mounts@.map_values(|m: (String, String)| (m.0@, m.1@))),
{
    let ghost mv = mounts@.map_values(|m: (String, String)| (m.0@, m.1@));
    let mut out: Vec<MountEntry> = Vec::new();
    let mut i: usize = 0;
    while i < mounts.len()
        invariant
            i <= mounts@.len(),
            mv == mounts@.map_values(|m: (String, String)| (m.0@, m.1@)),
            entries_view(out@) == reloaded_entries(mv.take(i as int)),
        decreases mounts.len() - i,
    {
        let ghost before = entries_view(out@);
        out.push(
            MountEntry { device: mounts[i].0.clone(), mountpoint: Some(mounts[i].1.clone()), swap: false },
        );
        assert(mv.take(i + 1) =~= mv.take(i as int).push(mv[i as int]));
        assert(entries_view(out@) =~= before.push(out@[i as int]@));
        assert(reloaded_entries(mv.take(i + 1)) =~= reloaded_entries(mv.take(i as int)).push(
            out@[i as int]@,
        ));
        i = i + 1;
    }
    assert(mv.take(mounts@.len() as int) =~= mv);
    out
}

} // verus!

verus! {

impl Install {
    /// A whole-disk install on `disk`.
    pub fn full_disk(disk: String, mode: BootMode) -> (r: Install)
        ensures
            r.wf(),
            r@.full,
            r@.mode == mode,
            r@.groups.len() == 1,
            r@.groups[0].device == disk@,
            r@.groups[0].directives.len() == 0,
            r@.entries.len() == 0,
            r@.phase == Phase::Open(0),
            r@.errors.len() == 0,
    {
        let mut groups: Vec<DiskGroup> = Vec::new();
        groups.push(DiskGroup { device: disk, directives: Vec::new() });
        let r = Install {
            full: true,
            mode,
            groups,
            entries: Vec::new(),
            queue: Vec::new(),
            mounts: Vec::new(),
            phase: Phase::Open(0),
            errors: Vec::new(),
        };
        assert(r@.groups[0].directives =~= Seq::<(Seq<char>, CustomView)>::empty());
        r
    }

    /// A run of custom directives: their disks one by one, in order of first
    /// mention, then the mounts.
    pub fn custom(entries: &Vec<(String, CustomPartition)>, mode: BootMode) -> (r: Install)
        ensures
            r.wf(),
            !r@.full,
            r@.mode == mode,
            groups_of(pairs_view(entries@), r@.groups),
            r@.entries == custom_entries(pairs_view(entries@)),
            r@.errors.len() == 0,
            r@.phase == (if r@.groups.len() > 0 {
                Phase::Open(0)
            } else if mount_sequence(r@.entries).len() > 0 {
                Phase::Mount(0)
            } else {
                Phase::Done
            }),
    {
        let groups = group_directives(entries);
        proof {
            let gv = groups@.map_values(
                |g: DiskGroup| GroupView { device: g.device@, directives: pairs_view(g.directives@) },
            );
            assert forall|g: int| 0 <= g < gv.len() implies (#[trigger] gv[g]).device
                == crate::plan::devices_in_order(pairs_view(entries@))[g] by {
                assert(groups@[g].device@ == crate::plan::devices_in_order(pairs_view(entries@))[g]);
            }
        }
        let mount_entries = mount_entries_of(entries);
        let mut r = Install {
            full: false,
            mode,
            groups,
            entries: mount_entries,
            queue: Vec::new(),
            mounts: Vec::new(),
            phase: Phase::Done,
            errors: Vec::new(),
        };
        if r.groups.len() > 0 {
            r.phase = Phase::Open(0);
        } else {
            let m = mount_order(&r.entries);
            if m.len() > 0 {
                r.phase = Phase::Mount(0);
            }
            r.mounts = m;
        }
        r
    }

    /// The step to carry out now; `None` once the run is over.
    pub fn current(&self) -> (r: Option<Step>)
        requires
            self.wf(),
        ensures
            match r {
                Some(s) => current_step(self@) == Some(s@),
                None => current_step(self@) is None,
            },
    {
        match self.phase {
            Phase::Open(g) => Some(Step::OpenDisk { disk: self.groups[g].device.clone() }),
            Phase::Disk(_, t) => Some(Step::Disk(copy_disk_task(&self.queue[t]))),
            Phase::Mount(t) => Some(Step::Mount(copy_mount_task(&self.mounts[t]))),
            Phase::Done => None,
        }
    }

    pub fn is_done(&self) -> (r: bool)
        ensures
            r == (self@.phase == Phase::Done),
    {
        self.phase == Phase::Done
    }

    /// The failures so far, in the order they happened.
    pub fn errors(&self) -> (r: &Vec<InstallError>)
        ensures
            errors_view(r@) == self@.errors,
    {
        &self.errors
    }

    fn stop_run(&mut self)
        ensures
            final(self)@ == stop(old(self)@),
            final(self).groups@ == old(self).groups@,
            (old(self).full ==> old(self).groups@.len() == 1) ==> final(self).wf(),
    {
        self.queue = Vec::new();
        self.phase = Phase::Done;
        assert(self@.queue =~= Seq::<DiskTaskView>::empty());
    }

    fn fail(&mut self, e: InstallError)
        ensures
            final(self)@ == fail_with(old(self)@, e@),
            final(self).groups@ == old(self).groups@,
            final(self).full == old(self).full,
            final(self).phase == old(self).phase,
            final(self).queue@ == old(self).queue@,
            final(self).mounts@ == old(self).mounts@,
    {
        self.errors.push(e);
        assert(self@.errors =~= old(self)@.errors.push(e@));
    }

    fn begin_mounts(&mut self, mounts: Vec<MountTask>)
        requires
            old(self).full ==> old(self).groups@.len() == 1,
        ensures
            final(self).wf(),
            final(self)@ == start_mounts(old(self)@, tasks_view(mounts@)),
            final(self).groups@ == old(self).groups@,
    {
        self.queue = Vec::new();
        if mounts.len() > 0 {
            self.phase = Phase::Mount(0);
        } else {
            self.phase = Phase::Done;
        }
        self.mounts = mounts;
        assert(self@.queue =~= Seq::<DiskTaskView>::empty());
    }

    fn next_group(&mut self, g: usize)
        requires
            g < old(self).groups@.len(),
            old(self).full ==> old(self).groups@.len() == 1,
        ensures
            final(self).wf(),
            final(self)@ == after_group(old(self)@, g as int),
    {
        if g < self.groups.len() - 1 {
            self.queue = Vec::new();
            self.phase = Phase::Open(g + 1);
            assert(self@.queue =~= Seq::<DiskTaskView>::empty());
        } else if self.errors.len() == 0 && !self.full {
            let m = mount_order(&self.entries);
            self.begin_mounts(m);
        } else {
            self.queue = Vec::new();
            self.phase = Phase::Done;
            assert(self@.queue =~= Seq::<DiskTaskView>::empty());
        }
    }
}

} // verus!

verus! {

impl Install {
    fn opened(&mut self, g: usize, sectors: u64, sector_size: u64, partitions: &Vec<String>)
        requires
            old(self).wf(),
            old(self).phase == Phase::Open(g),
        ensures
            final(self).wf(),
            final(self)@ == on_opened(old(self)@, g as int, sectors as nat, sector_size as nat, strings_view(partitions@)),
    {
        if self.full {
            let layout = if sector_size == 0 {
                None
            } else {
                plan_full_disk(sectors, sector_size, self.mode)
            };
            match layout {
                None => {
                    let e = InstallError::PartitionCreationFailed(self.groups[g].device.clone());
                    self.fail(e);
                    self.stop_run();
                },
                Some(l) => {
                    let q = full_disk_tasks(&self.groups[g].device, &l);
                    assert(q@.len() > 0) by {
                        assert(disk_tasks_view(q@).len() > 0);
                    }
                    self.queue = q;
                    self.phase = Phase::Disk(g, 0);
                },
            }
        } else {
            match custom_disk_tasks(&self.groups[g], partitions, self.mode) {
                Err(e) => {
                    self.fail(e);
                    self.next_group(g);
                },
                Ok(q) => {
                    assert(q@.len() > 0) by {
                        assert(disk_tasks_view(q@).len() > 0);
                    }
                    self.queue = q;
                    self.phase = Phase::Disk(g, 0);
                },
            }
        }
    }

    /// Records how the current step went and moves on.
    pub fn report(&mut self, o: Outcome)
        requires
            old(self).wf(),
        ensures
            final(self).wf(),
            final(self)@ == next_state(old(self)@, o@),
    {
        match self.phase {
            Phase::Open(g) => match o {
                Outcome::Opened { sectors, sector_size, partitions } => {
                    self.opened(g, sectors, sector_size, &partitions);
                },
                _ => {
                    let e = InstallError::DiskNotFound(self.groups[g].device.clone());
                    self.fail(e);
                    if self.full {
                        self.stop_run();
                    } else {
                        self.next_group(g);
                    }
                },
            },
            Phase::Disk(g, t) => {
                if matches!(o, Outcome::Failed) {
                    let e = disk_task_error(&self.queue[t]);
                    self.fail(e);
                    if self.full {
                        self.stop_run();
                    } else {
                        self.next_group(g);
                    }
                } else if t < self.queue.len() - 1 {
                    self.phase = Phase::Disk(g, t + 1);
                } else if self.full {
                    let entries = match &o {
                        Outcome::Reloaded { mounts } => reloaded_mount_entries(mounts),
                        _ => Vec::new(),
                    };
                    proof {
                        if !(o is Reloaded) {
                            assert(entries_view(entries@) =~= Seq::<EntryView>::empty());
                        }
                    }
                    let m = mount_order(&entries);
                    self.begin_mounts(m);
                } else {
                    self.next_group(g);
                }
            },
            Phase::Mount(t) => {
                let len = self.mounts.len();
                assert(t < len);
                let failed = matches!(o, Outcome::Failed);
                let dir = matches!(self.mounts[t], MountTask::CreateDir { .. });
                if failed {
                    let e = mount_task_error(&self.mounts[t]);
                    self.fail(e);
                }
                let next: usize = if failed && dir && t < len - 1 {
                    t + 2
                } else {
                    t + 1
                };
                if failed && self.full {
                    self.phase = Phase::Done;
                } else if next < len {
                    self.phase = Phase::Mount(next);
                } else {
                    self.phase = Phase::Done;
                }
            },
            Phase::Done => {},
        }
    }
}

} // verus!

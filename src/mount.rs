use vstd::prelude::*;

verus! {

/// A partition to bring up under the staging root: mounted at
/// `mountpoint`, or, for a swap partition, activated as swap.
#[derive(Debug)]
pub struct MountEntry {
    pub device: String,
    pub mountpoint: Option<String>,
    pub swap: bool,
}

/// One step of bringing the partitions up.
#[derive(Debug)]
pub enum MountTask {
    /// Create the directory for `mountpoint` under the staging root.
    CreateDir { mountpoint: String },
    /// Mount `device` there; `restricted` asks for owner-only permissions.
    Mount { device: String, mountpoint: String, restricted: bool },
    /// Activate `device` as swap.
    SwapOn { device: String },
}

pub struct EntryView {
    pub device: Seq<char>,
    pub mountpoint: Option<Seq<char>>,
    pub swap: bool,
}

pub enum MountTaskView {
    CreateDir(Seq<char>),
    Mount(Seq<char>, Seq<char>, bool),
    SwapOn(Seq<char>),
}

pub open spec fn opt_view(o: Option<String>) -> Option<Seq<char>> {
    match o {
        Some(s) => Some(s@),
        None => None,
    }
}

impl View for MountEntry {
    type V = EntryView;

    open spec fn view(&self) -> EntryView {
        EntryView { device: self.device@, mountpoint: opt_view(self.mountpoint), swap: self.swap }
    }
}

impl View for MountTask {
    type V = MountTaskView;

    open spec fn view(&self) -> MountTaskView {
        match self {
            MountTask::CreateDir { mountpoint } => MountTaskView::CreateDir(mountpoint@),
            MountTask::Mount { device, mountpoint, restricted } => MountTaskView::Mount(
                device@,
                mountpoint@,
                *restricted,
            ),
            MountTask::SwapOn { device } => MountTaskView::SwapOn(device@),
        }
    }
}

pub open spec fn entries_view(v: Seq<MountEntry>) -> Seq<EntryView> {
    v.map_values(|e: MountEntry| e@)
}

pub open spec fn tasks_view(v: Seq<MountTask>) -> Seq<MountTaskView> {
    v.map_values(|t: MountTask| t@)
}

/// The length of an entry's mountpoint, 0 where it has none.
pub open spec fn depth(e: EntryView) -> nat {
    match e.mountpoint {
        Some(m) => m.len(),
        None => 0,
    }
}

/// The mountpoint that gets owner-only permissions.
pub open spec fn is_restricted(m: Seq<char>) -> bool {
    m == "/boot"@
}

/// The steps for one entry: swap activation for swap, otherwise the
/// directory then the mount where there is a mountpoint.
pub open spec fn entry_tasks(e: EntryView) -> Seq<MountTaskView> {
    if e.swap {
        seq![MountTaskView::SwapOn(e.device)]
    } else {
        match e.mountpoint {
            Some(m) => seq![
                MountTaskView::CreateDir(m),
                MountTaskView::Mount(e.device, m, is_restricted(m)),
            ],
            None => Seq::empty(),
        }
    }
}

/// The steps of the entries whose mountpoint length is `k`, in input order.
pub open spec fn tasks_at_depth(s: Seq<EntryView>, k: nat) -> Seq<MountTaskView>
    decreases s.len(),
{
    if s.len() == 0 {
        Seq::empty()
    } else {
        tasks_at_depth(s.drop_last(), k) + if depth(s.last()) == k {
            entry_tasks(s.last())
        } else {
            Seq::empty()
        }
    }
}

/// The steps of the entries whose mountpoint is shorter than `k`, shortest
/// first.
pub open spec fn tasks_below(s: Seq<EntryView>, k: nat) -> Seq<MountTaskView>
    decreases k,
{
    if k == 0 {
        Seq::empty()
    } else {
        tasks_below(s, (k - 1) as nat) + tasks_at_depth(s, (k - 1) as nat)
    }
}

/// One more than the longest mountpoint.
pub open spec fn depth_bound(s: Seq<EntryView>) -> nat
    decreases s.len(),
{
    if s.len() == 0 {
        0
    } else {
        let b = depth_bound(s.drop_last());
        if depth(s.last()) + 1 > b {
            depth(s.last()) + 1
        } else {
            b
        }
    }
}

/// The steps that bring all entries up: by mountpoint length, shortest
/// first, and in input order among equal lengths.
pub open spec fn mount_sequence(s: Seq<EntryView>) -> Seq<MountTaskView> {
    tasks_below(s, depth_bound(s))
}

fn mountpoint_len(e: &MountEntry) -> (r: usize)
    ensures
        r == depth(e@),
{
    match &e.mountpoint {
        Some(m) => m.as_str().unicode_len(),
        None => 0,
    }
}

fn push_entry_tasks(out: &mut Vec<MountTask>, e: &MountEntry)
    ensures
        tasks_view(final(out)@) == tasks_view(old(out)@) + entry_tasks(e@),
{
    let ghost before = tasks_view(out@);
    if e.swap {
        out.push(MountTask::SwapOn { device: e.device.clone() });
    } else {
        match &e.mountpoint {
            Some(m) => {
                let restricted = crate::disk::str_eq(m.as_str(), "/boot");
                out.push(MountTask::CreateDir { mountpoint: m.clone() });
                out.push(MountTask::Mount { device: e.device.clone(), mountpoint: m.clone(), restricted });
            },
            None => {},
        }
    }
    assert(tasks_view(out@) =~= before + entry_tasks(e@));
}

/// Orders the mount steps so that a directory is always mounted before any
/// mountpoint beneath it: entries by mountpoint length, shortest first, and
/// in the given order among equal lengths.
pub fn mount_order(entries: &Vec<MountEntry>) -> (r: Vec<MountTask>)
    ensures
        tasks_view(r@) == mount_sequence(entries_view(entries@)),
{
    let ghost s = entries_view(entries@);
    let n = entries.len();
    let mut out: Vec<MountTask> = Vec::new();
    if n == 0 {
        assert(tasks_view(out@) =~= mount_sequence(s));
        return out;
    }
    let mut deepest: usize = 0;
    let mut i: usize = 0;
    while i < n
        invariant
            n == entries@.len() == s.len(),
            s == entries_view(entries@),
            0 < i <= n || i == 0,
            i <= n,
            i > 0 ==> deepest as nat + 1 == depth_bound(s.take(i as int)),
            i == 0 ==> deepest == 0,
        decreases n - i,
    {
        let d = mountpoint_len(&entries[i]);
        assert(s.take(i + 1).drop_last() =~= s.take(i as int));
        assert(s.take(i + 1).last() == s[i as int]);
        if i == 0 {
            assert(depth_bound(s.take(0)) == 0);
        }
        if i == 0 || d > deepest {
            deepest = d;
        }
        i = i + 1;
    }
    assert(s.take(n as int) =~= s);
    let mut k: usize = 0;
    loop
        invariant_except_break
            tasks_view(out@) == tasks_below(s, k as nat),
        invariant
            n == entries@.len() == s.len(),
            s == entries_view(entries@),
            deepest as nat + 1 == depth_bound(s),
            k <= deepest,
        ensures
            tasks_view(out@) == tasks_below(s, deepest as nat + 1),
        decreases deepest - k,
    {
        let ghost base = tasks_view(out@);
        let mut j: usize = 0;
        while j < n
            invariant
                n == entries@.len() == s.len(),
                s == entries_view(entries@),
                j <= n,
                base == tasks_below(s, k as nat),
                tasks_view(out@) == base + tasks_at_depth(s.take(j as int), k as nat),
            decreases n - j,
        {
            assert(s.take(j + 1).drop_last() =~= s.take(j as int));
            assert(s.take(j + 1).last() == s[j as int]);
            if mountpoint_len(&entries[j]) == k {
                push_entry_tasks(&mut out, &entries[j]);
            }
            assert(tasks_view(out@) =~= base + tasks_at_depth(s.take(j + 1), k as nat));
            j = j + 1;
        }
        assert(s.take(n as int) =~= s);
        assert(tasks_below(s, (k + 1) as nat) == tasks_below(s, k as nat) + tasks_at_depth(s, k as nat));
        if k == deepest {
            break;
        }
        k = k + 1;
    }
    out
}

} // verus!

verus! {

/// The mountpoint a step works on, if any.
pub open spec fn task_mountpoint(t: MountTaskView) -> Option<Seq<char>> {
    match t {
        MountTaskView::CreateDir(m) => Some(m),
        MountTaskView::Mount(_, m, _) => Some(m),
        MountTaskView::SwapOn(_) => None,
    }
}

/// Along the steps, mountpoints never get shorter.
pub open spec fn lengths_nondecreasing(t: Seq<MountTaskView>) -> bool {
    forall|i: int, j: int|
        0 <= i < j < t.len() && (#[trigger] task_mountpoint(t[i])) is Some && (
        #[trigger] task_mountpoint(t[j])) is Some ==> task_mountpoint(t[i])->0.len()
            <= task_mountpoint(t[j])->0.len()
}

/// Every mount comes right after the creation of its directory.
pub open spec fn dir_before_mount(t: Seq<MountTaskView>) -> bool {
    forall|j: int|
        0 <= j < t.len() && (#[trigger] t[j]) is Mount ==> j > 0 && t[j - 1]
            == MountTaskView::CreateDir(task_mountpoint(t[j])->0)
}

spec fn lengths_are(t: Seq<MountTaskView>, k: nat) -> bool {
    forall|i: int|
        0 <= i < t.len() && (#[trigger] task_mountpoint(t[i])) is Some ==> task_mountpoint(
            t[i],
        )->0.len() == k
}

spec fn lengths_below(t: Seq<MountTaskView>, k: nat) -> bool {
    forall|i: int|
        0 <= i < t.len() && (#[trigger] task_mountpoint(t[i])) is Some ==> task_mountpoint(
            t[i],
        )->0.len() < k
}

proof fn lemma_concat_pairs(a: Seq<MountTaskView>, b: Seq<MountTaskView>)
    requires
        dir_before_mount(a),
        dir_before_mount(b),
    ensures
        dir_before_mount(a + b),
{
    assert forall|j: int| 0 <= j < (a + b).len() && (#[trigger] (a + b)[j]) is Mount implies j > 0
        && (a + b)[j - 1] == MountTaskView::CreateDir(task_mountpoint((a + b)[j])->0) by {
        if j >= a.len() {
            assert((a + b)[j] == b[j - a.len()]);
            assert((a + b)[j - 1] == b[j - a.len() - 1]);
        } else {
            assert((a + b)[j] == a[j]);
        }
    }
}

proof fn lemma_at_depth(s: Seq<EntryView>, k: nat)
    ensures
        lengths_are(tasks_at_depth(s, k), k),
        dir_before_mount(tasks_at_depth(s, k)),
    decreases s.len(),
{
    if s.len() > 0 {
        lemma_at_depth(s.drop_last(), k);
        let a = tasks_at_depth(s.drop_last(), k);
        let b = if depth(s.last()) == k {
            entry_tasks(s.last())
        } else {
            Seq::empty()
        };
        assert(dir_before_mount(b)) by {
            assert forall|j: int| 0 <= j < b.len() && (#[trigger] b[j]) is Mount implies j > 0
                && b[j - 1] == MountTaskView::CreateDir(task_mountpoint(b[j])->0) by {
                if !s.last().swap {
                    assert(j == 1);
                }
            }
        }
        lemma_concat_pairs(a, b);
        assert forall|i: int|
            0 <= i < (a + b).len() && (#[trigger] task_mountpoint((a + b)[i])) is Some implies task_mountpoint(
            (a + b)[i])->0.len() == k by {
            if i >= a.len() {
                assert((a + b)[i] == b[i - a.len()]);
            } else {
                assert((a + b)[i] == a[i]);
            }
        }
    }
}

proof fn lemma_below(s: Seq<EntryView>, k: nat)
    ensures
        lengths_below(tasks_below(s, k), k),
        lengths_nondecreasing(tasks_below(s, k)),
        dir_before_mount(tasks_below(s, k)),
    decreases k,
{
    if k > 0 {
        let k1 = (k - 1) as nat;
        lemma_below(s, k1);
        lemma_at_depth(s, k1);
        let a = tasks_below(s, k1);
        let b = tasks_at_depth(s, k1);
        lemma_concat_pairs(a, b);
        assert forall|i: int|
            0 <= i < (a + b).len() && (#[trigger] task_mountpoint((a + b)[i])) is Some implies task_mountpoint(
            (a + b)[i])->0.len() < k by {
            if i >= a.len() {
                assert((a + b)[i] == b[i - a.len()]);
            } else {
                assert((a + b)[i] == a[i]);
            }
        }
        assert forall|i: int, j: int|
            0 <= i < j < (a + b).len() && (#[trigger] task_mountpoint((a + b)[i])) is Some && (
            #[trigger] task_mountpoint((a + b)[j])) is Some implies task_mountpoint((a + b)[i])->0.len()
            <= task_mountpoint((a + b)[j])->0.len() by {
            if j < a.len() {
                assert((a + b)[i] == a[i]);
                assert((a + b)[j] == a[j]);
            } else if i < a.len() {
                assert((a + b)[i] == a[i]);
                assert((a + b)[j] == b[j - a.len()]);
            } else {
                assert((a + b)[i] == b[i - a.len()]);
                assert((a + b)[j] == b[j - a.len()]);
            }
        }
    }
}

/// In the mount sequence of any set of entries, mountpoints come in order of
/// length, each mount comes right after the creation of its directory, and
/// so a directory is created before anything beneath it (a longer path) is
/// mounted.
pub proof fn lemma_mount_sequence_ordered(s: Seq<EntryView>)
    ensures
        lengths_nondecreasing(mount_sequence(s)),
        dir_before_mount(mount_sequence(s)),
        forall|i: int, j: int|
            0 <= i < mount_sequence(s).len() && 0 <= j < mount_sequence(s).len()
                && #[trigger] mount_sequence(s)[i] is CreateDir
                && #[trigger] mount_sequence(s)[j] is Mount
                && task_mountpoint(mount_sequence(s)[i])->0.len() < task_mountpoint(
                mount_sequence(s)[j],
            )->0.len() ==> i < j,
{
    lemma_below(s, depth_bound(s));
    let t = mount_sequence(s);
    assert forall|i: int, j: int|
        0 <= i < t.len() && 0 <= j < t.len() && #[trigger] t[i] is CreateDir && #[trigger] t[j] is Mount
            && task_mountpoint(t[i])->0.len() < task_mountpoint(t[j])->0.len() implies i < j by {
        if j <= i {
            if j < i {
                assert(task_mountpoint(t[j]) is Some && task_mountpoint(t[i]) is Some);
            }
        }
    }
}

} // verus!

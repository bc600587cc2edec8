use crate::disk::str_eq;
use vstd::string::StringExecFns;
use vstd::prelude::*;

verus! {

/// What to do with one existing partition: format it (`format`, a file
/// system name), mount it (`mountpoint`), or both. `device` is the disk it
/// is on.
#[derive(Debug)]
pub struct CustomPartition {
    pub format: Option<String>,
    pub mountpoint: Option<String>,
    pub device: String,
}

/// The partitioning the user asked for: wipe one whole disk, or apply
/// directives to existing partitions, keyed by partition path, one
/// directive per path.
#[derive(Debug)]
pub enum PartitionSchema {
    FullDisk(String),
    Custom(Vec<(String, CustomPartition)>),
}

pub struct CustomView {
    pub format: Option<Seq<char>>,
    pub mountpoint: Option<Seq<char>>,
    pub device: Seq<char>,
}

pub open spec fn opt_seq(o: Option<String>) -> Option<Seq<char>> {
    match o {
        Some(s) => Some(s@),
        None => None,
    }
}

impl View for CustomPartition {
    type V = CustomView;

    open spec fn view(&self) -> CustomView {
        CustomView {
            format: opt_seq(self.format),
            mountpoint: opt_seq(self.mountpoint),
            device: self.device@,
        }
    }
}

/// The directives as a map from partition path.
pub open spec fn directives(s: Seq<(String, CustomPartition)>) -> Map<Seq<char>, CustomView>
    decreases s.len(),
{
    if s.len() == 0 {
        Map::empty()
    } else {
        directives(s.drop_last()).insert(s.last().0@, s.last().1@)
    }
}

/// No partition path occurs twice.
pub open spec fn paths_distinct(s: Seq<(String, CustomPartition)>) -> bool {
    forall|i: int, j: int| 0 <= i < j < s.len() ==> (#[trigger] s[i]).0@ != (#[trigger] s[j]).0@
}

/// A directive that asks for nothing is not kept.
pub open spec fn meaningful(c: CustomView) -> bool {
    c.format is Some || c.mountpoint is Some
}

/// At most one partition is mapped to each mountpoint.
pub open spec fn mountpoints_unique(m: Map<Seq<char>, CustomView>) -> bool {
    forall|a: Seq<char>, b: Seq<char>|
        #[trigger] m.contains_key(a) && #[trigger] m.contains_key(b) && a != b && m[a].mountpoint is Some
            ==> m[a].mountpoint != m[b].mountpoint
}

pub open spec fn all_meaningful(m: Map<Seq<char>, CustomView>) -> bool {
    forall|k: Seq<char>| #[trigger] m.contains_key(k) ==> meaningful(m[k])
}

/// Well-formed directives: distinct paths, none empty, no mountpoint
/// claimed twice.
pub open spec fn custom_wf(s: Seq<(String, CustomPartition)>) -> bool {
    &&& paths_distinct(s)
    &&& all_meaningful(directives(s))
    &&& mountpoints_unique(directives(s))
}

/// `m` with the directive for `name` dropped and, where `freed` is given,
/// that mountpoint taken from whoever claimed it; a claimant left with
/// nothing to do is dropped.
pub open spec fn release(
    m: Map<Seq<char>, CustomView>,
    name: Seq<char>,
    freed: Option<Seq<char>>,
) -> Map<Seq<char>, CustomView> {
    Map::new(
        |k: Seq<char>|
            m.contains_key(k) && k != name && !(freed is Some && m[k].mountpoint == freed
                && m[k].format is None),
        |k: Seq<char>|
            if freed is Some && m[k].mountpoint == freed {
                CustomView { mountpoint: None, ..m[k] }
            } else {
                m[k]
            },
    )
}

pub proof fn lemma_directives_keys(s: Seq<(String, CustomPartition)>)
    requires
        paths_distinct(s),
    ensures
        forall|i: int| 0 <= i < s.len() ==> #[trigger] directives(s).contains_key(s[i].0@)
            && directives(s)[s[i].0@] == s[i].1@,
        forall|k: Seq<char>| #[trigger]
            directives(s).contains_key(k) ==> exists|i: int| 0 <= i < s.len() && s[i].0@ == k,
    decreases s.len(),
{
    if s.len() > 0 {
        let t = s.drop_last();
        assert(paths_distinct(t)) by {
            assert forall|i: int, j: int| 0 <= i < j < t.len() implies (#[trigger] t[i]).0@ != (
            #[trigger] t[j]).0@ by {
                assert(t[i] == s[i] && t[j] == s[j]);
            }
        }
        lemma_directives_keys(t);
        let last = s.last();
        assert(s[s.len() - 1] == last);
        assert forall|i: int| 0 <= i < s.len() implies #[trigger] directives(s).contains_key(s[i].0@)
            && directives(s)[s[i].0@] == s[i].1@ by {
            if i < s.len() - 1 {
                assert(t[i] == s[i]);
                assert(s[i].0@ != last.0@);
                assert(directives(t).contains_key(t[i].0@));
            }
        }
        assert forall|k: Seq<char>| #[trigger]
            directives(s).contains_key(k) implies exists|i: int| 0 <= i < s.len() && s[i].0@ == k by {
            if k != last.0@ {
                assert(directives(t).contains_key(k));
                let i = choose|i: int| 0 <= i < t.len() && t[i].0@ == k;
                assert(s[i] == t[i]);
            }
        }
    }
}

proof fn lemma_take_distinct(s: Seq<(String, CustomPartition)>, n: int)
    requires
        paths_distinct(s),
        0 <= n <= s.len(),
    ensures
        paths_distinct(s.take(n)),
{
    assert forall|i: int, j: int| 0 <= i < j < s.take(n).len() implies (#[trigger] s.take(n)[i]).0@
        != (#[trigger] s.take(n)[j]).0@ by {
        assert(s.take(n)[i] == s[i] && s.take(n)[j] == s[j]);
    }
}

/// What releasing does to one more directive.
proof fn lemma_release_insert(
    m: Map<Seq<char>, CustomView>,
    k: Seq<char>,
    v: CustomView,
    name: Seq<char>,
    freed: Option<Seq<char>>,
)
    requires
        !m.contains_key(k),
    ensures
        release(m.insert(k, v), name, freed) == if k == name || (freed is Some && v.mountpoint
            == freed && v.format is None) {
            release(m, name, freed)
        } else if freed is Some && v.mountpoint == freed {
            release(m, name, freed).insert(k, CustomView { mountpoint: None, ..v })
        } else {
            release(m, name, freed).insert(k, v)
        },
{
    let a = release(m.insert(k, v), name, freed);
    if k == name || (freed is Some && v.mountpoint == freed && v.format is None) {
        assert(a =~= release(m, name, freed));
    } else if freed is Some && v.mountpoint == freed {
        assert(a =~= release(m, name, freed).insert(k, CustomView { mountpoint: None, ..v }));
    } else {
        assert(a =~= release(m, name, freed).insert(k, v));
    }
}

fn copy_opt(o: &Option<String>) -> (r: Option<String>)
    ensures
        opt_seq(r) == opt_seq(*o),
{
    match o {
        Some(s) => Some(s.clone()),
        None => None,
    }
}

pub fn copy_custom(c: &CustomPartition) -> (r: CustomPartition)
    ensures
        r@ == c@,
{
    CustomPartition {
        format: copy_opt(&c.format),
        mountpoint: copy_opt(&c.mountpoint),
        device: c.device.clone(),
    }
}

fn opt_str_eq(o: &Option<String>, s: &str) -> (r: bool)
    ensures
        r == (opt_seq(*o) == Some(s@)),
{
    match o {
        Some(x) => str_eq(x.as_str(), s),
        None => false,
    }
}

/// The directive for `name`, if any.
pub fn lookup(entries: &Vec<(String, CustomPartition)>, name: &str) -> (r: Option<CustomPartition>)
    requires
        paths_distinct(entries@),
    ensures
        match r {
            Some(c) => directives(entries@).contains_key(name@) && c@ == directives(entries@)[name@],
            None => !directives(entries@).contains_key(name@),
        },
{
    let mut i: usize = 0;
    while i < entries.len()
        invariant
            i <= entries@.len(),
            paths_distinct(entries@),
            forall|j: int| 0 <= j < i ==> (#[trigger] entries@[j]).0@ != name@,
        decreases entries.len() - i,
    {
        if str_eq(entries[i].0.as_str(), name) {
            proof {
                lemma_directives_keys(entries@);
            }
            assert(directives(entries@).contains_key(entries@[i as int].0@));
            return Some(copy_custom(&entries[i].1));
        }
        i = i + 1;
    }
    proof {
        lemma_directives_keys(entries@);
        if directives(entries@).contains_key(name@) {
            let j = choose|j: int| 0 <= j < entries@.len() && entries@[j].0@ == name@;
            assert(entries@[j].0@ != name@);
        }
    }
    None
}

/// The directives without the one for `name`, and with mountpoint `freed`,
/// if given, released by whoever claimed it.
fn release_entries(entries: &Vec<(String, CustomPartition)>, name: &str, freed: Option<&str>) -> (r: Vec<
    (String, CustomPartition),
>)
    requires
        paths_distinct(entries@),
    ensures
        paths_distinct(r@),
        directives(r@) == release(
            directives(entries@),
            name@,
            match freed {
                Some(f) => Some(f@),
                None => None,
            },
        ),
{
    let ghost fv: Option<Seq<char>> = match freed {
        Some(f) => Some(f@),
        None => None,
    };
    let mut out: Vec<(String, CustomPartition)> = Vec::new();
    let mut i: usize = 0;
    while i < entries.len()
        invariant
            i <= entries@.len(),
            paths_distinct(entries@),
            paths_distinct(out@),
            forall|j: int| 0 <= j < out@.len() ==> exists|k: int| 0 <= k < i && (#[trigger] out@[j]).0@
                == entries@[k].0@,
            directives(out@) == release(directives(entries@.take(i as int)), name@, fv),
            fv == match freed {
                Some(f) => Some(f@),
                None => None::<Seq<char>>,
            },
        decreases entries.len() - i,
    {
        let ghost t = entries@.take(i as int);
        let ghost t1 = entries@.take(i + 1);
        assert(t1.drop_last() =~= t);
        assert(t1.last() == entries@[i as int]);
        let key = &entries[i].0;
        let c = &entries[i].1;
        let ghost before = out@;
        let is_name = str_eq(key.as_str(), name);
        let claims = match freed {
            Some(f) => opt_str_eq(&c.mountpoint, f),
            None => false,
        };
        if !is_name && !(claims && c.format.is_none()) {
            let kept = if claims {
                CustomPartition { format: copy_opt(&c.format), mountpoint: None, device: c.device.clone() }
            } else {
                copy_custom(c)
            };
            out.push((key.clone(), kept));
        }
        proof {
            assert forall|j: int| 0 <= j < i implies entries@[j].0@ != entries@[i as int].0@ by {
                assert(paths_distinct(entries@));
            }
            assert(!directives(before).contains_key(entries@[i as int].0@)) by {
                lemma_directives_keys(before);
                if directives(before).contains_key(entries@[i as int].0@) {
                    let j = choose|j: int| 0 <= j < before.len() && before[j].0@ == entries@[i as int].0@;
                    let k = choose|k: int| 0 <= k < i && before[j].0@ == entries@[k].0@;
                }
            }
            if out@.len() > before.len() {
                assert(out@.drop_last() == before);
                assert forall|a: int, b: int| 0 <= a < b < out@.len() implies (#[trigger] out@[a]).0@ != (
                #[trigger] out@[b]).0@ by {
                    if b == out@.len() - 1 {
                        assert(out@[a] == before[a]);
                        lemma_directives_keys(before);
                    } else {
                        assert(out@[a] == before[a] && out@[b] == before[b]);
                    }
                }
            } else {
                assert(out@ == before);
            }
            assert forall|j: int| 0 <= j < out@.len() implies exists|k: int| 0 <= k < i + 1 && (
            #[trigger] out@[j]).0@ == entries@[k].0@ by {
                if j < before.len() {
                    assert(out@[j] == before[j]);
                } else {
                    assert(out@[j].0@ == entries@[i as int].0@);
                }
            }
            lemma_take_distinct(entries@, i as int);
            assert(!directives(t).contains_key(entries@[i as int].0@)) by {
                lemma_directives_keys(t);
                if directives(t).contains_key(entries@[i as int].0@) {
                    let j = choose|j: int| 0 <= j < t.len() && t[j].0@ == entries@[i as int].0@;
                    assert(t[j] == entries@[j]);
                }
            }
            lemma_release_insert(directives(t), entries@[i as int].0@, entries@[i as int].1@, name@, fv);
            assert(directives(t1) == directives(t).insert(entries@[i as int].0@, entries@[i as int].1@));
            let v = entries@[i as int].1@;
            let kk = entries@[i as int].0@;
            if kk == name@ || (fv is Some && v.mountpoint == fv && v.format is None) {
                assert(out@ == before);
            } else if fv is Some && v.mountpoint == fv {
                assert(out@.last().1@ == CustomView { mountpoint: None, ..v });
                assert(directives(out@) == directives(before).insert(out@.last().0@, out@.last().1@));
            } else {
                assert(out@.last().1@ == v);
                assert(directives(out@) == directives(before).insert(out@.last().0@, out@.last().1@));
            }
            assert(directives(out@) =~= release(directives(t1), name@, fv));
        }
        i = i + 1;
    }
    assert(entries@.take(entries.len() as int) =~= entries@);
    out
}

} // verus!

verus! {

/// Adds the directive for a path that has none.
fn put(entries: Vec<(String, CustomPartition)>, name: &str, c: CustomPartition) -> (r: Vec<
    (String, CustomPartition),
>)
    requires
        paths_distinct(entries@),
        !directives(entries@).contains_key(name@),
    ensures
        paths_distinct(r@),
        directives(r@) == directives(entries@).insert(name@, c@),
{
    let mut r = entries;
    let ghost before = r@;
    proof {
        lemma_directives_keys(before);
    }
    r.push((String::from_str(name), c));
    proof {
        assert(r@.drop_last() == before);
        assert forall|a: int, b: int| 0 <= a < b < r@.len() implies (#[trigger] r@[a]).0@ != (
        #[trigger] r@[b]).0@ by {
            assert(r@[a] == before[a]);
            if b < before.len() {
                assert(r@[b] == before[b]);
            }
        }
    }
    r
}

/// The directives once `name` is to be formatted with `format`.
pub open spec fn with_format(
    m: Map<Seq<char>, CustomView>,
    name: Seq<char>,
    format: Seq<char>,
    device: Seq<char>,
) -> Map<Seq<char>, CustomView> {
    m.insert(
        name,
        if m.contains_key(name) {
            CustomView { format: Some(format), ..m[name] }
        } else {
            CustomView { format: Some(format), mountpoint: None, device }
        },
    )
}

/// The directives once `name` is to be mounted at `mount`: whoever held
/// that mountpoint before gives it up.
pub open spec fn with_mount(
    m: Map<Seq<char>, CustomView>,
    name: Seq<char>,
    mount: Seq<char>,
    device: Seq<char>,
) -> Map<Seq<char>, CustomView> {
    release(m, name, Some(mount)).insert(
        name,
        if m.contains_key(name) {
            CustomView { mountpoint: Some(mount), ..m[name] }
        } else {
            CustomView { format: None, mountpoint: Some(mount), device }
        },
    )
}

/// The directives once `name` is no longer to be formatted; a directive
/// left with nothing to do goes.
pub open spec fn without_format(m: Map<Seq<char>, CustomView>, name: Seq<char>) -> Map<
    Seq<char>,
    CustomView,
> {
    if !m.contains_key(name) {
        m
    } else if m[name].mountpoint is None {
        m.remove(name)
    } else {
        m.insert(name, CustomView { format: None, ..m[name] })
    }
}

/// The directives once `name` is no longer to be mounted; a directive left
/// with nothing to do goes.
pub open spec fn without_mount(m: Map<Seq<char>, CustomView>, name: Seq<char>) -> Map<
    Seq<char>,
    CustomView,
> {
    if !m.contains_key(name) {
        m
    } else if m[name].format is None {
        m.remove(name)
    } else {
        m.insert(name, CustomView { mountpoint: None, ..m[name] })
    }
}

/// The directives once `c` is the whole directive for `name`.
pub open spec fn with_directive(m: Map<Seq<char>, CustomView>, name: Seq<char>, c: CustomView) -> Map<
    Seq<char>,
    CustomView,
> {
    let rest = release(m, name, c.mountpoint);
    if meaningful(c) {
        rest.insert(name, c)
    } else {
        rest
    }
}

proof fn lemma_release_none(m: Map<Seq<char>, CustomView>, name: Seq<char>)
    ensures
        release(m, name, None) == m.remove(name),
{
    assert(release(m, name, None) =~= m.remove(name));
}

/// Marks `name`, on disk `device`, to be formatted with `format`.
pub fn add_format(entries: Vec<(String, CustomPartition)>, name: &str, format: String, device: String) -> (r: Vec<
    (String, CustomPartition),
>)
    requires
        paths_distinct(entries@),
    ensures
        paths_distinct(r@),
        directives(r@) == with_format(directives(entries@), name@, format@, device@),
{
    let cur = lookup(&entries, name);
    let rest = release_entries(&entries, name, None);
    proof {
        lemma_release_none(directives(entries@), name@);
    }
    let c = match cur {
        Some(c) => CustomPartition { format: Some(format), mountpoint: c.mountpoint, device: c.device },
        None => CustomPartition { format: Some(format), mountpoint: None, device },
    };
    let r = put(rest, name, c);
    assert(directives(r@) =~= with_format(directives(entries@), name@, format@, device@));
    r
}

/// Marks `name`, on disk `device`, to be mounted at `mount`, taking that
/// mountpoint from any other partition.
pub fn add_mount(entries: Vec<(String, CustomPartition)>, name: &str, mount: String, device: String) -> (r: Vec<
    (String, CustomPartition),
>)
    requires
        paths_distinct(entries@),
    ensures
        paths_distinct(r@),
        directives(r@) == with_mount(directives(entries@), name@, mount@, device@),
{
    let cur = lookup(&entries, name);
    let rest = release_entries(&entries, name, Some(mount.as_str()));
    let c = match cur {
        Some(c) => CustomPartition { format: c.format, mountpoint: Some(mount), device: c.device },
        None => CustomPartition { format: None, mountpoint: Some(mount), device },
    };
    put(rest, name, c)
}

/// Drops the format of `name`.
pub fn remove_format(entries: Vec<(String, CustomPartition)>, name: &str) -> (r: Vec<(String, CustomPartition)>)
    requires
        paths_distinct(entries@),
    ensures
        paths_distinct(r@),
        directives(r@) == without_format(directives(entries@), name@),
{
    match lookup(&entries, name) {
        None => entries,
        Some(c) => {
            let rest = release_entries(&entries, name, None);
            proof {
                lemma_release_none(directives(entries@), name@);
            }
            if c.mountpoint.is_none() {
                rest
            } else {
                let r = put(rest, name, CustomPartition { format: None, mountpoint: c.mountpoint, device: c.device });
                assert(directives(r@) =~= without_format(directives(entries@), name@));
                r
            }
        },
    }
}

/// Drops the mountpoint of `name`.
pub fn remove_mount(entries: Vec<(String, CustomPartition)>, name: &str) -> (r: Vec<(String, CustomPartition)>)
    requires
        paths_distinct(entries@),
    ensures
        paths_distinct(r@),
        directives(r@) == without_mount(directives(entries@), name@),
{
    match lookup(&entries, name) {
        None => entries,
        Some(c) => {
            let rest = release_entries(&entries, name, None);
            proof {
                lemma_release_none(directives(entries@), name@);
            }
            if c.format.is_none() {
                rest
            } else {
                let r = put(rest, name, CustomPartition { format: c.format, mountpoint: None, device: c.device });
                assert(directives(r@) =~= without_mount(directives(entries@), name@));
                r
            }
        },
    }
}

/// Makes `c` the whole directive for `name`, taking its mountpoint from any
/// other partition; a directive that asks for nothing is not kept.
pub fn set_directive(entries: Vec<(String, CustomPartition)>, name: &str, c: CustomPartition) -> (r: Vec<
    (String, CustomPartition),
>)
    requires
        paths_distinct(entries@),
    ensures
        paths_distinct(r@),
        directives(r@) == with_directive(directives(entries@), name@, c@),
{
    let rest = match &c.mountpoint {
        Some(m) => release_entries(&entries, name, Some(m.as_str())),
        None => release_entries(&entries, name, None),
    };
    if c.format.is_none() && c.mountpoint.is_none() {
        rest
    } else {
        put(rest, name, c)
    }
}

} // verus!

verus! {

/// Directives that ask for something, each mountpoint claimed at most once.
pub open spec fn directives_wf(m: Map<Seq<char>, CustomView>) -> bool {
    all_meaningful(m) && mountpoints_unique(m)
}

/// One change to the custom directives, as the user makes it.
pub enum DirectiveChange {
    Format(Seq<char>, Seq<char>, Seq<char>),
    Mount(Seq<char>, Seq<char>, Seq<char>),
    Unformat(Seq<char>),
    Unmount(Seq<char>),
    Replace(Seq<char>, CustomView),
}

pub open spec fn apply_change(m: Map<Seq<char>, CustomView>, c: DirectiveChange) -> Map<
    Seq<char>,
    CustomView,
> {
    match c {
        DirectiveChange::Format(name, format, device) => with_format(m, name, format, device),
        DirectiveChange::Mount(name, mount, device) => with_mount(m, name, mount, device),
        DirectiveChange::Unformat(name) => without_format(m, name),
        DirectiveChange::Unmount(name) => without_mount(m, name),
        DirectiveChange::Replace(name, c) => with_directive(m, name, c),
    }
}

pub open spec fn apply_changes(m: Map<Seq<char>, CustomView>, cs: Seq<DirectiveChange>) -> Map<
    Seq<char>,
    CustomView,
>
    decreases cs.len(),
{
    if cs.len() == 0 {
        m
    } else {
        apply_change(apply_changes(m, cs.drop_last()), cs.last())
    }
}

proof fn lemma_release_wf(m: Map<Seq<char>, CustomView>, name: Seq<char>, freed: Option<Seq<char>>)
    requires
        directives_wf(m),
    ensures
        directives_wf(release(m, name, freed)),
        freed is Some ==> forall|k: Seq<char>| #[trigger]
            release(m, name, freed).contains_key(k) ==> release(m, name, freed)[k].mountpoint != freed,
        !release(m, name, freed).contains_key(name),
{
    let r = release(m, name, freed);
    assert forall|a: Seq<char>, b: Seq<char>|
        #[trigger] r.contains_key(a) && #[trigger] r.contains_key(b) && a != b && r[a].mountpoint is Some
            implies r[a].mountpoint != r[b].mountpoint by {
        assert(m.contains_key(a) && m.contains_key(b));
    }
    assert forall|k: Seq<char>| #[trigger] r.contains_key(k) implies meaningful(r[k]) by {
        assert(m.contains_key(k) && meaningful(m[k]));
    }
}

pub proof fn lemma_change_wf(m: Map<Seq<char>, CustomView>, c: DirectiveChange)
    requires
        directives_wf(m),
    ensures
        directives_wf(apply_change(m, c)),
{
    let r = apply_change(m, c);
    match c {
        DirectiveChange::Format(name, format, device) => {
            assert forall|a: Seq<char>, b: Seq<char>|
                #[trigger] r.contains_key(a) && #[trigger] r.contains_key(b) && a != b
                    && r[a].mountpoint is Some implies r[a].mountpoint != r[b].mountpoint by {
                if a == name {
                    assert(m.contains_key(name));
                } else if b == name {
                    if r[b].mountpoint is Some {
                        assert(m.contains_key(name));
                    }
                }
            }
        },
        DirectiveChange::Mount(name, mount, device) => {
            lemma_release_wf(m, name, Some(mount));
            let rest = release(m, name, Some(mount));
            assert forall|a: Seq<char>, b: Seq<char>|
                #[trigger] r.contains_key(a) && #[trigger] r.contains_key(b) && a != b
                    && r[a].mountpoint is Some implies r[a].mountpoint != r[b].mountpoint by {
                if a == name {
                    assert(rest.contains_key(b));
                } else if b == name {
                    assert(rest.contains_key(a));
                } else {
                    assert(rest.contains_key(a) && rest.contains_key(b));
                }
            }
        },
        DirectiveChange::Unformat(name) => {
            assert forall|a: Seq<char>, b: Seq<char>|
                #[trigger] r.contains_key(a) && #[trigger] r.contains_key(b) && a != b
                    && r[a].mountpoint is Some implies r[a].mountpoint != r[b].mountpoint by {
                assert(m.contains_key(a) && m.contains_key(b));
            }
        },
        DirectiveChange::Unmount(name) => {
            assert forall|a: Seq<char>, b: Seq<char>|
                #[trigger] r.contains_key(a) && #[trigger] r.contains_key(b) && a != b
                    && r[a].mountpoint is Some implies r[a].mountpoint != r[b].mountpoint by {
                assert(m.contains_key(a) && m.contains_key(b));
            }
        },
        DirectiveChange::Replace(name, cv) => {
            lemma_release_wf(m, name, cv.mountpoint);
            let rest = release(m, name, cv.mountpoint);
            assert forall|a: Seq<char>, b: Seq<char>|
                #[trigger] r.contains_key(a) && #[trigger] r.contains_key(b) && a != b
                    && r[a].mountpoint is Some implies r[a].mountpoint != r[b].mountpoint by {
                if a == name {
                    assert(rest.contains_key(b));
                } else if b == name {
                    assert(rest.contains_key(a));
                } else {
                    assert(rest.contains_key(a) && rest.contains_key(b));
                }
            }
        },
    }
}

/// However a sequence of changes claims and reclaims mountpoints, at most
/// one partition ends up mapped to each mountpoint, and no directive is
/// left empty; the latest claim of a mountpoint wins.
pub proof fn lemma_mountpoints_stay_unique(m: Map<Seq<char>, CustomView>, cs: Seq<DirectiveChange>)
    requires
        directives_wf(m),
    ensures
        directives_wf(apply_changes(m, cs)),
        mountpoints_unique(apply_changes(m, cs)),
        cs.len() > 0 ==> match cs.last() {
            DirectiveChange::Mount(name, mount, _) => apply_changes(m, cs)[name].mountpoint == Some(mount)
                && apply_changes(m, cs).contains_key(name),
            _ => true,
        },
    decreases cs.len(),
{
    if cs.len() > 0 {
        lemma_mountpoints_stay_unique(m, cs.drop_last());
        lemma_change_wf(apply_changes(m, cs.drop_last()), cs.last());
    }
}

} // verus!

verus! {

/// The disk holding the root of the last directive that mounts `/`.
pub open spec fn root_device_of(s: Seq<(Seq<char>, CustomView)>) -> Option<Seq<char>>
    decreases s.len(),
{
    if s.len() == 0 {
        None
    } else if s.last().1.mountpoint == Some("/"@) {
        Some(s.last().1.device)
    } else {
        root_device_of(s.drop_last())
    }
}

pub open spec fn entries_of(v: Seq<(String, CustomPartition)>) -> Seq<(Seq<char>, CustomView)> {
    v.map_values(|e: (String, CustomPartition)| (e.0@, e.1@))
}

pub open spec fn boot_disk_of(s: PartitionSchema) -> Option<Seq<char>> {
    match s {
        PartitionSchema::FullDisk(d) => Some(d@),
        PartitionSchema::Custom(v) => root_device_of(entries_of(v@)),
    }
}

/// The disk the bootloader goes on: the whole disk, or the disk of the
/// partition mounted at `/`.
pub fn boot_disk(schema: &PartitionSchema) -> (r: Option<String>)
    ensures
        match r {
            Some(d) => boot_disk_of(*schema) == Some(d@),
            None => boot_disk_of(*schema) is None,
        },
{
    match schema {
        PartitionSchema::FullDisk(d) => Some(d.clone()),
        PartitionSchema::Custom(v) => {
            let ghost s = entries_of(v@);
            let mut i: usize = v.len();
            assert(s.take(v@.len() as int) =~= s);
            while i > 0
                invariant
                    i <= v@.len(),
                    s == entries_of(v@),
                    boot_disk_of(*schema) == root_device_of(s),
                    root_device_of(s) == root_device_of(s.take(i as int)),
                decreases i,
            {
                let ghost t = s.take(i as int);
                assert(t.last() == s[i - 1]);
                assert(t.drop_last() =~= s.take(i - 1));
                assert(s[i - 1] == (v@[i - 1].0@, v@[i - 1].1@));
                match &v[i - 1].1.mountpoint {
                    Some(m) => {
                        if str_eq(m.as_str(), "/") {
                            return Some(v[i - 1].1.device.clone());
                        }
                    },
                    None => {},
                }
                i = i - 1;
            }
            None
        },
    }
}

} // verus!

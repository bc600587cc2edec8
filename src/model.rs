use crate::disk::str_eq;
use crate::schema::{
    add_format, add_mount, apply_change, custom_wf, directives, lemma_change_wf,
    lemma_directives_keys, remove_format, remove_mount, set_directive, CustomPartition, CustomView,
    DirectiveChange, PartitionSchema,
};
use vstd::prelude::*;

verus! {

/// Whole-disk install, or directives for chosen partitions.
#[derive(Clone, Copy, Debug, PartialEq, Eq, Structural)]
pub enum PartitionMethod {
    Basic,
    Advanced,
}

/// What the user does on the partitioning page.
#[derive(Debug)]
pub enum PartitionMsg {
    SetMethod(PartitionMethod),
    /// Install over the whole of the named disk.
    SetFullDisk(String),
    /// Partition, file system name, disk.
    AddFormatPartition(String, String, String),
    /// Partition, mountpoint, disk.
    AddMountPartition(String, String, String),
    RemoveFormatPartition(String),
    RemoveMountPartition(String),
    AddPartition(String, CustomPartition),
    /// The disks were listed again: any choice made is dropped.
    Refresh,
}

/// The partitioning the user has chosen so far.
#[derive(Debug)]
pub struct PartitionModel {
    pub method: PartitionMethod,
    pub efi: bool,
    pub schema: Option<PartitionSchema>,
}

pub enum SchemaView {
    FullDisk(Seq<char>),
    Custom(Map<Seq<char>, CustomView>),
}

pub struct ModelView {
    pub method: PartitionMethod,
    pub efi: bool,
    pub schema: Option<SchemaView>,
}

pub enum MsgView {
    SetMethod(PartitionMethod),
    SetFullDisk(Seq<char>),
    AddFormatPartition(Seq<char>, Seq<char>, Seq<char>),
    AddMountPartition(Seq<char>, Seq<char>, Seq<char>),
    RemoveFormatPartition(Seq<char>),
    RemoveMountPartition(Seq<char>),
    AddPartition(Seq<char>, CustomView),
    Refresh,
}

pub open spec fn schema_view(s: Option<PartitionSchema>) -> Option<SchemaView> {
    match s {
        None => None,
        Some(PartitionSchema::FullDisk(d)) => Some(SchemaView::FullDisk(d@)),
        Some(PartitionSchema::Custom(v)) => Some(SchemaView::Custom(directives(v@))),
    }
}

impl View for PartitionModel {
    type V = ModelView;

    open spec fn view(&self) -> ModelView {
        ModelView { method: self.method, efi: self.efi, schema: schema_view(self.schema) }
    }
}

impl View for PartitionMsg {
    type V = MsgView;

    open spec fn view(&self) -> MsgView {
        match self {
            PartitionMsg::SetMethod(m) => MsgView::SetMethod(*m),
            PartitionMsg::SetFullDisk(d) => MsgView::SetFullDisk(d@),
            PartitionMsg::AddFormatPartition(n, f, d) => MsgView::AddFormatPartition(n@, f@, d@),
            PartitionMsg::AddMountPartition(n, m, d) => MsgView::AddMountPartition(n@, m@, d@),
            PartitionMsg::RemoveFormatPartition(n) => MsgView::RemoveFormatPartition(n@),
            PartitionMsg::RemoveMountPartition(n) => MsgView::RemoveMountPartition(n@),
            PartitionMsg::AddPartition(n, c) => MsgView::AddPartition(n@, c@),
            PartitionMsg::Refresh => MsgView::Refresh,
        }
    }
}

/// The directives chosen so far; none unless the custom method is under way.
pub open spec fn custom_of(s: Option<SchemaView>) -> Map<Seq<char>, CustomView> {
    match s {
        Some(SchemaView::Custom(m)) => m,
        _ => Map::empty(),
    }
}

/// A change that starts custom directives afresh unless some are under way.
pub open spec fn edited(s: Option<SchemaView>, c: DirectiveChange) -> Option<SchemaView> {
    Some(SchemaView::Custom(apply_change(custom_of(s), c)))
}

/// A removal, which only touches custom directives under way.
pub open spec fn removed(s: Option<SchemaView>, c: DirectiveChange) -> Option<SchemaView> {
    match s {
        Some(SchemaView::Custom(m)) => Some(SchemaView::Custom(apply_change(m, c))),
        _ => s,
    }
}

/// The page after a message.
pub open spec fn page_step(v: ModelView, msg: MsgView) -> ModelView {
    match msg {
        MsgView::SetMethod(m) => ModelView { method: m, schema: None, ..v },
        MsgView::Refresh => ModelView { schema: None, ..v },
        MsgView::SetFullDisk(d) => ModelView { schema: Some(SchemaView::FullDisk(d)), ..v },
        MsgView::AddFormatPartition(n, f, d) => ModelView {
            schema: edited(v.schema, DirectiveChange::Format(n, f, d)),
            ..v
        },
        MsgView::AddMountPartition(n, m, d) => ModelView {
            schema: edited(v.schema, DirectiveChange::Mount(n, m, d)),
            ..v
        },
        MsgView::RemoveFormatPartition(n) => ModelView {
            schema: removed(v.schema, DirectiveChange::Unformat(n)),
            ..v
        },
        MsgView::RemoveMountPartition(n) => ModelView {
            schema: removed(v.schema, DirectiveChange::Unmount(n)),
            ..v
        },
        MsgView::AddPartition(n, c) => ModelView {
            schema: edited(v.schema, DirectiveChange::Replace(n, c)),
            ..v
        },
    }
}

/// A whole disk was chosen, or the custom directives mount a root and,
/// under EFI, a `/boot`.
pub open spec fn page_ready(v: ModelView) -> bool {
    match v.schema {
        None => false,
        Some(SchemaView::FullDisk(_)) => true,
        Some(SchemaView::Custom(m)) => (exists|k: Seq<char>|
            #[trigger] m.contains_key(k) && m[k].mountpoint == Some("/"@)) && (!v.efi || exists|
            k: Seq<char>,
        | #[trigger] m.contains_key(k) && m[k].mountpoint == Some("/boot"@)),
    }
}

impl PartitionModel {
    pub open spec fn wf(&self) -> bool {
        self.schema matches Some(PartitionSchema::Custom(v)) ==> custom_wf(v@)
    }

    pub fn new(efi: bool) -> (r: PartitionModel)
        ensures
            r.wf(),
            r@ == (ModelView { method: PartitionMethod::Basic, efi, schema: None }),
    {
        PartitionModel { method: PartitionMethod::Basic, efi, schema: None }
    }

    /// Whether the choice is complete enough to go on.
    pub fn is_ready(&self) -> (r: bool)
        requires
            self.wf(),
        ensures
            r == page_ready(self@),
    {
        match &self.schema {
            None => false,
            Some(PartitionSchema::FullDisk(_)) => true,
            Some(PartitionSchema::Custom(v)) => {
                proof {
                    lemma_directives_keys(v@);
                }
                let ghost m = directives(v@);
                let mut root = false;
                let mut boot = false;
                let mut i: usize = 0;
                while i < v.len()
                    invariant
                        i <= v@.len(),
                        m == directives(v@),
                        forall|j: int| 0 <= j < v@.len() ==> #[trigger] m.contains_key(v@[j].0@) && m[v@[j].0@] == v@[j].1@,
                        root <==> exists|j: int| 0 <= j < i && (#[trigger] v@[j]).1@.mountpoint == Some("/"@),
                        boot <==> exists|j: int| 0 <= j < i && (#[trigger] v@[j]).1@.mountpoint == Some("/boot"@),
                    decreases v.len() - i,
                {
                    let mp = &v[i].1.mountpoint;
                    match mp {
                        Some(x) => {
                            if str_eq(x.as_str(), "/") {
                                root = true;
                            }
                            if str_eq(x.as_str(), "/boot") {
                                boot = true;
                            }
                        },
                        None => {},
                    }
                    i = i + 1;
                }
                proof {
                    if root {
                        let j = choose|j: int| 0 <= j < v@.len() && (#[trigger] v@[j]).1@.mountpoint == Some("/"@);
                        assert(m.contains_key(v@[j].0@));
                    }
                    if boot {
                        let j = choose|j: int| 0 <= j < v@.len() && (#[trigger] v@[j]).1@.mountpoint == Some("/boot"@);
                        assert(m.contains_key(v@[j].0@));
                    }
                    if exists|k: Seq<char>| #[trigger] m.contains_key(k) && m[k].mountpoint == Some("/"@) {
                        let k = choose|k: Seq<char>| #[trigger] m.contains_key(k) && m[k].mountpoint == Some("/"@);
                        let j = choose|j: int| 0 <= j < v@.len() && v@[j].0@ == k;
                        assert(v@[j].1@.mountpoint == Some("/"@));
                    }
                    if exists|k: Seq<char>| #[trigger] m.contains_key(k) && m[k].mountpoint == Some("/boot"@) {
                        let k = choose|k: Seq<char>| #[trigger] m.contains_key(k) && m[k].mountpoint == Some("/boot"@);
                        let j = choose|j: int| 0 <= j < v@.len() && v@[j].0@ == k;
                        assert(v@[j].1@.mountpoint == Some("/boot"@));
                    }
                }
                root && (boot || !self.efi)
            },
        }
    }

    /// Applies what the user did.
    pub fn update(&mut self, msg: PartitionMsg)
        requires
            old(self).wf(),
        ensures
            final(self).wf(),
            final(self)@ == page_step(old(self)@, msg@),
    {
        let ghost before = self@;
        let cur = self.schema.take();
        let (entries, custom) = match cur {
            Some(PartitionSchema::Custom(v)) => (v, true),
            Some(s) => {
                self.schema = Some(s);
                (Vec::new(), false)
            },
            None => (Vec::new(), false),
        };
        proof {
            if !custom {
                assert(directives(entries@) =~= Map::<Seq<char>, CustomView>::empty());
                assert(custom_wf(entries@));
            }
            assert(directives(entries@) == custom_of(before.schema));
        }
        match msg {
            PartitionMsg::SetMethod(m) => {
                self.method = m;
                self.schema = None;
            },
            PartitionMsg::Refresh => {
                self.schema = None;
            },
            PartitionMsg::SetFullDisk(d) => {
                self.schema = Some(PartitionSchema::FullDisk(d));
            },
            PartitionMsg::AddFormatPartition(n, f, d) => {
                proof {
                    lemma_change_wf(directives(entries@), DirectiveChange::Format(n@, f@, d@));
                }
                self.schema = Some(PartitionSchema::Custom(add_format(entries, n.as_str(), f, d)));
            },
            PartitionMsg::AddMountPartition(n, m, d) => {
                proof {
                    lemma_change_wf(directives(entries@), DirectiveChange::Mount(n@, m@, d@));
                }
                self.schema = Some(PartitionSchema::Custom(add_mount(entries, n.as_str(), m, d)));
            },
            PartitionMsg::RemoveFormatPartition(n) => {
                if custom {
                    proof {
                        lemma_change_wf(directives(entries@), DirectiveChange::Unformat(n@));
                    }
                    self.schema = Some(PartitionSchema::Custom(remove_format(entries, n.as_str())));
                }
            },
            PartitionMsg::RemoveMountPartition(n) => {
                if custom {
                    proof {
                        lemma_change_wf(directives(entries@), DirectiveChange::Unmount(n@));
                    }
                    self.schema = Some(PartitionSchema::Custom(remove_mount(entries, n.as_str())));
                }
            },
            PartitionMsg::AddPartition(n, c) => {
                proof {
                    lemma_change_wf(directives(entries@), DirectiveChange::Replace(n@, c@));
                }
                self.schema = Some(PartitionSchema::Custom(set_directive(entries, n.as_str(), c)));
            },
        }
    }
}

} // verus!

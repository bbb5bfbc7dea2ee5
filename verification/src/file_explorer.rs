//! Tree of the browsed directory.
//!
//! Nodes are numbered in the order they are added, the root being number 0,
//! and a number is never used again. A node always has a larger number than
//! its parent. Removing a node takes it out of its parent's children and out
//! of the tree's index; what was below it stays in the index, out of reach of
//! the root.

use std::collections::BTreeMap;
use vstd::prelude::*;

verus! {

#[derive(Debug, Clone, PartialEq, Eq, PartialOrd, Ord)]
pub enum NewEntry {
    Directory { path_component: String },
    File { path_component: String },
}

impl NewEntry {
    pub open spec fn name(self) -> Seq<char> {
        match self {
            NewEntry::Directory { path_component } => path_component@,
            NewEntry::File { path_component } => path_component@,
        }
    }

    pub open spec fn kind(self) -> NodeKind {
        match self {
            NewEntry::Directory { .. } => NodeKind::Directory,
            NewEntry::File { .. } => NodeKind::File,
        }
    }

    pub fn path_component(&self) -> (component: &String)
        ensures
            component@ == self.name(),
    {
        match self {
            NewEntry::Directory { path_component } => path_component,
            NewEntry::File { path_component } => path_component,
        }
    }
}

#[derive(Clone, Copy, PartialEq, Eq, Structural)]
pub enum ContainerStatus {
    NotLoaded,
    Expanded,
    Collapsed,
    Empty,
}

#[derive(Clone, Copy, PartialEq, Eq, Structural)]
pub enum NodeKind {
    Root,
    Directory,
    File,
}

#[derive(Clone, Copy, PartialEq, Eq, PartialOrd, Ord, Structural, Debug)]
pub struct NodeId(pub usize);

impl NodeId {
    pub fn new(id: usize) -> (node: Self)
        ensures
            node.0 == id,
    {
        NodeId(id)
    }
}

/// A node as a mathematical value.
pub struct Entry {
    pub kind: NodeKind,
    /// Number of the parent; of no meaning for the root.
    pub parent: nat,
    /// Numbers of the children, in the order they were added.
    pub children: Seq<nat>,
    pub name: Seq<char>,
    pub status: ContainerStatus,
}

/// The tree as a mathematical value.
pub struct Tree {
    /// The index: the node of each number handed out so far, or nothing where
    /// the node was removed.
    pub slots: Seq<Option<Entry>>,
    /// The visible nodes with their depth, as last computed.
    pub linear: Seq<(NodeId, usize)>,
    pub selection: Option<NodeId>,
}

impl Tree {
    pub open spec fn contains(self, id: nat) -> bool {
        id < self.slots.len() && self.slots[id as int].is_some()
    }

    pub open spec fn entry(self, id: nat) -> Entry
        recommends
            self.contains(id),
    {
        self.slots[id as int].unwrap()
    }

    /// The parent of a node, as long as the parent is in the index.
    pub open spec fn parent(self, id: nat) -> Option<NodeId> {
        if self.contains(id) && self.entry(id).kind != NodeKind::Root && self.contains(self.entry(id).parent) {
            Some(NodeId(self.entry(id).parent as usize))
        } else {
            None
        }
    }

    pub open spec fn entry_wf(self, id: nat) -> bool {
        let entry = self.entry(id);
        &&& (entry.kind == NodeKind::Root) == (id == 0)
        &&& id != 0 ==> entry.parent < id
        &&& entry.kind == NodeKind::Root ==> entry.status == ContainerStatus::Expanded
        &&& entry.kind == NodeKind::File ==> entry.status == ContainerStatus::Empty && entry.children.len() == 0
        &&& forall|k: int|
            0 <= k < entry.children.len() ==> {
                let child = #[trigger] entry.children[k];
                &&& id < child
                &&& self.contains(child)
                &&& self.entry(child).parent == id
            }
        &&& forall|j: int, k: int|
            0 <= j < k < entry.children.len() ==> #[trigger] entry.children[j] != #[trigger] entry.children[k]
    }

    /// The root is in the index, every node comes after its parent, the
    /// children of a node are in the index and name it as their parent, and
    /// only containers have children.
    pub open spec fn well_formed(self) -> bool {
        &&& self.slots.len() <= usize::MAX
        &&& self.contains(0)
        &&& forall|id: nat| #[trigger] self.contains(id) ==> self.entry_wf(id)
    }

    /// The tree of a root named `name`.
    pub open spec fn create(name: Seq<char>) -> Tree {
        Tree {
            slots: seq![
                Some(
                    Entry {
                        kind: NodeKind::Root,
                        parent: 0,
                        children: Seq::empty(),
                        name,
                        status: ContainerStatus::Expanded,
                    },
                ),
            ],
            linear: Seq::empty(),
            selection: None,
        }
    }

    /// Whether `parent` has a child named `name`.
    pub open spec fn has_child_named(self, parent: nat, name: Seq<char>) -> bool {
        exists|k: int|
            0 <= k < self.entry(parent).children.len() && self.entry(
                #[trigger] self.entry(parent).children[k],
            ).name == name
    }

    /// Whether nodes can be added below `parent`: it is in the index and it is
    /// no file.
    pub open spec fn can_hold(self, parent: nat) -> bool {
        self.contains(parent) && self.entry(parent).kind != NodeKind::File
    }

    /// The tree with a new node as the last child of `parent`. The node gets
    /// the next number; a directory starts as not loaded.
    pub open spec fn attach(self, parent: nat, name: Seq<char>, kind: NodeKind) -> Tree {
        let above = self.entry(parent);
        Tree {
            slots: self.slots.update(
                parent as int,
                Some(Entry { children: above.children.push(self.slots.len()), ..above }),
            ).push(
                Some(
                    Entry {
                        kind,
                        parent,
                        children: Seq::empty(),
                        name,
                        status: if kind == NodeKind::File {
                            ContainerStatus::Empty
                        } else {
                            ContainerStatus::NotLoaded
                        },
                    },
                ),
            ),
            ..self
        }
    }

    /// The tree with `entry` added below `parent`, unless `parent` cannot hold
    /// it or already has a child of that name, or the machine has run out of
    /// numbers for nodes.
    pub open spec fn with_entry(self, parent: nat, entry: NewEntry) -> Tree {
        if self.can_hold(parent) && !self.has_child_named(parent, entry.name()) && self.slots.len() < usize::MAX {
            self.attach(parent, entry.name(), entry.kind())
        } else {
            self
        }
    }

    /// The tree with `entries` added below `parent`, one after the other.
    pub open spec fn with_entries(self, parent: nat, entries: Seq<NewEntry>) -> Tree
        decreases entries.len(),
    {
        if entries.len() == 0 {
            self
        } else {
            self.with_entries(parent, entries.drop_last()).with_entry(parent, entries.last())
        }
    }

    /// The tree after the content of the directory `parent` was loaded: the
    /// entries are added and the directory is expanded.
    pub open spec fn add(self, parent: nat, entries: Seq<NewEntry>) -> Tree {
        self.with_entries(parent, entries).with_status(parent, ContainerStatus::Expanded)
    }

    /// Whether a tree is well formed depends on its index alone.
    pub proof fn lemma_well_formed_by_slots(self, other: Tree)
        requires
            self.well_formed(),
            other.slots == self.slots,
        ensures
            other.well_formed(),
    {
        assert forall|id: nat| #[trigger] other.contains(id) implies other.entry_wf(id) by {
            assert(self.contains(id));
            assert(self.entry_wf(id));
            let entry = self.entry(id);
            assert forall|k: int| 0 <= k < entry.children.len() implies {
                let child = #[trigger] entry.children[k];
                &&& id < child
                &&& other.contains(child)
                &&& other.entry(child).parent == id
            } by {
                assert(self.contains(entry.children[k]));
            }
        }
    }

    /// The path of a node depends on the tree's index alone.
    pub proof fn lemma_path_by_slots(self, other: Tree, id: nat)
        requires
            other.slots == self.slots,
        ensures
            other.path(id) == self.path(id),
        decreases id,
    {
        if self.contains(id) {
            match self.parent(id) {
                Some(above) => {
                    if above.0 < id {
                        self.lemma_path_by_slots(other, above.0 as nat);
                    }
                },
                None => {},
            }
        }
    }

    /// Adding a node below a node that can hold it keeps the tree well formed.
    pub proof fn lemma_attach_well_formed(self, parent: nat, name: Seq<char>, kind: NodeKind)
        requires
            self.well_formed(),
            self.can_hold(parent),
            kind != NodeKind::Root,
            self.slots.len() < usize::MAX,
        ensures
            self.attach(parent, name, kind).well_formed(),
    {
        let after = self.attach(parent, name, kind);
        let fresh = self.slots.len();
        assert(self.entry_wf(parent));
        assert forall|id: nat| #[trigger] after.contains(id) implies after.entry_wf(id) by {
            if id == fresh {
            } else {
                assert(self.contains(id));
                assert(self.entry_wf(id));
                let entry = after.entry(id);
                assert forall|k: int| 0 <= k < entry.children.len() implies {
                    let child = #[trigger] entry.children[k];
                    &&& id < child
                    &&& after.contains(child)
                    &&& after.entry(child).parent == id
                } by {
                    if id == parent && k == entry.children.len() - 1 {
                    } else {
                        let child = self.entry(id).children[k];
                        assert(self.contains(child));
                    }
                }
                assert forall|j: int, k: int| 0 <= j < k < entry.children.len() implies #[trigger] entry.children[j]
                    != #[trigger] entry.children[k] by {
                    if id == parent && k == entry.children.len() - 1 {
                        let child = self.entry(id).children[j];
                        assert(self.contains(child));
                    }
                }
            }
        }
    }

    /// The visible nodes of the tree with their depth, from the root down.
    pub open spec fn visible(self) -> Seq<(NodeId, usize)> {
        visit(self.slots, 0, 0)
    }

    /// The tree with the linear index brought up to date.
    pub open spec fn reindexed(self) -> Tree {
        Tree { linear: self.visible(), ..self }
    }

    /// The tree without the node `id`: the node leaves its parent's children
    /// and the index. What was below the node stays in the index. The root
    /// cannot be taken out.
    pub open spec fn unlinked(self, id: nat) -> Tree {
        if self.contains(id) && id != 0 {
            let detached = match self.parent(id) {
                Some(above) => {
                    let entry = self.entry(above.0 as nat);
                    if entry.children.contains(id) {
                        self.slots.update(
                            above.0 as int,
                            Some(Entry { children: entry.children.remove(entry.children.index_of(id)), ..entry }),
                        )
                    } else {
                        self.slots
                    }
                },
                None => self.slots,
            };
            Tree { slots: detached.update(id as int, None), ..self }
        } else {
            self
        }
    }

    /// The tree after the node `id` was removed, with the linear index
    /// brought up to date.
    pub open spec fn remove(self, id: nat) -> Tree {
        if self.contains(id) && id != 0 {
            self.unlinked(id).reindexed()
        } else {
            self
        }
    }

    /// Taking a node out keeps the tree well formed.
    pub proof fn lemma_unlinked_well_formed(self, target: nat)
        requires
            self.well_formed(),
        ensures
            self.unlinked(target).well_formed(),
    {
        let after = self.unlinked(target);
        if self.contains(target) && target != 0 {
            assert(self.entry_wf(target));
            assert forall|other: nat| #[trigger] after.contains(other) implies after.entry_wf(other) by {
                assert(self.contains(other));
                assert(self.entry_wf(other));
                let entry = after.entry(other);
                let old_entry = self.entry(other);
                if entry.children == old_entry.children {
                    assert forall|k: int| 0 <= k < entry.children.len() implies {
                        let child = #[trigger] entry.children[k];
                        &&& other < child
                        &&& after.contains(child)
                        &&& after.entry(child).parent == other
                    } by {
                        let child = old_entry.children[k];
                        assert(self.contains(child));
                        if child == target {
                            assert(self.entry(target).parent == other);
                            assert(self.parent(target) == Some(NodeId(other as usize)));
                            assert(old_entry.children.contains(target));
                            let gap = old_entry.children.index_of(target);
                            assert(old_entry.children.remove(gap).len() != old_entry.children.len());
                        }
                    }
                } else {
                    let gap = old_entry.children.index_of(target);
                    assert(old_entry.children.contains(target));
                    assert(0 <= gap < old_entry.children.len() && old_entry.children[gap] == target);
                    assert(entry.children == old_entry.children.remove(gap));
                    assert forall|k: int| 0 <= k < entry.children.len() implies {
                        let child = #[trigger] entry.children[k];
                        &&& other < child
                        &&& after.contains(child)
                        &&& after.entry(child).parent == other
                    } by {
                        let from = if k < gap {
                            k
                        } else {
                            k + 1
                        };
                        assert(entry.children[k] == old_entry.children[from]);
                        assert(self.contains(old_entry.children[from]));
                        if from < gap {
                            assert(old_entry.children[from] != old_entry.children[gap]);
                        } else {
                            assert(old_entry.children[gap] != old_entry.children[from]);
                        }
                    }
                    assert forall|j: int, k: int| 0 <= j < k < entry.children.len() implies #[trigger] entry.children[j]
                        != #[trigger] entry.children[k] by {
                        let a = if j < gap {
                            j
                        } else {
                            j + 1
                        };
                        let b = if k < gap {
                            k
                        } else {
                            k + 1
                        };
                        assert(entry.children[j] == old_entry.children[a]);
                        assert(entry.children[k] == old_entry.children[b]);
                        assert(old_entry.children[a] != old_entry.children[b]);
                    }
                }
            }
        }
    }

    /// The node after `id` in the linear index.
    pub open spec fn next(self, id: NodeId) -> Option<NodeId> {
        match linear_position(self.linear, id) {
            Some(index) => if index + 1 < self.linear.len() {
                Some(self.linear[index + 1].0)
            } else {
                None
            },
            None => None,
        }
    }

    /// The node before `id` in the linear index.
    pub open spec fn previous(self, id: NodeId) -> Option<NodeId> {
        match linear_position(self.linear, id) {
            Some(index) => if index > 0 {
                Some(self.linear[index - 1].0)
            } else {
                None
            },
            None => None,
        }
    }

    /// The names on the way from the topmost ancestor in the index down to
    /// the node `id`.
    pub open spec fn path(self, id: nat) -> Seq<Seq<char>>
        decreases id,
    {
        if self.contains(id) {
            match self.parent(id) {
                Some(above) => if above.0 < id {
                    self.path(above.0 as nat).push(self.entry(id).name)
                } else {
                    seq![self.entry(id).name]
                },
                None => seq![self.entry(id).name],
            }
        } else {
            Seq::empty()
        }
    }

    /// `index` is where the first child of `parent` named `name` stands among
    /// the children.
    pub open spec fn names_first_at(self, parent: nat, name: Seq<char>, index: int) -> bool {
        let children = self.entry(parent).children;
        &&& 0 <= index < children.len()
        &&& self.entry(children[index]).name == name
        &&& forall|j: int| 0 <= j < index ==> self.entry(#[trigger] children[j]).name != name
    }

    /// The first child of `parent` named `name`.
    pub open spec fn child_named(self, parent: nat, name: Seq<char>) -> Option<nat> {
        if self.contains(parent) && exists|index: int| self.names_first_at(parent, name, index) {
            Some(self.entry(parent).children[choose|index: int| self.names_first_at(parent, name, index)])
        } else {
            None
        }
    }

    /// The node reached from `from` by going down one child for each of
    /// `components`, by name.
    pub open spec fn descend(self, from: nat, components: Seq<Seq<char>>) -> Option<NodeId>
        decreases components.len(),
    {
        if components.len() == 0 {
            Some(NodeId(from as usize))
        } else {
            match self.child_named(from, components[0]) {
                Some(child) => self.descend(child, components.drop_first()),
                None => None,
            }
        }
    }

    /// The node at the end of a path, given as its components from the root
    /// down: the path begins with the root's own component, and what follows
    /// leads from the root to the node.
    pub open spec fn node(self, components: Seq<Seq<char>>) -> Option<NodeId> {
        if components.len() > 0 && self.contains(0) && components[0] == self.entry(0).name {
            self.descend(0, components.drop_first())
        } else {
            None
        }
    }

    /// No two children of a node have the same name.
    pub open spec fn names_distinct(self) -> bool {
        forall|id: nat, j: int, k: int|
            self.contains(id) && 0 <= j < k < self.entry(id).children.len() ==> self.entry(
                #[trigger] self.entry(id).children[j],
            ).name != self.entry(#[trigger] self.entry(id).children[k]).name
    }

    /// The node `id` hangs in the tree: it is the root, or a child of a node
    /// that hangs in the tree.
    pub open spec fn reachable(self, id: nat) -> bool
        decreases id,
    {
        self.contains(id) && (id == 0 || {
            let above = self.entry(id).parent;
            &&& above < id
            &&& self.contains(above)
            &&& self.entry(above).children.contains(id)
            &&& self.reachable(above)
        })
    }

    /// Whether siblings have distinct names depends on the index alone.
    pub proof fn lemma_names_distinct_by_slots(self, other: Tree)
        requires
            self.names_distinct(),
            other.slots == self.slots,
        ensures
            other.names_distinct(),
    {
        assert forall|id: nat, j: int, k: int|
            other.contains(id) && 0 <= j < k < other.entry(id).children.len() implies other.entry(
            #[trigger] other.entry(id).children[j],
        ).name != other.entry(#[trigger] other.entry(id).children[k]).name by {
            assert(self.contains(id));
            assert(self.entry(self.entry(id).children[j]).name != self.entry(self.entry(id).children[k]).name);
        }
    }

    /// Whether a node hangs in the tree depends on the index alone.
    pub proof fn lemma_reachable_by_slots(self, other: Tree, id: nat)
        requires
            self.reachable(id),
            other.slots == self.slots,
        ensures
            other.reachable(id),
        decreases id,
    {
        if id != 0 {
            self.lemma_reachable_by_slots(other, self.entry(id).parent);
        }
    }

    /// A tree that consists of its root alone is well formed, no siblings
    /// share a name, and the root hangs in it.
    pub proof fn lemma_create_is_sound(name: Seq<char>)
        ensures
            Tree::create(name).well_formed(),
            Tree::create(name).names_distinct(),
            Tree::create(name).reachable(0),
    {
    }

    /// A new node under a name that its parent does not hold yet keeps the
    /// names of siblings distinct.
    pub proof fn lemma_attach_keeps_names_distinct(self, parent: nat, name: Seq<char>, kind: NodeKind)
        requires
            self.well_formed(),
            self.names_distinct(),
            self.can_hold(parent),
            !self.has_child_named(parent, name),
        ensures
            self.attach(parent, name, kind).names_distinct(),
    {
        let after = self.attach(parent, name, kind);
        let fresh = self.slots.len();
        assert forall|id: nat, j: int, k: int|
            after.contains(id) && 0 <= j < k < after.entry(id).children.len() implies after.entry(
            #[trigger] after.entry(id).children[j],
        ).name != after.entry(#[trigger] after.entry(id).children[k]).name by {
            if id != fresh {
                assert(self.contains(id));
                assert(self.entry_wf(id));
                let held = self.entry(id).children;
                let left = after.entry(id).children[j];
                assert(left == held[j]);
                assert(self.contains(left));
                assert(after.entry(left).name == self.entry(left).name);
                if id == parent && k == held.len() {
                    assert(after.entry(id).children[k] == fresh);
                    assert(self.entry(self.entry(parent).children[j]).name != name);
                } else {
                    let right = after.entry(id).children[k];
                    assert(right == held[k]);
                    assert(self.contains(right));
                    assert(after.entry(right).name == self.entry(right).name);
                    assert(self.entry(self.entry(id).children[j]).name != self.entry(
                        self.entry(id).children[k],
                    ).name);
                }
            }
        }
    }

    /// A new node leaves every node hanging in the tree where it was.
    pub proof fn lemma_attach_keeps_reachable(self, parent: nat, name: Seq<char>, kind: NodeKind, id: nat)
        requires
            self.well_formed(),
            self.can_hold(parent),
            self.reachable(id),
        ensures
            self.attach(parent, name, kind).reachable(id),
        decreases id,
    {
        let after = self.attach(parent, name, kind);
        if id != 0 {
            let above = self.entry(id).parent;
            self.lemma_attach_keeps_reachable(parent, name, kind, above);
            let place = self.entry(above).children.index_of(id);
            assert(after.entry(above).children[place] == id);
        }
    }

    /// A new node under a node that hangs in the tree hangs in the tree.
    pub proof fn lemma_attach_reaches_new(self, parent: nat, name: Seq<char>, kind: NodeKind)
        requires
            self.well_formed(),
            self.can_hold(parent),
            self.reachable(parent),
        ensures
            self.attach(parent, name, kind).reachable(self.slots.len()),
    {
        let after = self.attach(parent, name, kind);
        self.lemma_attach_keeps_reachable(parent, name, kind, parent);
        let held = self.entry(parent).children;
        assert(after.entry(parent).children[held.len() as int] == self.slots.len());
    }

    /// Another status for a node changes neither the names of siblings nor
    /// which nodes hang in the tree.
    pub proof fn lemma_with_status_keeps_names_distinct(self, id: nat, status: ContainerStatus)
        requires
            self.well_formed(),
            self.names_distinct(),
        ensures
            self.with_status(id, status).names_distinct(),
    {
        let after = self.with_status(id, status);
        assert forall|node: nat, j: int, k: int|
            after.contains(node) && 0 <= j < k < after.entry(node).children.len() implies after.entry(
            #[trigger] after.entry(node).children[j],
        ).name != after.entry(#[trigger] after.entry(node).children[k]).name by {
            assert(self.contains(node));
            assert(self.entry_wf(node));
            assert(after.entry(node).children == self.entry(node).children);
            assert(self.contains(self.entry(node).children[j]));
            assert(self.contains(self.entry(node).children[k]));
            assert(self.entry(self.entry(node).children[j]).name != self.entry(self.entry(node).children[k]).name);
        }
    }

    /// Another status for a node leaves every node hanging in the tree where
    /// it was.
    pub proof fn lemma_with_status_keeps_reachable(self, id: nat, status: ContainerStatus, node: nat)
        requires
            self.reachable(node),
        ensures
            self.with_status(id, status).reachable(node),
        decreases node,
    {
        if node != 0 {
            self.lemma_with_status_keeps_reachable(id, status, self.entry(node).parent);
        }
    }

    /// Taking a node out keeps the names of siblings distinct.
    pub proof fn lemma_unlinked_keeps_names_distinct(self, target: nat)
        requires
            self.well_formed(),
            self.names_distinct(),
        ensures
            self.unlinked(target).names_distinct(),
    {
        let after = self.unlinked(target);
        if self.contains(target) && target != 0 {
            self.lemma_unlinked_well_formed(target);
            assert forall|id: nat, j: int, k: int|
                after.contains(id) && 0 <= j < k < after.entry(id).children.len() implies after.entry(
                #[trigger] after.entry(id).children[j],
            ).name != after.entry(#[trigger] after.entry(id).children[k]).name by {
                self.lemma_unlinked_pair(target, id, j, k);
            }
        }
    }

    /// Two children of a node after a node was taken out were children of
    /// that node before, in the same order, and have kept their names.
    proof fn lemma_unlinked_pair(self, target: nat, id: nat, j: int, k: int)
        requires
            self.well_formed(),
            self.names_distinct(),
            self.contains(target),
            target != 0,
            self.unlinked(target).well_formed(),
            self.unlinked(target).contains(id),
            0 <= j < k < self.unlinked(target).entry(id).children.len(),
        ensures
            self.unlinked(target).entry(self.unlinked(target).entry(id).children[j]).name != self.unlinked(
                target,
            ).entry(self.unlinked(target).entry(id).children[k]).name,
    {
        let after = self.unlinked(target);
        assert(self.contains(id));
        let held = self.entry(id).children;
        let kept = after.entry(id).children;
        assert(after.entry_wf(id));
        let left = kept[j];
        let right = kept[k];
        assert(after.contains(left) && after.contains(right));
        assert(after.entry(left).name == self.entry(left).name);
        assert(after.entry(right).name == self.entry(right).name);
        if kept == held {
            assert(self.entry(self.entry(id).children[j]).name != self.entry(self.entry(id).children[k]).name);
        } else {
            let gap = held.index_of(target);
            assert(held.contains(target));
            assert(kept == held.remove(gap));
            let a = if j < gap {
                j
            } else {
                j + 1
            };
            let b = if k < gap {
                k
            } else {
                k + 1
            };
            assert(left == held[a] && right == held[b]);
            assert(self.entry(self.entry(id).children[a]).name != self.entry(self.entry(id).children[b]).name);
        }
    }

    /// Every node that hung in the tree `before` hangs in this tree.
    pub open spec fn keeps_hanging(self, before: Tree) -> bool {
        forall|id: nat| #[trigger] before.reachable(id) ==> self.reachable(id)
    }

    /// Going down by one list of components and then by another is going down
    /// by both in a row.
    pub proof fn lemma_descend_in_two(self, from: nat, first: Seq<Seq<char>>, second: Seq<Seq<char>>)
        requires
            self.well_formed(),
            self.contains(from),
        ensures
            self.descend(from, first + second) == match self.descend(from, first) {
                Some(middle) => self.descend(middle.0 as nat, second),
                None => None,
            },
            self.descend(from, first) matches Some(middle) ==> self.contains(middle.0 as nat),
        decreases first.len(),
    {
        if first.len() == 0 {
            assert(first + second =~= second);
        } else {
            assert((first + second)[0] == first[0]);
            assert((first + second).drop_first() =~= first.drop_first() + second);
            match self.child_named(from, first[0]) {
                Some(child) => {
                    let index = choose|index: int| self.names_first_at(from, first[0], index);
                    assert(self.entry_wf(from));
                    assert(self.entry(from).children[index] == child);
                    assert(self.contains(child));
                    self.lemma_descend_in_two(child, first.drop_first(), second);
                },
                None => {},
            }
        }
    }

    /// A child is found under its parent by its name, where no sibling has
    /// the same name.
    pub proof fn lemma_child_is_found_by_name(self, id: nat)
        requires
            self.well_formed(),
            self.names_distinct(),
            self.reachable(id),
            id != 0,
        ensures
            self.child_named(self.entry(id).parent, self.entry(id).name) == Some(id),
    {
        let above = self.entry(id).parent;
        let name = self.entry(id).name;
        let children = self.entry(above).children;
        let place = children.index_of(id);
        assert(0 <= place < children.len() && children[place] == id);
        assert forall|j: int| 0 <= j < place implies self.entry(#[trigger] children[j]).name != name by {
            assert(self.entry(self.entry(above).children[j]).name != self.entry(
                self.entry(above).children[place],
            ).name);
        }
        assert(self.names_first_at(above, name, place));
        let chosen = choose|index: int| self.names_first_at(above, name, index);
        assert(self.names_first_at(above, name, chosen));
        if chosen < place {
            assert(self.entry(self.entry(above).children[chosen]).name != self.entry(
                self.entry(above).children[place],
            ).name);
        } else if place < chosen {
            assert(self.entry(children[place]).name != name);
        }
    }

    /// `node` mirrors `path`: the path of a node that hangs in the tree leads
    /// back to that node, where no two siblings have the same name.
    pub proof fn lemma_node_mirrors_path(self, id: nat)
        requires
            self.well_formed(),
            self.names_distinct(),
            self.reachable(id),
        ensures
            self.path(id).len() > 0,
            self.path(id)[0] == self.entry(0).name,
            self.descend(0, self.path(id).drop_first()) == Some(NodeId(id as usize)),
            self.node(self.path(id)) == Some(NodeId(id as usize)),
        decreases id,
    {
        assert(self.entry_wf(id));
        if id == 0 {
            assert(self.path(0) =~= seq![self.entry(0).name]);
            assert(self.path(0).drop_first() =~= Seq::empty());
        } else {
            let above = self.entry(id).parent;
            let name = self.entry(id).name;
            self.lemma_node_mirrors_path(above);
            assert(self.parent(id) == Some(NodeId(above as usize)));
            assert(self.path(id) == self.path(above).push(name));
            assert(self.path(id).drop_first() =~= self.path(above).drop_first() + seq![name]);
            self.lemma_descend_in_two(0, self.path(above).drop_first(), seq![name]);
            self.lemma_child_is_found_by_name(id);
            let last = seq![name];
            assert(last[0] == name);
            assert(last.drop_first() =~= Seq::<Seq<char>>::empty());
            assert(self.descend(id, last.drop_first()) == Some(NodeId(id as usize)));
            assert(self.descend(above, last) == Some(NodeId(id as usize)));
            assert((above as usize) as nat == above);
        }
    }

    /// What opening or closing the node `id` asks for: an expanded directory
    /// is collapsed, a collapsed one expanded, one that was never read is
    /// loaded; nothing is asked for anything else.
    pub open spec fn toggles(self, id: NodeId, request: Option<Request>) -> bool {
        if self.contains(id.0 as nat) && self.entry(id.0 as nat).kind == NodeKind::Directory {
            match self.entry(id.0 as nat).status {
                ContainerStatus::Expanded => request == Some(Request::Collapse(id)),
                ContainerStatus::Collapsed => request == Some(Request::Expand(id)),
                ContainerStatus::NotLoaded => request matches Some(Request::Load(node, path)) && (node == id
                    && names(path@) == self.path(id.0 as nat)),
                ContainerStatus::Empty => request.is_none(),
            }
        } else {
            request.is_none()
        }
    }

    /// The tree with another status for a directory; other nodes have no
    /// status to set.
    pub open spec fn with_status(self, id: nat, status: ContainerStatus) -> Tree {
        if self.contains(id) && self.entry(id).kind == NodeKind::Directory {
            Tree { slots: self.slots.update(id as int, Some(Entry { status, ..self.entry(id) })), ..self }
        } else {
            self
        }
    }
}

/// The nodes that are visible at and below the node `id` when it stands at
/// `depth`, parents before children, children in the order they were added.
/// What is below a node is visible only while the node is expanded.
pub open spec fn visit(slots: Seq<Option<Entry>>, id: nat, depth: nat) -> Seq<(NodeId, usize)>
    decreases slots.len() - id, 1nat, 0nat,
{
    if id < slots.len() && slots[id as int].is_some() {
        let entry = slots[id as int].unwrap();
        let head = seq![(NodeId(id as usize), depth as usize)];
        if entry.status == ContainerStatus::Expanded {
            head + visit_children(slots, id, entry.children.len(), depth + 1)
        } else {
            head
        }
    } else {
        Seq::empty()
    }
}

/// The visible nodes at and below the first `count` children of `id`, the
/// children standing at `depth`.
pub open spec fn visit_children(slots: Seq<Option<Entry>>, id: nat, count: nat, depth: nat) -> Seq<(NodeId, usize)>
    decreases slots.len() - id, 0nat, count,
{
    if id < slots.len() && slots[id as int].is_some() && 0 < count <= slots[id as int].unwrap().children.len() {
        let child = slots[id as int].unwrap().children[count - 1];
        visit_children(slots, id, (count - 1) as nat, depth) + if id < child < slots.len() {
            visit(slots, child, depth)
        } else {
            Seq::empty()
        }
    } else {
        Seq::empty()
    }
}

/// `index` is where `id` stands first in `linear`.
pub open spec fn stands_first_at(linear: Seq<(NodeId, usize)>, id: NodeId, index: int) -> bool {
    &&& 0 <= index < linear.len()
    &&& linear[index].0 == id
    &&& forall|j: int| 0 <= j < index ==> (#[trigger] linear[j]).0 != id
}

/// Where `id` stands first in `linear`, if it stands there at all.
pub open spec fn linear_position(linear: Seq<(NodeId, usize)>, id: NodeId) -> Option<int> {
    if exists|index: int| stands_first_at(linear, id, index) {
        Some(choose|index: int| stands_first_at(linear, id, index))
    } else {
        None
    }
}

/// The names that the strings of `components` spell.
pub open spec fn names(components: Seq<String>) -> Seq<Seq<char>> {
    components.map_values(|component: String| component@)
}

/// What can be asked for when the selected node is opened or closed.
pub enum Request {
    Collapse(NodeId),
    Expand(NodeId),
    /// Read the directory of this node, whose path has these components.
    Load(NodeId, Vec<String>),
}

struct Node {
    kind: NodeKind,
    parent: usize,
    children: Vec<usize>,
    path_component: String,
    status: ContainerStatus,
}

impl Node {
    spec fn view(&self) -> Entry {
        Entry {
            kind: self.kind,
            parent: self.parent as nat,
            children: self.children@.map_values(|child: usize| child as nat),
            name: self.path_component@,
            status: self.status,
        }
    }
}

pub struct FileExplorerModel {
    /// The node of every number in use.
    index: BTreeMap<usize, Node>,
    linear_index: Vec<(NodeId, usize)>,
    /// The number that the next node gets.
    next_node_id: usize,
    selection: Option<NodeId>,
}

impl FileExplorerModel {
    pub closed spec fn view(&self) -> Tree {
        Tree {
            slots: Seq::new(
                self.next_node_id as nat,
                |id: int|
                    if self.index@.contains_key(id as usize) {
                        Some(self.index@[id as usize]@)
                    } else {
                        None
                    },
            ),
            linear: self.linear_index@,
            selection: self.selection,
        }
    }

    pub fn new(root_path_component: String) -> (model: Self)
        ensures
            model@ == Tree::create(root_path_component@),
            model@.well_formed(),
            model@.names_distinct(),
            model@.reachable(0),
    {
        let mut index: BTreeMap<usize, Node> = BTreeMap::new();
        index.insert(
            0,
            Node {
                kind: NodeKind::Root,
                parent: 0,
                children: Vec::new(),
                path_component: root_path_component,
                status: ContainerStatus::Expanded,
            },
        );
        // The root is using the identifier 0.
        let model = FileExplorerModel { index, linear_index: Vec::new(), next_node_id: 1, selection: None };
        proof {
            assert(model.index@[0]@.children =~= Seq::empty());
            assert(model@.slots =~= Tree::create(root_path_component@).slots);
        }
        model
    }

    pub fn root_id(&self) -> (id: NodeId)
        ensures
            id == NodeId(0),
    {
        NodeId(0)
    }

    fn get_node(&self, id: NodeId) -> (node: Option<&Node>)
        ensures
            node.is_some() == self@.contains(id.0 as nat),
            node matches Some(found) ==> found@ == self@.entry(id.0 as nat),
    {
        if id.0 < self.next_node_id {
            self.index.get(&id.0)
        } else {
            None
        }
    }

    pub fn parent(&self, id: NodeId) -> (parent: Option<NodeId>)
        ensures
            parent == self@.parent(id.0 as nat),
    {
        match self.get_node(id) {
            Some(node) => {
                if node.kind != NodeKind::Root && self.get_node(NodeId(node.parent)).is_some() {
                    Some(NodeId(node.parent))
                } else {
                    None
                }
            },
            None => None,
        }
    }

    pub fn path_component(&self, id: NodeId) -> (component: Option<String>)
        ensures
            component.is_some() == self@.contains(id.0 as nat),
            component matches Some(name) ==> name@ == self@.entry(id.0 as nat).name,
    {
        match self.get_node(id) {
            Some(node) => Some(node.path_component.clone()),
            None => None,
        }
    }

    /// Takes the content of the directory `parent_id` as it was read from
    /// disk: entries whose name the directory does not hold yet are added, in
    /// the order given, and the directory is expanded. Nothing is added below
    /// a file or below a node that is not in the index. The linear index
    /// follows with the next `update_linear_index`.
    pub fn add(&mut self, parent_id: NodeId, entries: Vec<NewEntry>)
        requires
            old(self)@.well_formed(),
        ensures
            final(self)@ == old(self)@.add(parent_id.0 as nat, entries@),
            final(self)@.well_formed(),
            old(self)@.names_distinct() ==> final(self)@.names_distinct(),
            final(self)@.keeps_hanging(old(self)@),
    {
        let ghost parent = parent_id.0 as nat;
        let mut entries = entries;
        let ghost all = entries@;
        let total: usize = entries.len();
        let mut pending: Vec<NewEntry> = Vec::new();
        // Reverse once, so that the entries can be taken by value in order.
        while entries.len() > 0
            invariant
                pending@.len() + entries@.len() == all.len(),
                forall|i: int| 0 <= i < entries@.len() ==> entries@[i] == all[i],
                forall|i: int| 0 <= i < pending@.len() ==> pending@[i] == all[all.len() - 1 - i],
            decreases entries@.len(),
        {
            let entry = entries.pop().unwrap();
            pending.push(entry);
        }
        let mut taken: usize = 0;
        while pending.len() > 0
            invariant
                taken + pending@.len() == all.len(),
                all.len() == total,
                parent == parent_id.0,
                forall|i: int| 0 <= i < pending@.len() ==> pending@[i] == all[all.len() - 1 - i],
                self@ == old(self)@.with_entries(parent, all.take(taken as int)),
                self@.well_formed(),
                old(self)@.names_distinct() ==> self@.names_distinct(),
                self@.keeps_hanging(old(self)@),
            decreases pending@.len(),
        {
            let entry = pending.pop().unwrap();
            assert(entry == all[taken as int]);
            assert(all.take(taken + 1).drop_last() =~= all.take(taken as int));
            assert(all.take(taken + 1).last() == entry);
            let ghost before = self@;
            assert(old(self)@.with_entries(parent, all.take(taken + 1)) == before.with_entry(parent, entry));
            let ghost given = entry;
            let duplicate = self.has_child(parent_id, entry.path_component());
            if self.can_hold(parent_id) && !duplicate && self.next_node_id < usize::MAX {
                match entry {
                    NewEntry::File { path_component } => {
                        self.add_leaf(parent_id, path_component);
                    },
                    NewEntry::Directory { path_component } => {
                        self.add_container(parent_id, path_component);
                    },
                }
            }
            taken += 1;
        }
        assert(all.take(taken as int) =~= all);
        self.set_status(parent_id, ContainerStatus::Expanded);
    }

    fn can_hold(&self, id: NodeId) -> (holds: bool)
        ensures
            holds == self@.can_hold(id.0 as nat),
    {
        match self.get_node(id) {
            Some(node) => node.kind != NodeKind::File,
            None => false,
        }
    }

    fn has_child(&self, parent: NodeId, name: &String) -> (found: bool)
        requires
            self@.well_formed(),
        ensures
            self@.contains(parent.0 as nat) ==> found == self@.has_child_named(parent.0 as nat, name@),
    {
        match self.get_node(parent) {
            Some(node) => {
                let mut index: usize = 0;
                while index < node.children.len()
                    invariant
                        self@.well_formed(),
                        self@.contains(parent.0 as nat),
                        node@ == self@.entry(parent.0 as nat),
                        index <= node.children@.len(),
                        forall|k: int|
                            0 <= k < index ==> self@.entry(#[trigger] self@.entry(parent.0 as nat).children[k]).name
                                != name@,
                    decreases node.children@.len() - index,
                {
                    let child = node.children[index];
                    assert(node@.children[index as int] == child);
                    assert(self@.entry_wf(parent.0 as nat));
                    assert(self@.contains(child as nat));
                    match self.get_node(NodeId(child)) {
                        Some(found) => {
                            if found.path_component == *name {
                                return true;
                            }
                        },
                        None => {},
                    }
                    index += 1;
                }
                false
            },
            None => false,
        }
    }

    /// Adds a directory below `parent`.
    fn add_container(&mut self, parent: NodeId, path_component: String) -> (id: NodeId)
        requires
            old(self)@.well_formed(),
            old(self)@.can_hold(parent.0 as nat),
            old(self)@.slots.len() < usize::MAX,
        ensures
            id.0 == old(self)@.slots.len(),
            final(self)@ == old(self)@.attach(parent.0 as nat, path_component@, NodeKind::Directory),
            final(self)@.well_formed(),
            old(self)@.names_distinct() && !old(self)@.has_child_named(parent.0 as nat, path_component@)
                ==> final(self)@.names_distinct(),
            final(self)@.keeps_hanging(old(self)@),
    {
        self.add_node(parent, path_component, NodeKind::Directory)
    }

    /// Adds a file below `parent`.
    fn add_leaf(&mut self, parent: NodeId, path_component: String) -> (id: NodeId)
        requires
            old(self)@.well_formed(),
            old(self)@.can_hold(parent.0 as nat),
            old(self)@.slots.len() < usize::MAX,
        ensures
            id.0 == old(self)@.slots.len(),
            final(self)@ == old(self)@.attach(parent.0 as nat, path_component@, NodeKind::File),
            final(self)@.well_formed(),
            old(self)@.names_distinct() && !old(self)@.has_child_named(parent.0 as nat, path_component@)
                ==> final(self)@.names_distinct(),
            final(self)@.keeps_hanging(old(self)@),
    {
        self.add_node(parent, path_component, NodeKind::File)
    }

    fn add_node(&mut self, parent: NodeId, path_component: String, kind: NodeKind) -> (id: NodeId)
        requires
            old(self)@.well_formed(),
            old(self)@.can_hold(parent.0 as nat),
            old(self)@.slots.len() < usize::MAX,
            kind != NodeKind::Root,
        ensures
            id.0 == old(self)@.slots.len(),
            final(self)@ == old(self)@.attach(parent.0 as nat, path_component@, kind),
            final(self)@.well_formed(),
            old(self)@.names_distinct() && !old(self)@.has_child_named(parent.0 as nat, path_component@)
                ==> final(self)@.names_distinct(),
            final(self)@.keeps_hanging(old(self)@),
    {
        let new_node_id: usize = self.next_node_id;
        let status = if kind == NodeKind::File {
            ContainerStatus::Empty
        } else {
            ContainerStatus::NotLoaded
        };
        match self.index.remove(&parent.0) {
            Some(mut node) => {
                node.children.push(new_node_id);
                self.index.insert(parent.0, node);
            },
            None => {},
        }
        self.index.insert(
            new_node_id,
            Node { kind, parent: parent.0, children: Vec::new(), path_component, status },
        );
        self.next_node_id = new_node_id + 1;
        proof {
            let before = old(self)@;
            let expected = before.attach(parent.0 as nat, path_component@, kind);
            assert(self.index@[new_node_id]@.children =~= Seq::empty());
            assert(self.index@[parent.0]@.children =~= before.entry(parent.0 as nat).children.push(
                new_node_id as nat,
            ));
            assert(self@.slots =~= expected.slots);
            before.lemma_attach_well_formed(parent.0 as nat, path_component@, kind);
            if before.names_distinct() && !before.has_child_named(parent.0 as nat, path_component@) {
                before.lemma_attach_keeps_names_distinct(parent.0 as nat, path_component@, kind);
            }
            assert forall|id: nat| #[trigger] before.reachable(id) implies expected.reachable(id) by {
                before.lemma_attach_keeps_reachable(parent.0 as nat, path_component@, kind, id);
            }
        }
        NodeId(new_node_id)
    }

    /// Removes a node from the tree and brings the linear index up to date.
    /// The root stays, and so does the index entry of what was below the
    /// node.
    pub fn remove(&mut self, id: NodeId)
        requires
            old(self)@.well_formed(),
        ensures
            final(self)@ == old(self)@.remove(id.0 as nat),
            final(self)@.well_formed(),
            old(self)@.names_distinct() ==> final(self)@.names_distinct(),
    {
        if id.0 == 0 || self.get_node(id).is_none() {
            return ;
        }
        let ghost before = self@;
        let ghost target = id.0 as nat;
        proof {
            assert(before.contains(target));
            assert(before.entry_wf(target));
        }
        match self.parent(id) {
            Some(above) => {
                let ghost holder = above.0 as nat;
                let ghost children = before.entry(holder).children;
                proof {
                    assert(before.contains(holder));
                    assert(before.entry_wf(holder));
                }
                let mut found: Option<usize> = None;
                match self.get_node(above) {
                    Some(node) => {
                        let mut index: usize = 0;
                        while index < node.children.len()
                            invariant_except_break
                                found.is_none(),
                            invariant
                                index <= node.children@.len(),
                                node@.children == children,
                                target == id.0,
                                forall|j: int| 0 <= j < index ==> children[j] != target,
                            ensures
                                match found {
                                    Some(k) => k < children.len() && children[k as int] == target,
                                    None => forall|j: int| 0 <= j < children.len() ==> children[j] != target,
                                },
                            decreases node.children@.len() - index,
                        {
                            assert(children[index as int] == node.children@[index as int] as nat);
                            if node.children[index] == id.0 {
                                found = Some(index);
                                break ;
                            }
                            index += 1;
                        }
                    },
                    None => {},
                }
                match found {
                    Some(k) => {
                        match self.index.remove(&above.0) {
                            Some(mut node) => {
                                node.children.remove(k);
                                self.index.insert(above.0, node);
                            },
                            None => {},
                        }
                        proof {
                            assert(children.contains(target));
                            let chosen = children.index_of(target);
                            assert(chosen == k) by {
                                if chosen < k {
                                    assert(children[chosen] != children[k as int]);
                                } else if k < chosen {
                                    assert(children[k as int] != children[chosen]);
                                }
                            }
                            assert(self.index@[above.0]@.children =~= children.remove(k as int));
                        }
                    },
                    None => {
                        proof {
                            assert(!children.contains(target));
                        }
                    },
                }
            },
            None => {},
        }
        self.index.remove(&id.0);
        proof {
            assert(self@.slots =~= before.unlinked(target).slots);
            before.lemma_unlinked_well_formed(target);
            if before.names_distinct() {
                before.lemma_unlinked_keeps_names_distinct(target);
                before.unlinked(target).lemma_names_distinct_by_slots(self@);
            }
        }
        self.update_linear_index();
    }

    /// Brings the linear index up to date with the tree.
    pub fn update_linear_index(&mut self)
        requires
            old(self)@.well_formed(),
        ensures
            final(self)@ == old(self)@.reindexed(),
            final(self)@.well_formed(),
            old(self)@.names_distinct() ==> final(self)@.names_distinct(),
            final(self)@.keeps_hanging(old(self)@),
    {
        let mut visible: Vec<(NodeId, usize)> = Vec::new();
        self.visit_node(0, 0, &mut visible);
        self.linear_index = visible;
        proof {
            assert(self@.linear =~= old(self)@.visible());
            assert(self@.slots == old(self)@.slots);
            old(self)@.lemma_well_formed_by_slots(self@);
            if old(self)@.names_distinct() {
                old(self)@.lemma_names_distinct_by_slots(self@);
            }
            assert forall|id: nat| #[trigger] old(self)@.reachable(id) implies self@.reachable(id) by {
                old(self)@.lemma_reachable_by_slots(self@, id);
            }
        }
    }

    fn visit_node(&self, id: usize, depth: usize, visible: &mut Vec<(NodeId, usize)>)
        requires
            self@.well_formed(),
            self@.contains(id as nat),
            depth <= id,
        ensures
            final(visible)@ == old(visible)@ + visit(self@.slots, id as nat, depth as nat),
        decreases self@.slots.len() - id,
    {
        visible.push((NodeId(id), depth));
        let ghost slots = self@.slots;
        let ghost head = old(visible)@.push((NodeId(id), depth));
        match self.get_node(NodeId(id)) {
            Some(node) => {
                if node.status == ContainerStatus::Expanded {
                    let mut index: usize = 0;
                    assert(visit_children(slots, id as nat, 0, (depth + 1) as nat) =~= Seq::empty());
                    while index < node.children.len()
                        invariant
                            self@.well_formed(),
                            self@.contains(id as nat),
                            self@.slots == slots,
                            node@ == self@.entry(id as nat),
                            depth <= id,
                            index <= node.children@.len(),
                            visible@ == head + visit_children(slots, id as nat, index as nat, (depth + 1) as nat),
                        decreases node.children@.len() - index,
                    {
                        let child = node.children[index];
                        proof {
                            assert(self@.entry_wf(id as nat));
                            assert(node@.children[index as int] == child as nat);
                            assert(self@.contains(child as nat));
                        }
                        self.visit_node(child, depth + 1, visible);
                        index += 1;
                        proof {
                            assert(visit_children(slots, id as nat, index as nat, (depth + 1) as nat)
                                == visit_children(slots, id as nat, (index - 1) as nat, (depth + 1) as nat) + visit(
                                slots,
                                child as nat,
                                (depth + 1) as nat,
                            ));
                            assert(visible@ =~= head + visit_children(
                                slots,
                                id as nat,
                                index as nat,
                                (depth + 1) as nat,
                            ));
                        }
                    }
                    assert(node@.children.len() == node.children@.len());
                    assert(visible@ =~= old(visible)@ + visit(slots, id as nat, depth as nat));
                } else {
                    assert(visible@ =~= old(visible)@ + visit(slots, id as nat, depth as nat));
                }
            },
            None => {},
        }
    }

    fn linear_find(&self, id: NodeId) -> (found: Option<usize>)
        ensures
            match found {
                Some(index) => linear_position(self@.linear, id) == Some(index as int) && index < self@.linear.len(),
                None => linear_position(self@.linear, id).is_none(),
            },
    {
        let mut index: usize = 0;
        while index < self.linear_index.len()
            invariant
                index <= self.linear_index@.len(),
                forall|j: int| 0 <= j < index ==> (#[trigger] self.linear_index@[j]).0 != id,
            decreases self.linear_index@.len() - index,
        {
            if self.linear_index[index].0 == id {
                proof {
                    let linear = self@.linear;
                    assert(stands_first_at(linear, id, index as int));
                    let chosen = choose|k: int| stands_first_at(linear, id, k);
                    assert(stands_first_at(linear, id, chosen));
                    if chosen < index {
                        assert(linear[chosen].0 != id);
                    } else if index < chosen {
                        assert(linear[index as int].0 != id);
                    }
                }
                return Some(index);
            }
            index += 1;
        }
        proof {
            let linear = self@.linear;
            assert forall|k: int| !stands_first_at(linear, id, k) by {
                if 0 <= k < linear.len() {
                    assert(linear[k].0 != id);
                }
            }
        }
        None
    }

    /// The node that follows `id` in the linear index.
    pub fn next(&self, id: NodeId) -> (next: Option<NodeId>)
        ensures
            next == self@.next(id),
    {
        match self.linear_find(id) {
            Some(index) => {
                let count: usize = self.linear_index.len();
                if index + 1 < count {
                    Some(self.linear_index[index + 1].0)
                } else {
                    None
                }
            },
            None => None,
        }
    }

    /// The node that precedes `id` in the linear index.
    pub fn previous(&self, id: NodeId) -> (previous: Option<NodeId>)
        ensures
            previous == self@.previous(id),
    {
        match self.linear_find(id) {
            Some(index) => {
                if index == 0 {
                    None
                } else {
                    Some(self.linear_index[index - 1].0)
                }
            },
            None => None,
        }
    }

    /// Asks for what opening or closing the node `id` takes, see
    /// `Tree::toggles`.
    pub fn expand_collapse(&self, id: NodeId) -> (request: Option<Request>)
        requires
            self@.well_formed(),
        ensures
            self@.toggles(id, request),
    {
        match self.get_node(id) {
            Some(node) => {
                if node.kind != NodeKind::Directory {
                    return None;
                }
                match node.status {
                    ContainerStatus::Expanded => Some(Request::Collapse(id)),
                    ContainerStatus::Collapsed => Some(Request::Expand(id)),
                    ContainerStatus::NotLoaded => Some(Request::Load(id, self.path(id))),
                    ContainerStatus::Empty => None,
                }
            },
            None => None,
        }
    }

    /// The path of a node as its components, from the root down. A node that
    /// is not in the index has no path.
    pub fn path(&self, id: NodeId) -> (components: Vec<String>)
        requires
            self@.well_formed(),
        ensures
            names(components@) == self@.path(id.0 as nat),
    {
        let ghost full = self@.path(id.0 as nat);
        let mut reversed: Vec<String> = Vec::new();
        if self.get_node(id).is_some() {
            let mut current = id;
            let ghost mut tail: Seq<Seq<char>> = Seq::empty();
            loop
                invariant_except_break
                    self@.contains(current.0 as nat),
                    full == self@.path(current.0 as nat) + tail,
                invariant
                    self@.well_formed(),
                    reversed@.len() == tail.len(),
                    forall|i: int| 0 <= i < tail.len() ==> (#[trigger] reversed@[i])@ == tail[tail.len() - 1 - i],
                ensures
                    full == tail,
                decreases current.0,
            {
                let ghost here = current.0 as nat;
                proof {
                    assert(self@.entry_wf(here));
                }
                match self.path_component(current) {
                    Some(name) => {
                        reversed.push(name);
                    },
                    None => {},
                }
                let ghost name = self@.entry(here).name;
                let ghost longer = seq![name] + tail;
                proof {
                    assert forall|i: int| 0 <= i < longer.len() implies (#[trigger] reversed@[i])@ == longer[longer.len()
                        - 1 - i] by {
                        if i < tail.len() {
                            assert(longer[longer.len() - 1 - i] == tail[tail.len() - 1 - i]);
                        }
                    }
                }
                match self.parent(current) {
                    Some(above) => {
                        proof {
                            assert(above.0 < here);
                            assert(self@.path(here) == self@.path(above.0 as nat).push(name));
                            assert(self@.path(above.0 as nat).push(name) + tail =~= self@.path(above.0 as nat)
                                + longer);
                            tail = longer;
                        }
                        current = above;
                    },
                    None => {
                        proof {
                            assert(self@.path(here) == seq![name]);
                            tail = longer;
                        }
                        break ;
                    },
                }
            }
        } else {
            assert(full =~= Seq::empty());
        }
        let mut components: Vec<String> = Vec::new();
        let ghost given = reversed@;
        while reversed.len() > 0
            invariant
                components@.len() + reversed@.len() == given.len(),
                forall|i: int| 0 <= i < reversed@.len() ==> reversed@[i] == given[i],
                forall|i: int| 0 <= i < components@.len() ==> components@[i] == given[given.len() - 1 - i],
            decreases reversed@.len(),
        {
            let component = reversed.pop().unwrap();
            components.push(component);
        }
        assert(names(components@) =~= full);
        components
    }

    fn find_child(&self, parent: usize, name: &String) -> (child: Option<usize>)
        requires
            self@.well_formed(),
            self@.contains(parent as nat),
        ensures
            match child {
                Some(id) => self@.child_named(parent as nat, name@) == Some(id as nat) && self@.contains(id as nat),
                None => self@.child_named(parent as nat, name@).is_none(),
            },
    {
        match self.get_node(NodeId(parent)) {
            Some(node) => {
                let ghost children = self@.entry(parent as nat).children;
                let mut index: usize = 0;
                while index < node.children.len()
                    invariant
                        self@.well_formed(),
                        self@.contains(parent as nat),
                        node@ == self@.entry(parent as nat),
                        children == self@.entry(parent as nat).children,
                        index <= node.children@.len(),
                        forall|j: int| 0 <= j < index ==> self@.entry(#[trigger] children[j]).name != name@,
                    decreases node.children@.len() - index,
                {
                    let child = node.children[index];
                    proof {
                        assert(children[index as int] == child as nat);
                        assert(self@.entry_wf(parent as nat));
                        assert(self@.contains(child as nat));
                    }
                    match self.get_node(NodeId(child)) {
                        Some(found) => {
                            if found.path_component == *name {
                                proof {
                                    let tree = self@;
                                    assert(tree.names_first_at(parent as nat, name@, index as int));
                                    let chosen = choose|k: int| tree.names_first_at(parent as nat, name@, k);
                                    assert(tree.names_first_at(parent as nat, name@, chosen));
                                    if chosen < index {
                                        assert(tree.entry(children[chosen]).name != name@);
                                    } else if index < chosen {
                                        assert(tree.entry(children[index as int]).name != name@);
                                    }
                                }
                                return Some(child);
                            }
                        },
                        None => {},
                    }
                    index += 1;
                }
                proof {
                    let tree = self@;
                    assert forall|k: int| !tree.names_first_at(parent as nat, name@, k) by {
                        if 0 <= k < children.len() {
                            assert(tree.entry(children[k]).name != name@);
                        }
                    }
                }
                None
            },
            None => None,
        }
    }

    /// The node at the end of a path, given as its components from the root
    /// down, as `path` gives them: the first is the root's own, and each one
    /// after it names a child of the node before it. A path that does not
    /// begin with the root, or names a child that is not there, has no node.
    pub fn node(&self, components: &Vec<String>) -> (found: Option<NodeId>)
        requires
            self@.well_formed(),
        ensures
            found == self@.node(names(components@)),
    {
        let ghost all = names(components@);
        if components.len() == 0 {
            return None;
        }
        match self.get_node(NodeId(0)) {
            Some(root) => {
                if !(root.path_component == components[0]) {
                    return None;
                }
            },
            None => {
                return None;
            },
        }
        let mut current: usize = 0;
        let mut index: usize = 1;
        assert(all.drop_first() =~= all.subrange(1, all.len() as int));
        while index < components.len()
            invariant
                self@.well_formed(),
                self@.contains(current as nat),
                all == names(components@),
                1 <= index <= components@.len(),
                self@.node(all) == self@.descend(current as nat, all.subrange(index as int, all.len() as int)),
            decreases components@.len() - index,
        {
            let ghost rest = all.subrange(index as int, all.len() as int);
            proof {
                assert(rest[0] == components@[index as int]@);
                assert(rest.drop_first() =~= all.subrange(index + 1, all.len() as int));
            }
            match self.find_child(current, &components[index]) {
                Some(child) => {
                    current = child;
                },
                None => {
                    return None;
                },
            }
            index += 1;
        }
        Some(NodeId(current))
    }

    /// Changes the status of a directory. The linear index follows with the
    /// next `update_linear_index`.
    pub fn set_status(&mut self, id: NodeId, status: ContainerStatus)
        requires
            old(self)@.well_formed(),
        ensures
            final(self)@ == old(self)@.with_status(id.0 as nat, status),
            final(self)@.well_formed(),
            old(self)@.names_distinct() ==> final(self)@.names_distinct(),
            final(self)@.keeps_hanging(old(self)@),
    {
        if id.0 < self.next_node_id {
            match self.index.remove(&id.0) {
                Some(mut node) => {
                    if node.kind == NodeKind::Directory {
                        node.status = status;
                    }
                    self.index.insert(id.0, node);
                },
                None => {},
            }
        }
        proof {
            let before = old(self)@;
            let after = self@;
            assert(after.slots =~= before.with_status(id.0 as nat, status).slots);
            if before.names_distinct() {
                before.lemma_with_status_keeps_names_distinct(id.0 as nat, status);
            }
            assert forall|node: nat| #[trigger] before.reachable(node) implies before.with_status(
                id.0 as nat,
                status,
            ).reachable(node) by {
                before.lemma_with_status_keeps_reachable(id.0 as nat, status, node);
            }
            assert forall|other: nat| #[trigger] after.contains(other) implies after.entry_wf(other) by {
                assert(before.contains(other));
                assert(before.entry_wf(other));
                assert(after.entry(other).children == before.entry(other).children);
                assert forall|k: int| 0 <= k < after.entry(other).children.len() implies {
                    let child = #[trigger] after.entry(other).children[k];
                    &&& other < child
                    &&& after.contains(child)
                    &&& after.entry(child).parent == other
                } by {
                    let child = before.entry(other).children[k];
                    assert(before.contains(child));
                }
            }
        }
    }

    pub fn status(&self, id: NodeId) -> (status: Option<ContainerStatus>)
        ensures
            status.is_some() == self@.contains(id.0 as nat),
            status matches Some(found) ==> found == self@.entry(id.0 as nat).status,
    {
        match self.get_node(id) {
            Some(node) => Some(node.status),
            None => None,
        }
    }

    pub fn set_selection(&mut self, selection: Option<NodeId>)
        ensures
            final(self)@ == (Tree { selection, ..old(self)@ }),
            old(self)@.well_formed() ==> final(self)@.well_formed(),
            old(self)@.names_distinct() ==> final(self)@.names_distinct(),
            final(self)@.keeps_hanging(old(self)@),
    {
        self.selection = selection;
        proof {
            if old(self)@.well_formed() {
                old(self)@.lemma_well_formed_by_slots(self@);
            }
            if old(self)@.names_distinct() {
                old(self)@.lemma_names_distinct_by_slots(self@);
            }
            assert forall|id: nat| #[trigger] old(self)@.reachable(id) implies self@.reachable(id) by {
                old(self)@.lemma_reachable_by_slots(self@, id);
            }
        }
    }

    pub fn selection(&self) -> (selection: Option<NodeId>)
        ensures
            selection == self@.selection,
    {
        self.selection
    }

    pub fn is_directory(&self, id: NodeId) -> (directory: bool)
        ensures
            directory == (self@.contains(id.0 as nat) && self@.entry(id.0 as nat).kind == NodeKind::Directory),
    {
        match self.get_node(id) {
            Some(node) => node.kind == NodeKind::Directory,
            None => false,
        }
    }

    /// The visible nodes with their depth, as `update_linear_index` last
    /// computed them.
    pub fn linear_visit(&self) -> (visible: &Vec<(NodeId, usize)>)
        ensures
            visible@ == self@.linear,
    {
        &self.linear_index
    }
}

#[derive(Debug, Clone)]
pub enum Message {
    /// Read the directory of this node, whose path has these components.
    RequestLoad(NodeId, Vec<String>),
    /// The directory of this node was read.
    ChildrenLoaded(NodeId, Vec<NewEntry>),
    Collapse(NodeId),
    Expand(NodeId),
    Select(Option<NodeId>),
    SelectNext,
    SelectPrevious,
    ExpandCollapseCurrent,
    /// Something was removed from disk; the components of its path, from the
    /// root down.
    Removed(Vec<String>),
    /// Something appeared on disk; the components of its path, from the root
    /// down.
    Added(Vec<String>),
}

/// What the caller has to do after a message.
pub enum Effect {
    Nothing,
    /// Read the directory with these path components and answer with
    /// `ChildrenLoaded` for this node.
    Load(NodeId, Vec<String>),
    /// Send `Collapse` for this node.
    Collapse(NodeId),
    /// Send `Expand` for this node.
    Expand(NodeId),
    /// The selection is now the file with these path components, or nothing.
    SelectFile(Option<Vec<String>>),
}

/// The browser's tree, once a root directory was chosen.
pub struct FileExplorer {
    model: Option<FileExplorerModel>,
}

/// The tree after `message`.
pub open spec fn tree_after(tree: Tree, message: Message) -> Tree {
    match message {
        Message::RequestLoad(..) => tree,
        Message::ChildrenLoaded(parent, entries) => tree.add(parent.0 as nat, entries@).reindexed(),
        Message::Collapse(id) => tree.with_status(id.0 as nat, ContainerStatus::Collapsed).reindexed(),
        Message::Expand(id) => tree.with_status(id.0 as nat, ContainerStatus::Expanded).reindexed(),
        Message::Select(selection) => Tree { selection, ..tree },
        Message::SelectNext => match tree.selection {
            Some(current) => match tree.next(current) {
                Some(next) => Tree { selection: Some(next), ..tree },
                None => tree,
            },
            None => tree,
        },
        Message::SelectPrevious => match tree.selection {
            Some(current) => match tree.previous(current) {
                Some(previous) => Tree { selection: Some(previous), ..tree },
                None => tree,
            },
            None => tree,
        },
        Message::ExpandCollapseCurrent => match tree.selection {
            Some(_) => tree.reindexed(),
            None => tree,
        },
        Message::Removed(components) => match tree.node(names(components@)) {
            Some(id) => tree.remove(id.0 as nat),
            None => tree,
        },
        Message::Added(..) => tree,
    }
}

/// `effect` selects the node `selection` of `tree`: the file's path goes out,
/// or nothing for no selection.
pub open spec fn selects(tree: Tree, selection: Option<NodeId>, effect: Effect) -> bool {
    match selection {
        Some(id) => effect matches Effect::SelectFile(Some(path)) && names(path@) == tree.path(id.0 as nat),
        None => effect == Effect::SelectFile(None),
    }
}

/// `effect` is what `message` asks of the caller when the tree is `tree`.
pub open spec fn effect_of(tree: Tree, message: Message, effect: Effect) -> bool {
    match message {
        Message::RequestLoad(id, path) => effect == Effect::Load(id, path),
        Message::ChildrenLoaded(..) => effect == Effect::Nothing,
        Message::Collapse(_) => effect == Effect::Nothing,
        Message::Expand(_) => effect == Effect::Nothing,
        Message::Select(selection) => selects(tree, selection, effect),
        Message::SelectNext => match tree.selection {
            Some(current) => match tree.next(current) {
                Some(next) => selects(tree, Some(next), effect),
                None => effect == Effect::Nothing,
            },
            None => effect == Effect::Nothing,
        },
        Message::SelectPrevious => match tree.selection {
            Some(current) => match tree.previous(current) {
                Some(previous) => selects(tree, Some(previous), effect),
                None => effect == Effect::Nothing,
            },
            None => effect == Effect::Nothing,
        },
        Message::ExpandCollapseCurrent => match tree.selection {
            Some(current) => match effect {
                Effect::Nothing => tree.toggles(current, None),
                Effect::Load(id, path) => tree.toggles(current, Some(Request::Load(id, path))),
                Effect::Collapse(id) => tree.toggles(current, Some(Request::Collapse(id))),
                Effect::Expand(id) => tree.toggles(current, Some(Request::Expand(id))),
                Effect::SelectFile(_) => false,
            },
            None => effect == Effect::Nothing,
        },
        Message::Removed(_) => effect == Effect::Nothing,
        Message::Added(components) => if components@.len() > 0 {
            match tree.node(names(components@.drop_last())) {
                Some(id) => effect matches Effect::Load(node, path) && (node == id && names(path@) == tree.path(
                    id.0 as nat,
                )),
                None => effect == Effect::Nothing,
            }
        } else {
            effect == Effect::Nothing
        },
    }
}

impl FileExplorer {
    /// The tree, once a root directory was chosen.
    pub closed spec fn view(&self) -> Option<Tree> {
        match self.model {
            Some(model) => Some(model@),
            None => None,
        }
    }

    /// The tree, where there is one, is well formed and no two siblings in
    /// it have the same name.
    pub open spec fn well_formed(&self) -> bool {
        self@ matches Some(tree) ==> tree.well_formed() && tree.names_distinct()
    }

    pub fn new() -> (explorer: Self)
        ensures
            explorer@.is_none(),
            explorer.well_formed(),
    {
        FileExplorer { model: None }
    }

    /// Starts a new tree at the directory `path` and asks for its content.
    pub fn set_root_path(&mut self, path: String) -> (effect: Effect)
        ensures
            final(self)@ == Some(Tree::create(path@)),
            final(self).well_formed(),
            effect matches Effect::Load(id, components) && (id == NodeId(0) && names(components@) == seq![path@]),
    {
        let mut components: Vec<String> = Vec::new();
        components.push(path.clone());
        self.model = Some(FileExplorerModel::new(path));
        assert(names(components@) =~= seq![path@]);
        Effect::Load(NodeId(0), components)
    }

    /// The tree.
    pub fn model(&self) -> (model: Option<&FileExplorerModel>)
        ensures
            match model {
                Some(tree) => self@ == Some(tree@),
                None => self@.is_none(),
            },
    {
        self.model.as_ref()
    }

    /// Takes one message. Without a tree only a request to read a directory
    /// has an effect.
    pub fn update(&mut self, message: Message) -> (effect: Effect)
        requires
            old(self).well_formed(),
        ensures
            final(self).well_formed(),
            match old(self)@ {
                Some(tree) => final(self)@ == Some(tree_after(tree, message)) && effect_of(tree, message, effect),
                None => final(self)@.is_none() && match message {
                    Message::RequestLoad(id, path) => effect == Effect::Load(id, path),
                    _ => effect == Effect::Nothing,
                },
            },
    {
        match message {
            Message::RequestLoad(id, path) => Effect::Load(id, path),
            Message::ChildrenLoaded(parent_id, new_entries) => {
                match &mut self.model {
                    Some(model) => {
                        model.add(parent_id, new_entries);
                        model.update_linear_index();
                    },
                    None => {},
                }
                Effect::Nothing
            },
            Message::Collapse(id) => {
                match &mut self.model {
                    Some(model) => {
                        model.set_status(id, ContainerStatus::Collapsed);
                        model.update_linear_index();
                    },
                    None => {},
                }
                Effect::Nothing
            },
            Message::Expand(id) => {
                match &mut self.model {
                    Some(model) => {
                        model.set_status(id, ContainerStatus::Expanded);
                        model.update_linear_index();
                    },
                    None => {},
                }
                Effect::Nothing
            },
            Message::Select(id) => self.set_selection(id),
            Message::SelectNext => {
                let next = match &self.model {
                    Some(model) => match model.selection() {
                        Some(current_id) => model.next(current_id),
                        None => None,
                    },
                    None => None,
                };
                match next {
                    Some(id) => self.set_selection(Some(id)),
                    None => Effect::Nothing,
                }
            },
            Message::SelectPrevious => {
                let previous = match &self.model {
                    Some(model) => match model.selection() {
                        Some(current_id) => model.previous(current_id),
                        None => None,
                    },
                    None => None,
                };
                match previous {
                    Some(id) => self.set_selection(Some(id)),
                    None => Effect::Nothing,
                }
            },
            Message::ExpandCollapseCurrent => {
                match &mut self.model {
                    Some(model) => {
                        match model.selection() {
                            Some(current_id) => {
                                let request = model.expand_collapse(current_id);
                                let ghost before = model@;
                                model.update_linear_index();
                                proof {
                                    assert(model@.slots == before.slots);
                                }
                                match request {
                                    Some(Request::Collapse(id)) => Effect::Collapse(id),
                                    Some(Request::Expand(id)) => Effect::Expand(id),
                                    Some(Request::Load(id, path)) => Effect::Load(id, path),
                                    None => Effect::Nothing,
                                }
                            },
                            None => Effect::Nothing,
                        }
                    },
                    None => Effect::Nothing,
                }
            },
            Message::Removed(components) => {
                match &mut self.model {
                    Some(model) => {
                        match model.node(&components) {
                            Some(id) => {
                                model.remove(id);
                            },
                            None => {},
                        }
                    },
                    None => {},
                }
                Effect::Nothing
            },
            Message::Added(components) => {
                match &self.model {
                    Some(model) => {
                        if components.len() == 0 {
                            return Effect::Nothing;
                        }
                        let mut parent: Vec<String> = Vec::new();
                        let last: usize = components.len() - 1;
                        let mut index: usize = 0;
                        while index < last
                            invariant
                                index <= last,
                                last + 1 == components@.len(),
                                parent@ == components@.take(index as int),
                            decreases last - index,
                        {
                            parent.push(components[index].clone());
                            index += 1;
                            assert(parent@ =~= components@.take(index as int));
                        }
                        assert(parent@ =~= components@.drop_last());
                        match model.node(&parent) {
                            Some(id) => Effect::Load(id, model.path(id)),
                            None => Effect::Nothing,
                        }
                    },
                    None => Effect::Nothing,
                }
            },
        }
    }

    fn set_selection(&mut self, id: Option<NodeId>) -> (effect: Effect)
        requires
            old(self).well_formed(),
        ensures
            final(self).well_formed(),
            match old(self)@ {
                Some(tree) => final(self)@ == Some(Tree { selection: id, ..tree }) && selects(tree, id, effect),
                None => final(self)@.is_none() && effect == Effect::Nothing,
            },
    {
        match &mut self.model {
            Some(model) => {
                let ghost before = model@;
                model.set_selection(id);
                proof {
                    before.lemma_well_formed_by_slots(model@);
                }
                match id {
                    Some(node) => {
                        let path = model.path(node);
                        proof {
                            before.lemma_path_by_slots(model@, node.0 as nat);
                        }
                        Effect::SelectFile(Some(path))
                    },
                    None => Effect::SelectFile(None),
                }
            },
            None => Effect::Nothing,
        }
    }
}

} // verus!

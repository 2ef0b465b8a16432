//! What the changes that a journal reports do to the nodes and entries of a volume.
use crate::ntfs::{is_deleted, RecordView, UsnRecord, ROOT_FILE_REFERENCE};
use crate::paths::{is_in_subtree, valid_ntfs_component, valid_ntfs_relative_path};
use crate::tables::{ntfs_node_from_record, EntryTable, EntryView, NodeTable, NodeView};
use std::collections::HashSet;
use vstd::prelude::*;

verus! {

broadcast use vstd::std_specs::hash::group_hash_axioms;

/// The nodes of a volume and the entries that make them searchable.
pub struct TreeView {
    pub nodes: Seq<NodeView>,
    pub entries: Map<Seq<char>, EntryView>,
}

/// The nodes of a volume and the entries that make them searchable.
pub struct Tree {
    pub nodes: NodeTable,
    pub entries: EntryTable,
}

impl View for Tree {
    type V = TreeView;

    open spec fn view(&self) -> TreeView {
        TreeView { nodes: self.nodes@, entries: self.entries@ }
    }
}

// ---------------------------------------------------------------------------
// One change
// ---------------------------------------------------------------------------

/// Whether an entry does not belong to a node of the subtree of `top`.
pub open spec fn outside_subtree(nodes: Seq<NodeView>, top: Seq<char>) -> spec_fn(
    EntryView,
) -> bool {
    |entry: EntryView|
        match entry.file_reference_number {
            Some(reference) => !crate::tables::subtree_has(nodes, top, reference),
            None => true,
        }
}

/// Whether a node lies outside the subtree of `top`.
pub open spec fn not_in_subtree(top: Seq<char>) -> spec_fn(NodeView) -> bool {
    |node: NodeView| !crate::paths::in_subtree(node.relative_path, top)
}

/// The entries with those of the nodes of a subtree added.
pub open spec fn with_subtree_entries(
    entries: Map<Seq<char>, EntryView>,
    nodes: Seq<NodeView>,
    top: Seq<char>,
    generation: i64,
) -> Map<Seq<char>, EntryView>
    decreases nodes.len(),
{
    if nodes.len() == 0 {
        entries
    } else {
        let front = with_subtree_entries(entries, nodes.drop_last(), top, generation);
        if crate::paths::in_subtree(nodes.last().relative_path, top) {
            front.insert(
                nodes.last().relative_path,
                crate::tables::node_entry(nodes.last(), generation),
            )
        } else {
            front
        }
    }
}

impl TreeView {
    /// The tree without a subtree.
    pub open spec fn without_subtree(self, top: Seq<char>) -> TreeView {
        TreeView {
            nodes: crate::tables::kept_nodes(self.nodes, not_in_subtree(top)),
            entries: crate::tables::kept_entries(self.entries, outside_subtree(self.nodes, top)),
        }
    }

    /// The tree with one node added or, at the same path, updated.
    pub open spec fn with_changed(self, node: NodeView, generation: i64) -> TreeView {
        TreeView {
            nodes: crate::tables::with_node(self.nodes, node),
            entries: self.entries.insert(
                node.relative_path,
                crate::tables::node_entry(node, generation),
            ),
        }
    }

    /// The tree with the subtree of `old_top` moved to where `node` now lies.
    pub open spec fn with_moved(
        self,
        old_top: Seq<char>,
        node: NodeView,
        generation: i64,
    ) -> TreeView {
        let top = node.relative_path;
        let nodes = crate::tables::with_node(
            crate::tables::moved_nodes(self.nodes, old_top, top),
            node,
        );
        TreeView {
            nodes,
            entries: with_subtree_entries(
                crate::tables::kept_entries(self.entries, outside_subtree(self.nodes, old_top)),
                nodes,
                top,
                generation,
            ),
        }
    }

    /// The path of the file or directory that a record describes, where the name and the parent
    /// leave no doubt about it.
    pub open spec fn target_path(self, record: RecordView) -> Option<Seq<char>> {
        let path = if record.parent_file_reference_number == ROOT_FILE_REFERENCE {
            Some(record.name)
        } else {
            match crate::tables::node_of(self.nodes, record.parent_file_reference_number) {
                Some(parent) if parent.is_directory && crate::paths::valid_relative_path(
                    parent.relative_path,
                ) => Some(parent.relative_path + "/"@ + record.name),
                _ => None,
            }
        };
        match path {
            Some(path) if crate::paths::valid_component(record.name)
                && crate::paths::valid_relative_path(path) => Some(path),
            _ => None,
        }
    }

    /// The tree after one change. A change that cannot be placed gives none.
    pub open spec fn after(self, record: RecordView, generation: i64) -> Option<TreeView> {
        let old = crate::tables::node_of(self.nodes, record.file_reference_number);
        if record.is_deleted() {
            match old {
                Some(node) => Some(self.without_subtree(node.relative_path)),
                None => Some(self),
            }
        } else {
            match self.target_path(record) {
                None => None,
                Some(path) => {
                    if crate::tables::path_taken(self.nodes, path, record.file_reference_number) {
                        None
                    } else {
                        let node = crate::tables::node_from_record(record, path);
                        match old {
                            Some(before) if before.relative_path != path => Some(
                                self.with_moved(before.relative_path, node, generation),
                            ),
                            _ => Some(self.with_changed(node, generation)),
                        }
                    }
                },
            }
        }
    }

    /// The tree after a list of changes, those of the root itself passed over. It is given only
    /// where every change can be placed.
    pub open spec fn after_all(self, records: Seq<RecordView>, generation: i64) -> Option<TreeView>
        decreases records.len(),
    {
        if records.len() == 0 {
            Some(self)
        } else {
            match self.after_all(records.drop_last(), generation) {
                None => None,
                Some(tree) => {
                    if records.last().file_reference_number == ROOT_FILE_REFERENCE {
                        Some(tree)
                    } else {
                        tree.after(records.last(), generation)
                    }
                },
            }
        }
    }
}

impl Tree {
    pub open spec fn wf(&self) -> bool {
        self.nodes.wf() && self.entries.wf()
    }

    /// Removes the entries of the nodes of a subtree.
    fn delete_ntfs_entries_for_subtree(&mut self, top: &str)
        requires
            old(self).wf(),
        ensures
            final(self).wf(),
            final(self).nodes == old(self).nodes,
            final(self).entries@ == crate::tables::kept_entries(
                old(self).entries@,
                outside_subtree(old(self).nodes@, top@),
            ),
    {
        let ghost nodes = self.nodes@;
        let ghost keep = outside_subtree(nodes, top@);
        let mut references: HashSet<u64> = HashSet::new();
        let mut i: usize = 0;
        while i < self.nodes.len()
            invariant
                i <= self.nodes@.len(),
                self.nodes@ == nodes,
                forall|reference: u64| #[trigger]
                    references@.contains(reference) <==> exists|k: int|
                        k < i && crate::tables::node_at(nodes, reference, k)
                            && crate::paths::in_subtree(
                            nodes[k].relative_path,
                            top@,
                        ),
            decreases self.nodes@.len() - i,
        {
            let node = self.nodes.row(i);
            let ghost before = references@;
            let inside = is_in_subtree(node.relative_path.as_str(), top);
            if inside {
                references.insert(node.file_reference_number);
            }
            proof {
                assert forall|reference: u64| #[trigger]
                    references@.contains(reference) <==> exists|k: int|
                        k < i + 1 && crate::tables::node_at(nodes, reference, k)
                            && crate::paths::in_subtree(
                            nodes[k].relative_path,
                            top@,
                        ) by {
                    if before.contains(reference) {
                        let k = choose|k: int|
                            k < i && crate::tables::node_at(nodes, reference, k)
                                && crate::paths::in_subtree(
                                nodes[k].relative_path,
                                top@,
                            );
                        assert(k < i + 1);
                    }
                    if inside && node.file_reference_number == reference {
                        assert(crate::tables::node_at(nodes, reference, i as int));
                    }
                    if exists|k: int|
                        k < i + 1 && crate::tables::node_at(nodes, reference, k)
                            && crate::paths::in_subtree(
                            nodes[k].relative_path,
                            top@,
                        ) {
                        let k = choose|k: int|
                            k < i + 1 && crate::tables::node_at(nodes, reference, k)
                                && crate::paths::in_subtree(
                                nodes[k].relative_path,
                                top@,
                            );
                        if k < i {
                            assert(before.contains(reference));
                        }
                    }
                }
            }
            i += 1;
        }
        let mut marked: Vec<bool> = Vec::new();
        let mut j: usize = 0;
        while j < self.entries.len()
            invariant
                j <= self.entries.rows().len(),
                marked@.len() == j,
                self.nodes@ == nodes,
                keep == outside_subtree(nodes, top@),
                forall|reference: u64| #[trigger]
                    references@.contains(reference) <==> crate::tables::subtree_has(
                        nodes,
                        top@,
                        reference,
                    ),
                forall|k: int|
                    0 <= k < j ==> #[trigger] marked@[k] == keep(self.entries.rows()[k]),
            decreases self.entries.rows().len() - j,
        {
            let inside = match self.entries.row(j).file_reference_number {
                Some(reference) => references.contains(&reference),
                None => false,
            };
            marked.push(!inside);
            j += 1;
        }
        self.entries.retain(&marked, Ghost(keep));
    }

    /// Removes the nodes of a subtree.
    fn delete_nodes_of_subtree(&mut self, top: &str)
        requires
            old(self).wf(),
        ensures
            final(self).wf(),
            final(self).entries == old(self).entries,
            final(self).nodes@ == crate::tables::kept_nodes(old(self).nodes@, not_in_subtree(top@)),
    {
        let ghost keep = not_in_subtree(top@);
        let mut marked: Vec<bool> = Vec::new();
        let mut i: usize = 0;
        while i < self.nodes.len()
            invariant
                i <= self.nodes@.len(),
                marked@.len() == i,
                keep == not_in_subtree(top@),
                forall|k: int| 0 <= k < i ==> #[trigger] marked@[k] == keep(self.nodes@[k]),
            decreases self.nodes@.len() - i,
        {
            marked.push(!is_in_subtree(self.nodes.row(i).relative_path.as_str(), top));
            i += 1;
        }
        self.nodes.retain(&marked, Ghost(keep));
    }

    /// Removes a subtree.
    pub fn delete_ntfs_subtree(&mut self, top: &str)
        requires
            old(self).wf(),
        ensures
            final(self).wf(),
            final(self)@ == old(self)@.without_subtree(top@),
    {
        self.delete_ntfs_entries_for_subtree(top);
        self.delete_nodes_of_subtree(top);
    }

    /// Adds the entries of the nodes of a subtree.
    fn add_subtree_entries(&mut self, top: &str, generation: i64)
        requires
            old(self).wf(),
        ensures
            final(self).wf(),
            final(self).nodes == old(self).nodes,
            final(self).entries@ == with_subtree_entries(
                old(self).entries@,
                old(self).nodes@,
                top@,
                generation,
            ),
    {
        let ghost before = self.entries@;
        let ghost nodes = self.nodes@;
        let ghost table = self.nodes;
        let mut i: usize = 0;
        while i < self.nodes.len()
            invariant
                i <= self.nodes@.len(),
                self.wf(),
                self.nodes == table,
                self.nodes@ == nodes,
                self.entries@ == with_subtree_entries(
                    before,
                    nodes.take(i as int),
                    top@,
                    generation,
                ),
            decreases self.nodes@.len() - i,
        {
            assert(nodes.take(i + 1).drop_last() =~= nodes.take(i as int));
            let node = self.nodes.row(i);
            if is_in_subtree(node.relative_path.as_str(), top) {
                self.entries.upsert_ntfs_entry(node, generation);
            }
            i += 1;
        }
        assert(nodes.take(i as int) =~= nodes);
    }

    /// The path of the file or directory that a record describes.
    pub(crate) fn place(&self, record: &UsnRecord) -> (path: Option<String>)
        requires
            self.wf(),
        ensures
            match path {
                Some(text) => self@.target_path(record@) == Some(text@),
                None => self@.target_path(record@) is None,
            },
    {
        if !valid_ntfs_component(record.name.as_str()) {
            return None;
        }
        let path: String = if record.parent_file_reference_number == ROOT_FILE_REFERENCE {
            record.name.clone()
        } else {
            match self.nodes.get(record.parent_file_reference_number) {
                None => return None,
                Some(parent) => {
                    if !parent.is_directory || !valid_ntfs_relative_path(
                        parent.relative_path.as_str(),
                    ) {
                        return None;
                    }
                    let mut path = parent.relative_path.clone();
                    path.append("/");
                    path.append(record.name.as_str());
                    path
                },
            }
        };
        if valid_ntfs_relative_path(path.as_str()) {
            Some(path)
        } else {
            None
        }
    }

    /// Applies one change. `false` says that the change cannot be placed; the tree is then as it
    /// was.
    pub fn apply_ntfs_delta_record(&mut self, record: &UsnRecord, generation: i64) -> (applied:
        bool)
        requires
            old(self).wf(),
        ensures
            final(self).wf(),
            match old(self)@.after(record@, generation) {
                Some(tree) => applied && final(self)@ == tree,
                None => !applied && *final(self) == *old(self),
            },
    {
        let reference: u64 = record.file_reference_number;
        let old_path: Option<String> = match self.nodes.get(reference) {
            Some(node) => Some(node.relative_path.clone()),
            None => None,
        };
        if is_deleted(record) {
            if let Some(path) = old_path {
                self.delete_ntfs_subtree(path.as_str());
            }
            return true;
        }
        let path = match self.place(record) {
            Some(path) => path,
            None => return false,
        };
        if self.nodes.is_path_taken(path.as_str(), reference) {
            return false;
        }
        let node = ntfs_node_from_record(record, path.clone());
        match old_path {
            Some(old_top) if !crate::text::same_text(old_top.as_str(), path.as_str()) => {
                // The entries go by the numbers of the old nodes, before the paths change: a
                // later deletion at the target then cannot remove what has just moved in.
                self.delete_ntfs_entries_for_subtree(old_top.as_str());
                self.nodes.move_subtree(old_top.as_str(), path.as_str());
                self.nodes.upsert(node);
                self.add_subtree_entries(path.as_str(), generation);
            },
            _ => {
                self.entries.upsert_ntfs_entry(&node, generation);
                self.nodes.upsert(node);
            },
        }
        true
    }

    /// A tree that says the same.
    pub fn copy(&self) -> (tree: Tree)
        requires
            self.wf(),
        ensures
            tree.wf(),
            tree@ == self@,
    {
        Tree { nodes: self.nodes.copy(), entries: self.entries.copy() }
    }

    /// Applies a list of changes in its order. `false` says that one of them cannot be placed; the
    /// tree is then as it was.
    pub fn apply_records(&mut self, records: &Vec<UsnRecord>, generation: i64) -> (applied: bool)
        requires
            old(self).wf(),
        ensures
            final(self).wf(),
            match old(self)@.after_all(crate::ntfs::record_views(records@), generation) {
                Some(tree) => applied && final(self)@ == tree,
                None => !applied && *final(self) == *old(self),
            },
    {
        let ghost views = crate::ntfs::record_views(records@);
        let ghost before = self@;
        let mut tree = self.copy();
        let mut i: usize = 0;
        assert(views.take(0) =~= Seq::<RecordView>::empty());
        while i < records.len()
            invariant
                i <= records.len(),
                views == crate::ntfs::record_views(records@),
                self.wf(),
                *self == *old(self),
                before == self@,
                tree.wf(),
                before.after_all(views.take(i as int), generation) == Some(tree@),
            decreases records.len() - i,
        {
            assert(views.take(i + 1).drop_last() =~= views.take(i as int));
            assert(views.take(i + 1).last() == records@[i as int]@);
            if records[i].file_reference_number != ROOT_FILE_REFERENCE {
                if !tree.apply_ntfs_delta_record(&records[i], generation) {
                    proof {
                        lemma_rejection_is_final(before, views, generation, i + 1);
                    }
                    return false;
                }
            }
            i += 1;
        }
        assert(views.take(i as int) =~= views);
        *self = tree;
        true
    }
}

/// A list with a change that cannot be placed cannot be applied.
proof fn lemma_rejection_is_final(
    tree: TreeView,
    records: Seq<RecordView>,
    generation: i64,
    count: int,
)
    requires
        0 <= count <= records.len(),
        tree.after_all(records.take(count), generation) is None,
    ensures
        tree.after_all(records, generation) is None,
    decreases records.len() - count,
{
    if count < records.len() {
        assert(records.take(count + 1).drop_last() =~= records.take(count));
        lemma_rejection_is_final(tree, records, generation, count + 1);
    } else {
        assert(records.take(count) =~= records);
    }
}

// ---------------------------------------------------------------------------
// Order of changes
// ---------------------------------------------------------------------------

/// A record put into a list behind all that are not later.
pub open spec fn with_record_by_usn(sorted: Seq<RecordView>, record: RecordView) -> Seq<RecordView>
    decreases sorted.len(),
{
    if sorted.len() == 0 || sorted.last().usn <= record.usn {
        sorted.push(record)
    } else {
        with_record_by_usn(sorted.drop_last(), record).push(sorted.last())
    }
}

/// The records in the order of the journal; those at the same position keep their order.
pub open spec fn by_usn(records: Seq<RecordView>) -> Seq<RecordView>
    decreases records.len(),
{
    if records.len() == 0 {
        Seq::empty()
    } else {
        with_record_by_usn(by_usn(records.drop_last()), records.last())
    }
}

/// Puts the records in the order of the journal.
pub fn sort_by_usn(records: &mut Vec<UsnRecord>)
    ensures
        crate::ntfs::record_views(final(records)@) == by_usn(
            crate::ntfs::record_views(old(records)@),
        ),
{
    let ghost all = crate::ntfs::record_views(records@);
    let count: usize = records.len();
    let mut i: usize = 0;
    assert(all.take(0) =~= Seq::<RecordView>::empty());
    assert(crate::ntfs::record_views(records@) =~= by_usn(all.take(0)) + all.skip(0));
    proof {
        lemma_by_usn(all.take(0));
    }
    while i < count
        invariant
            i <= count,
            count == records@.len(),
            all.len() == count,
            by_usn(all.take(i as int)).len() == i,
            crate::ntfs::record_views(records@) == by_usn(all.take(i as int)) + all.skip(i as int),
        decreases count - i,
    {
        let ghost views = crate::ntfs::record_views(records@);
        let ghost sorted = by_usn(all.take(i as int));
        let ghost record = all[i as int];
        assert(views[i as int] == all.skip(i as int)[0]);
        let usn: i64 = records[i].usn;
        let mut at: usize = i;
        assert(with_record_by_usn(sorted, record) + sorted.skip(i as int) =~= with_record_by_usn(
            sorted.take(i as int),
            record,
        ) + sorted.skip(i as int)) by {
            assert(sorted.take(i as int) =~= sorted);
        }
        while at > 0 && records[at - 1].usn > usn
            invariant
                at <= i < count,
                count == records@.len(),
                views == crate::ntfs::record_views(records@),
                sorted.len() == i,
                forall|k: int| 0 <= k < i ==> views[k] == #[trigger] sorted[k],
                record.usn == usn,
                with_record_by_usn(sorted, record) =~= with_record_by_usn(
                    sorted.take(at as int),
                    record,
                ) + sorted.skip(at as int),
            decreases at,
        {
            proof {
                let shorter = sorted.take(at - 1);
                let here = sorted.take(at as int);
                assert(views[at - 1] == sorted[at - 1]);
                assert(here.drop_last() =~= shorter);
                assert(here.last() == sorted[at - 1]);
                assert(with_record_by_usn(here, record) == with_record_by_usn(
                    shorter,
                    record,
                ).push(here.last()));
                assert(with_record_by_usn(shorter, record).push(here.last()) + sorted.skip(
                    at as int,
                ) =~= with_record_by_usn(shorter, record) + sorted.skip(at - 1));
            }
            at -= 1;
        }
        proof {
            if at > 0 {
                assert(views[at - 1] == sorted[at - 1]);
                assert(sorted.take(at as int).last() == sorted[at - 1]);
            }
            assert(with_record_by_usn(sorted.take(at as int), record) == sorted.take(
                at as int,
            ).push(record));
            assert(all.take(i + 1).drop_last() =~= all.take(i as int));
            assert(by_usn(all.take(i + 1)) == with_record_by_usn(sorted, record));
        }
        if at < i {
            let ghost before = records@;
            let moved = records.remove(i);
            records.insert(at, moved);
            assert(crate::ntfs::record_views(records@) =~= by_usn(all.take(i + 1)) + all.skip(
                i + 1,
            )) by {
                assert(moved@ == record);
                let now = crate::ntfs::record_views(records@);
                let want = by_usn(all.take(i + 1)) + all.skip(i + 1);
                assert(want =~= sorted.take(at as int).push(record) + sorted.skip(at as int)
                    + all.skip(i + 1));
                assert(now.len() == want.len());
                assert forall|k: int| 0 <= k < now.len() implies now[k] == want[k] by {
                    if k < at {
                        assert(now[k] == views[k]);
                    } else if k == at {
                    } else if k <= i {
                        assert(now[k] == views[k - 1]);
                    } else {
                        assert(now[k] == views[k]);
                    }
                }
            }
        } else {
            assert(sorted.take(i as int) =~= sorted);
            assert(crate::ntfs::record_views(records@) =~= by_usn(all.take(i + 1)) + all.skip(
                i + 1,
            ));
        }
        i += 1;
    }
    assert(all.take(count as int) =~= all);
    assert(by_usn(all) + all.skip(count as int) =~= by_usn(all));
}

/// The length of an ordered list.
proof fn lemma_by_usn(records: Seq<RecordView>)
    ensures
        by_usn(records).len() == records.len(),
    decreases records.len(),
{
    if records.len() > 0 {
        lemma_by_usn(records.drop_last());
        lemma_with_record_by_usn(by_usn(records.drop_last()), records.last());
    }
}

proof fn lemma_with_record_by_usn(sorted: Seq<RecordView>, record: RecordView)
    ensures
        with_record_by_usn(sorted, record).len() == sorted.len() + 1,
    decreases sorted.len(),
{
    if sorted.len() > 0 && sorted.last().usn > record.usn {
        lemma_with_record_by_usn(sorted.drop_last(), record);
    }
}

/// The changes are put in the order of the journal, and none is lost or repeated.
pub proof fn law_changes_are_put_in_order(records: Seq<RecordView>)
    ensures
        forall|i: int, j: int|
            0 <= i < j < by_usn(records).len() ==> (#[trigger] by_usn(records)[i]).usn <= (
            #[trigger] by_usn(records)[j]).usn,
        by_usn(records).to_multiset() == records.to_multiset(),
    decreases records.len(),
{
    broadcast use vstd::seq_lib::group_to_multiset_ensures;

    if records.len() > 0 {
        law_changes_are_put_in_order(records.drop_last());
        lemma_record_put_in_order(by_usn(records.drop_last()), records.last());
        assert(records =~= records.drop_last().push(records.last()));
    } else {
        assert(by_usn(records) =~= records);
    }
}

/// Whether no two changes stand at the same position of the journal.
pub open spec fn distinct_positions(records: Seq<RecordView>) -> bool {
    forall|i: int, j: int|
        0 <= i < j < records.len() ==> (#[trigger] records[i]).usn != (#[trigger] records[j]).usn
}

/// Whether two trees say the same, the generations of their entries set aside.
pub open spec fn same_tree(a: TreeView, b: TreeView) -> bool {
    &&& a.nodes == b.nodes
    &&& crate::tables::same_entries(a.entries, b.entries)
}

/// Whether two outcomes of a list of changes are the same, generations set aside.
pub open spec fn same_outcome(a: Option<TreeView>, b: Option<TreeView>) -> bool {
    match (a, b) {
        (Some(a), Some(b)) => same_tree(a, b),
        (None, None) => true,
        _ => false,
    }
}

/// Changes at different positions have one order.
pub proof fn law_order_of_changes_is_unique(records: Seq<RecordView>, others: Seq<RecordView>)
    requires
        distinct_positions(records),
        records.to_multiset() == others.to_multiset(),
    ensures
        by_usn(records) == by_usn(others),
{
    law_changes_are_put_in_order(records);
    law_changes_are_put_in_order(others);
    lemma_positions_increase(records, by_usn(records));
    lemma_positions_increase(records, by_usn(others));
    lemma_one_order(by_usn(records), by_usn(others));
}

/// Changes at different positions that stand in order stand in a strict order.
proof fn lemma_positions_increase(records: Seq<RecordView>, sorted: Seq<RecordView>)
    requires
        distinct_positions(records),
        records.to_multiset() == sorted.to_multiset(),
        forall|i: int, j: int|
            0 <= i < j < sorted.len() ==> (#[trigger] sorted[i]).usn <= (#[trigger] sorted[j]).usn,
    ensures
        forall|i: int, j: int|
            0 <= i < j < sorted.len() ==> (#[trigger] sorted[i]).usn < (#[trigger] sorted[j]).usn,
{
    assert(records.no_duplicates());
    records.to_multiset_ensures();
    sorted.to_multiset_ensures();
    records.lemma_multiset_has_no_duplicates();
    sorted.lemma_multiset_has_no_duplicates_conv();
    assert forall|i: int, j: int| 0 <= i < j < sorted.len() implies (#[trigger] sorted[i]).usn < (
    #[trigger] sorted[j]).usn by {
        assert(sorted.contains(sorted[i]) && sorted.contains(sorted[j]));
        assert(records.to_multiset().count(sorted[i]) > 0);
        assert(records.to_multiset().count(sorted[j]) > 0);
        let p = choose|p: int| 0 <= p < records.len() && records[p] == sorted[i];
        let q = choose|q: int| 0 <= q < records.len() && records[q] == sorted[j];
        assert(p != q);
        assert(records[p].usn != records[q].usn);
    }
}

/// Two lists in a strict order that hold the same changes are the same list.
proof fn lemma_one_order(one: Seq<RecordView>, other: Seq<RecordView>)
    requires
        one.to_multiset() == other.to_multiset(),
        forall|i: int, j: int|
            0 <= i < j < one.len() ==> (#[trigger] one[i]).usn < (#[trigger] one[j]).usn,
        forall|i: int, j: int|
            0 <= i < j < other.len() ==> (#[trigger] other[i]).usn < (#[trigger] other[j]).usn,
    ensures
        one == other,
    decreases one.len(),
{
    broadcast use vstd::seq_lib::group_to_multiset_ensures;

    one.to_multiset_ensures();
    other.to_multiset_ensures();
    if one.len() > 0 {
        let last = one.len() - 1;
        assert(one.contains(one[last]) && other.contains(other[last]));
        assert(other.to_multiset().count(one[last]) > 0);
        assert(one.to_multiset().count(other[last]) > 0);
        let k = choose|k: int| 0 <= k < other.len() && other[k] == one[last];
        let m = choose|m: int| 0 <= m < one.len() && one[m] == other[last];
        assert(k == last);
        let front = one.drop_last();
        let other_front = other.drop_last();
        assert(one =~= front.push(one[last]));
        assert(other =~= other_front.push(other[last]));
        assert(front.to_multiset().insert(one[last]).remove(one[last]) =~= front.to_multiset());
        assert(other_front.to_multiset().insert(one[last]).remove(one[last])
            =~= other_front.to_multiset());
        assert forall|i: int, j: int| 0 <= i < j < front.len() implies (#[trigger] front[i]).usn < (
        #[trigger] front[j]).usn by {
            assert(front[i] == one[i] && front[j] == one[j]);
        }
        assert forall|i: int, j: int| 0 <= i < j < other_front.len() implies (
        #[trigger] other_front[i]).usn < (#[trigger] other_front[j]).usn by {
            assert(other_front[i] == other[i] && other_front[j] == other[j]);
        }
        lemma_one_order(front, other_front);
    } else {
        assert(one =~= other);
    }
}

/// What is taken away with a subtree does not depend on generations.
proof fn lemma_kept_alike(
    a: Map<Seq<char>, EntryView>,
    b: Map<Seq<char>, EntryView>,
    nodes: Seq<NodeView>,
    top: Seq<char>,
)
    requires
        crate::tables::same_entries(a, b),
    ensures
        crate::tables::same_entries(
            crate::tables::kept_entries(a, outside_subtree(nodes, top)),
            crate::tables::kept_entries(b, outside_subtree(nodes, top)),
        ),
{
    let keep = outside_subtree(nodes, top);
    let kept_a = crate::tables::kept_entries(a, keep);
    let kept_b = crate::tables::kept_entries(b, keep);
    assert forall|path: Seq<char>| kept_a.contains_key(path) == #[trigger] kept_b.contains_key(
        path,
    ) by {
        assert(a.contains_key(path) == b.contains_key(path));
    }
    assert(kept_a.dom() =~= kept_b.dom());
    assert forall|path: Seq<char>| #[trigger] kept_a.contains_key(path) implies
        crate::tables::same_entry(kept_a[path], kept_b[path]) by {
        assert(a.contains_key(path));
        assert(kept_b.contains_key(path));
    }
}

/// What is added with a subtree does not depend on generations.
proof fn lemma_subtree_entries_alike(
    a: Map<Seq<char>, EntryView>,
    b: Map<Seq<char>, EntryView>,
    nodes: Seq<NodeView>,
    top: Seq<char>,
    generation: i64,
    other: i64,
)
    requires
        crate::tables::same_entries(a, b),
    ensures
        crate::tables::same_entries(
            with_subtree_entries(a, nodes, top, generation),
            with_subtree_entries(b, nodes, top, other),
        ),
    decreases nodes.len(),
{
    if nodes.len() > 0 {
        lemma_subtree_entries_alike(a, b, nodes.drop_last(), top, generation, other);
    }
}

/// One change does the same in every generation.
proof fn lemma_change_alike(
    a: TreeView,
    b: TreeView,
    record: RecordView,
    generation: i64,
    other: i64,
)
    requires
        same_tree(a, b),
    ensures
        same_outcome(a.after(record, generation), b.after(record, other)),
{
    match crate::tables::node_of(a.nodes, record.file_reference_number) {
        Some(before) => {
            let top = before.relative_path;
            lemma_kept_alike(a.entries, b.entries, a.nodes, top);
            if let Some(path) = a.target_path(record) {
                let node = crate::tables::node_from_record(record, path);
                lemma_subtree_entries_alike(
                    crate::tables::kept_entries(a.entries, outside_subtree(a.nodes, top)),
                    crate::tables::kept_entries(b.entries, outside_subtree(a.nodes, top)),
                    a.with_moved(top, node, generation).nodes,
                    path,
                    generation,
                    other,
                );
            }
        },
        None => {},
    }
}

/// A list of changes does the same in every generation: it can be placed or not, and leaves the
/// same nodes and, generations set aside, the same entries.
pub proof fn law_changes_do_not_depend_on_the_generation(
    a: TreeView,
    b: TreeView,
    records: Seq<RecordView>,
    generation: i64,
    other: i64,
)
    requires
        same_tree(a, b),
    ensures
        same_outcome(a.after_all(records, generation), b.after_all(records, other)),
    decreases records.len(),
{
    if records.len() > 0 {
        law_changes_do_not_depend_on_the_generation(a, b, records.drop_last(), generation, other);
        match (
            a.after_all(records.drop_last(), generation),
            b.after_all(records.drop_last(), other),
        ) {
            (Some(one), Some(two)) => {
                lemma_change_alike(one, two, records.last(), generation, other);
            },
            _ => {},
        }
    }
}

/// The order in which changes at different positions are reported does not matter, nor does the
/// generation: two lists with the same changes can both be placed or neither, and leave the same
/// nodes and, generations set aside, the same entries.
pub proof fn law_reported_order_does_not_matter(
    tree: TreeView,
    records: Seq<RecordView>,
    others: Seq<RecordView>,
    generation: i64,
    other: i64,
)
    requires
        distinct_positions(records),
        records.to_multiset() == others.to_multiset(),
    ensures
        by_usn(records) == by_usn(others),
        same_outcome(
            tree.after_all(by_usn(records), generation),
            tree.after_all(by_usn(others), other),
        ),
{
    law_order_of_changes_is_unique(records, others);
    law_changes_do_not_depend_on_the_generation(tree, tree, by_usn(records), generation, other);
}

proof fn lemma_record_put_in_order(sorted: Seq<RecordView>, record: RecordView)
    requires
        forall|i: int, j: int|
            0 <= i < j < sorted.len() ==> (#[trigger] sorted[i]).usn <= (#[trigger] sorted[j]).usn,
    ensures
        ({
            let result = with_record_by_usn(sorted, record);
            &&& result.len() == sorted.len() + 1
            &&& result.to_multiset() == sorted.to_multiset().insert(record)
            &&& forall|i: int, j: int|
                0 <= i < j < result.len() ==> (#[trigger] result[i]).usn <= (
                #[trigger] result[j]).usn
            &&& forall|i: int|
                0 <= i < result.len() ==> (#[trigger] result[i]).usn <= record.usn || (sorted.len()
                    > 0 && result[i].usn <= sorted.last().usn)
        }),
    decreases sorted.len(),
{
    broadcast use vstd::seq_lib::group_to_multiset_ensures;

    if sorted.len() > 0 && sorted.last().usn > record.usn {
        let front = sorted.drop_last();
        let last = sorted.last();
        assert forall|i: int, j: int| 0 <= i < j < front.len() implies (#[trigger] front[i]).usn
            <= (#[trigger] front[j]).usn by {
            assert(front[i] == sorted[i] && front[j] == sorted[j]);
        }
        lemma_record_put_in_order(front, record);
        assert(sorted =~= front.push(last));
        assert(front.to_multiset().insert(record).insert(last) =~= front.to_multiset().insert(
            last,
        ).insert(record));
        if front.len() > 0 {
            assert(sorted[front.len() - 1].usn <= sorted[sorted.len() - 1].usn);
        }
    } else {
        let result = sorted.push(record);
        assert forall|i: int, j: int| 0 <= i < j < result.len() implies (#[trigger] result[i]).usn
            <= (#[trigger] result[j]).usn by {
            if j == sorted.len() && i < sorted.len() - 1 {
                assert(sorted[i].usn <= sorted[sorted.len() - 1].usn);
            }
        }
        assert forall|i: int| 0 <= i < result.len() implies (#[trigger] result[i]).usn
            <= record.usn by {
            if i < sorted.len() - 1 {
                assert(sorted[i].usn <= sorted[sorted.len() - 1].usn);
            }
        }
    }
}

/// What is kept of a list of changes when only those at one position are.
pub open spec fn at_position(records: Seq<RecordView>, usn: i64) -> Seq<RecordView>
    decreases records.len(),
{
    if records.len() == 0 {
        Seq::empty()
    } else if records.last().usn == usn {
        at_position(records.drop_last(), usn).push(records.last())
    } else {
        at_position(records.drop_last(), usn)
    }
}

/// A change that is put in order stands behind those of the same position.
proof fn lemma_put_behind_the_same(sorted: Seq<RecordView>, record: RecordView, usn: i64)
    ensures
        at_position(with_record_by_usn(sorted, record), usn) == at_position(
            sorted.push(record),
            usn,
        ),
    decreases sorted.len(),
{
    if !(sorted.len() == 0 || sorted.last().usn <= record.usn) {
        let front = sorted.drop_last();
        let inner = with_record_by_usn(front, record);
        lemma_put_behind_the_same(front, record, usn);
        assert(inner.push(sorted.last()).drop_last() =~= inner);
        assert(front.push(record).drop_last() =~= front);
        assert(sorted.push(record).drop_last() =~= sorted);
        assert(at_position(front.push(record), usn) == if record.usn == usn {
            at_position(front, usn).push(record)
        } else {
            at_position(front, usn)
        });
        assert(at_position(sorted.push(record), usn) == if record.usn == usn {
            at_position(sorted, usn).push(record)
        } else {
            at_position(sorted, usn)
        });
    }
}

/// Changes that are reported at the same position are applied in the order in which they are
/// reported.
pub proof fn law_changes_at_one_position_keep_their_order(records: Seq<RecordView>, usn: i64)
    ensures
        at_position(by_usn(records), usn) == at_position(records, usn),
    decreases records.len(),
{
    if records.len() > 0 {
        let front = records.drop_last();
        law_changes_at_one_position_keep_their_order(front, usn);
        lemma_put_behind_the_same(by_usn(front), records.last(), usn);
        assert(by_usn(front).push(records.last()).drop_last() =~= by_usn(front));
    } else {
        assert(by_usn(records) =~= records);
    }
}

} // verus!

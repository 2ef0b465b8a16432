//! The rows of the index: entries by path, and nodes of a volume by record number.
use crate::normalize::normalize_for_search;
use std::collections::HashMap;
use vstd::hash_map::StringHashMap;
use vstd::prelude::*;

verus! {

broadcast use vstd::std_specs::hash::group_hash_axioms;

// ---------------------------------------------------------------------------
// Entries
// ---------------------------------------------------------------------------

/// A file or directory that can be found.
#[derive(Debug)]
pub struct Entry {
    pub relative_path: String,
    pub name: String,
    pub normalized_name: String,
    pub normalized_path: String,
    pub is_directory: bool,
    pub size_bytes: i64,
    pub modified_unix_ms: Option<i64>,
    pub generation: i64,
    pub file_reference_number: Option<u64>,
}

/// What an [`Entry`] says.
pub struct EntryView {
    pub relative_path: Seq<char>,
    pub name: Seq<char>,
    pub normalized_name: Seq<char>,
    pub normalized_path: Seq<char>,
    pub is_directory: bool,
    pub size_bytes: i64,
    pub modified_unix_ms: Option<i64>,
    pub generation: i64,
    pub file_reference_number: Option<u64>,
}

impl View for Entry {
    type V = EntryView;

    open spec fn view(&self) -> EntryView {
        EntryView {
            relative_path: self.relative_path@,
            name: self.name@,
            normalized_name: self.normalized_name@,
            normalized_path: self.normalized_path@,
            is_directory: self.is_directory,
            size_bytes: self.size_bytes,
            modified_unix_ms: self.modified_unix_ms,
            generation: self.generation,
            file_reference_number: self.file_reference_number,
        }
    }
}

impl Entry {
    /// An entry that says the same.
    pub fn copy(&self) -> (entry: Entry)
        ensures
            entry@ == self@,
    {
        Entry {
            relative_path: self.relative_path.clone(),
            name: self.name.clone(),
            normalized_name: self.normalized_name.clone(),
            normalized_path: self.normalized_path.clone(),
            is_directory: self.is_directory,
            size_bytes: self.size_bytes,
            modified_unix_ms: self.modified_unix_ms,
            generation: self.generation,
            file_reference_number: self.file_reference_number,
        }
    }
}

/// The entries of a root, at most one for each path.
pub struct EntryTable {
    rows: Vec<Entry>,
    by_path: StringHashMap<usize>,
}

/// Whether two entries say the same, the generation in which they were written set aside.
pub open spec fn same_entry(a: EntryView, b: EntryView) -> bool {
    a == (EntryView { generation: a.generation, ..b })
}

/// Whether two sets of entries say the same, generations set aside.
pub open spec fn same_entries(a: Map<Seq<char>, EntryView>, b: Map<Seq<char>, EntryView>) -> bool {
    &&& a.dom() == b.dom()
    &&& forall|path: Seq<char>| #[trigger]
        a.contains_key(path) ==> same_entry(a[path], b[path])
}

/// The entries of `entries` that satisfy `keep`.
pub open spec fn kept_entries(
    entries: Map<Seq<char>, EntryView>,
    keep: spec_fn(EntryView) -> bool,
) -> Map<Seq<char>, EntryView> {
    Map::new(
        |path: Seq<char>| entries.contains_key(path) && keep(entries[path]),
        |path: Seq<char>| entries[path],
    )
}

impl EntryTable {
    /// The rows, in the order in which they are held.
    pub closed spec fn rows(&self) -> Seq<EntryView> {
        Seq::new(self.rows@.len(), |i: int| self.rows@[i]@)
    }

    /// Each row is found by its path.
    pub closed spec fn wf(&self) -> bool {
        &&& forall|i: int|
            0 <= i < self.rows@.len() ==> self.by_path@.contains_key(
                (#[trigger] self.rows@[i]).relative_path@,
            ) && self.by_path@[self.rows@[i].relative_path@] == i
        &&& forall|path: Seq<char>| #[trigger]
            self.by_path@.contains_key(path) ==> self.by_path@[path] < self.rows@.len()
                && self.rows@[self.by_path@[path] as int].relative_path@ == path
    }
}

impl View for EntryTable {
    type V = Map<Seq<char>, EntryView>;

    closed spec fn view(&self) -> Map<Seq<char>, EntryView> {
        Map::new(
            |path: Seq<char>| self.by_path@.contains_key(path),
            |path: Seq<char>| self.rows@[self.by_path@[path] as int]@,
        )
    }
}

impl EntryTable {
    /// The rows are the entries, each once.
    pub proof fn lemma_rows(&self)
        requires
            self.wf(),
        ensures
            forall|i: int|
                0 <= i < self.rows().len() ==> self@.contains_key(
                    (#[trigger] self.rows()[i]).relative_path,
                ) && self@[self.rows()[i].relative_path] == self.rows()[i],
            forall|i: int, j: int|
                0 <= i < j < self.rows().len() ==> (#[trigger] self.rows()[i]).relative_path != (
                #[trigger] self.rows()[j]).relative_path,
            forall|path: Seq<char>| #[trigger]
                self@.contains_key(path) ==> self@[path].relative_path == path && exists|i: int|
                    0 <= i < self.rows().len() && #[trigger] self.rows()[i] == self@[path],
    {
        assert forall|path: Seq<char>| #[trigger] self@.contains_key(path) implies self@[path]
            .relative_path == path && exists|i: int|
            0 <= i < self.rows().len() && #[trigger] self.rows()[i] == self@[path] by {
            let i = self.by_path@[path] as int;
            assert(self.rows()[i] == self@[path]);
        }
        assert forall|i: int, j: int| 0 <= i < j < self.rows().len() implies (
        #[trigger] self.rows()[i]).relative_path != (#[trigger] self.rows()[j]).relative_path by {
            assert(self.by_path@[self.rows@[i].relative_path@] == i);
            assert(self.by_path@[self.rows@[j].relative_path@] == j);
        }
    }

    pub fn new() -> (table: EntryTable)
        ensures
            table.wf(),
            table@ == Map::<Seq<char>, EntryView>::empty(),
    {
        let table = EntryTable {
            rows: Vec::new(),
            by_path: StringHashMap::new(),
        };
        assert(table@ =~= Map::<Seq<char>, EntryView>::empty());
        table
    }

    /// The number of entries.
    pub fn len(&self) -> (count: usize)
        ensures
            count == self.rows().len(),
    {
        self.rows.len()
    }

    /// The row at a position.
    pub fn row(&self, position: usize) -> (entry: &Entry)
        requires
            position < self.rows().len(),
        ensures
            entry@ == self.rows()[position as int],
    {
        &self.rows[position]
    }

    /// The entry of a path.
    pub fn get(&self, path: &str) -> (entry: Option<&Entry>)
        requires
            self.wf(),
        ensures
            (entry is Some) == self@.contains_key(path@),
            entry matches Some(found) ==> found@ == self@[path@],
    {
        match self.by_path.get(path) {
            Some(position) => Some(&self.rows[*position]),
            None => None,
        }
    }

    /// Puts an entry in place of the one with its path, or adds it.
    pub fn upsert(&mut self, entry: Entry)
        requires
            old(self).wf(),
        ensures
            final(self).wf(),
            final(self)@ == old(self)@.insert(entry.relative_path@, entry@),
    {
        let ghost path = entry.relative_path@;
        let ghost view = entry@;
        let ghost old_rows = self.rows@;
        let ghost old_map = self.by_path@;
        let ghost before = self@;
        let found: Option<usize> = match self.by_path.get(entry.relative_path.as_str()) {
            Some(position) => Some(*position),
            None => None,
        };
        match found {
            Some(position) => {
                self.rows[position] = entry;
                assert(self.rows@ == old_rows.update(position as int, entry));
                assert(self.by_path@ == old_map);
            },
            None => {
                let position: usize = self.rows.len();
                self.by_path.insert(entry.relative_path.clone(), position);
                self.rows.push(entry);
                assert(self.rows@ == old_rows.push(entry));
                assert(self.by_path@ == old_map.insert(path, position));
                assert forall|i: int| 0 <= i < old_rows.len() implies (
                #[trigger] old_rows[i]).relative_path@ != path by {
                    assert(old_map.contains_key(old_rows[i].relative_path@));
                }
                assert forall|i: int| 0 <= i < self.rows@.len() implies self.by_path@.contains_key(
                    (#[trigger] self.rows@[i]).relative_path@,
                ) && self.by_path@[self.rows@[i].relative_path@] == i by {
                    if i < old_rows.len() {
                        assert(self.rows@[i] == old_rows[i]);
                    }
                }
            },
        }
        assert(self@ =~= before.insert(path, view));
    }

    /// Keeps the rows that are marked.
    pub(crate) fn retain(&mut self, marked: &Vec<bool>, Ghost(keep): Ghost<
        spec_fn(EntryView) -> bool,
    >)
        requires
            old(self).wf(),
            marked@.len() == old(self).rows().len(),
            forall|i: int|
                0 <= i < marked@.len() ==> #[trigger] marked@[i] == keep(old(self).rows()[i]),
        ensures
            final(self).wf(),
            final(self)@ == kept_entries(old(self)@, keep),
    {
        let ghost all = self.rows();
        let ghost before = self@;
        proof {
            self.lemma_rows();
        }
        let mut old_rows: Vec<Entry> = Vec::new();
        std::mem::swap(&mut old_rows, &mut self.rows);
        let mut table = EntryTable::new();
        let mut left: usize = old_rows.len();
        while left > 0
            invariant
                left == old_rows@.len(),
                left <= all.len(),
                marked@.len() == all.len(),
                forall|i: int| 0 <= i < left ==> (#[trigger] old_rows@[i])@ == all[i],
                forall|i: int| 0 <= i < marked@.len() ==> #[trigger] marked@[i] == keep(all[i]),
                forall|i: int, j: int|
                    0 <= i < j < all.len() ==> (#[trigger] all[i]).relative_path != (
                    #[trigger] all[j]).relative_path,
                table.wf(),
                forall|path: Seq<char>| #[trigger]
                    table@.contains_key(path) ==> exists|i: int|
                        left <= i < all.len() && (#[trigger] all[i]).relative_path == path && keep(
                            all[i],
                        ) && table@[path] == all[i],
                forall|i: int|
                    left <= i < all.len() && keep(#[trigger] all[i]) ==> table@.contains_key(
                        all[i].relative_path,
                    ),
            decreases left,
        {
            left -= 1;
            let ghost so_far = table@;
            let row = old_rows.pop();
            if let Some(entry) = row {
                if marked[left] {
                    table.upsert(entry);
                }
            }
            proof {
                assert forall|path: Seq<char>| #[trigger] table@.contains_key(path) implies exists|
                    i: int,
                |
                    left <= i < all.len() && (#[trigger] all[i]).relative_path == path && keep(
                        all[i],
                    ) && table@[path] == all[i] by {
                    if so_far.contains_key(path) && path != all[left as int].relative_path {
                        let i = choose|i: int|
                            left + 1 <= i < all.len() && (#[trigger] all[i]).relative_path == path
                                && keep(all[i]) && so_far[path] == all[i];
                        assert(all[i].relative_path == path);
                    } else if so_far.contains_key(path) {
                        let i = choose|i: int|
                            left + 1 <= i < all.len() && (#[trigger] all[i]).relative_path == path
                                && keep(all[i]) && so_far[path] == all[i];
                        assert(all[left as int].relative_path != all[i].relative_path);
                    } else {
                        assert(all[left as int].relative_path == path);
                    }
                }
            }
        }
        proof {
            assert forall|path: Seq<char>| #[trigger] table@.contains_key(path) implies kept_entries(
                before,
                keep,
            ).contains_key(path) && table@[path] == kept_entries(before, keep)[path] by {
                let i = choose|i: int|
                    0 <= i < all.len() && (#[trigger] all[i]).relative_path == path && keep(all[i])
                        && table@[path] == all[i];
                assert(before[all[i].relative_path] == all[i]);
            }
            assert forall|path: Seq<char>| #[trigger]
                kept_entries(before, keep).contains_key(path) implies table@.contains_key(path) by {
                assert(before.contains_key(path));
                let i = choose|i: int| 0 <= i < all.len() && #[trigger] all[i] == before[path];
                assert(table@.contains_key(all[i].relative_path));
            }
            assert(table@ =~= kept_entries(before, keep));
        }
        *self = table;
    }

    /// A table with the same entries.
    pub fn copy(&self) -> (table: EntryTable)
        requires
            self.wf(),
        ensures
            table.wf(),
            table@ == self@,
    {
        proof {
            self.lemma_rows();
        }
        let ghost all = self.rows();
        let mut table = EntryTable::new();
        let mut i: usize = 0;
        while i < self.rows.len()
            invariant
                i <= self.rows.len(),
                all == self.rows(),
                all.len() == self.rows@.len(),
                self.wf(),
                table.wf(),
                forall|k: int|
                    0 <= k < all.len() ==> self@.contains_key((#[trigger] all[k]).relative_path)
                        && self@[all[k].relative_path] == all[k],
                forall|path: Seq<char>| #[trigger]
                    table@.contains_key(path) ==> self@.contains_key(path) && table@[path]
                        == self@[path],
                forall|k: int|
                    0 <= k < i ==> table@.contains_key((#[trigger] all[k]).relative_path),
            decreases self.rows.len() - i,
        {
            assert(all[i as int] == self.rows@[i as int]@);
            table.upsert(self.rows[i].copy());
            i += 1;
        }
        assert forall|path: Seq<char>| #[trigger] self@.contains_key(path) implies table@.contains_key(
            path,
        ) by {
            let k = choose|k: int| 0 <= k < self.rows().len() && #[trigger] self.rows()[k]
                == self@[path];
            assert(table@.contains_key(all[k].relative_path));
        }
        assert(table@ =~= self@);
        table
    }
}

// ---------------------------------------------------------------------------
// Nodes
// ---------------------------------------------------------------------------

/// A file or directory of a volume whose changes are followed.
#[derive(Debug)]
pub struct NtfsNode {
    pub file_reference_number: u64,
    pub parent_file_reference_number: u64,
    pub relative_path: String,
    pub name: String,
    pub is_directory: bool,
    pub modified_unix_ms: Option<i64>,
}

/// What an [`NtfsNode`] says.
pub struct NodeView {
    pub file_reference_number: u64,
    pub parent_file_reference_number: u64,
    pub relative_path: Seq<char>,
    pub name: Seq<char>,
    pub is_directory: bool,
    pub modified_unix_ms: Option<i64>,
}

impl View for NtfsNode {
    type V = NodeView;

    open spec fn view(&self) -> NodeView {
        NodeView {
            file_reference_number: self.file_reference_number,
            parent_file_reference_number: self.parent_file_reference_number,
            relative_path: self.relative_path@,
            name: self.name@,
            is_directory: self.is_directory,
            modified_unix_ms: self.modified_unix_ms,
        }
    }
}

impl NtfsNode {
    /// A node that says the same.
    pub fn copy(&self) -> (node: NtfsNode)
        ensures
            node@ == self@,
    {
        NtfsNode {
            file_reference_number: self.file_reference_number,
            parent_file_reference_number: self.parent_file_reference_number,
            relative_path: self.relative_path.clone(),
            name: self.name.clone(),
            is_directory: self.is_directory,
            modified_unix_ms: self.modified_unix_ms,
        }
    }
}

/// Whether the node at a position has the given number.
pub open spec fn node_at(nodes: Seq<NodeView>, reference: u64, position: int) -> bool {
    0 <= position < nodes.len() && nodes[position].file_reference_number == reference
}

/// Whether some node has the given number.
pub open spec fn has_node(nodes: Seq<NodeView>, reference: u64) -> bool {
    exists|position: int| node_at(nodes, reference, position)
}

/// The position of the node with the given number.
pub open spec fn node_position(nodes: Seq<NodeView>, reference: u64) -> int {
    choose|position: int| node_at(nodes, reference, position)
}

/// The node with the given number.
pub open spec fn node_of(nodes: Seq<NodeView>, reference: u64) -> Option<NodeView> {
    if has_node(nodes, reference) {
        Some(nodes[node_position(nodes, reference)])
    } else {
        None
    }
}

/// No two nodes have the same number.
pub open spec fn distinct_nodes(nodes: Seq<NodeView>) -> bool {
    forall|i: int, j: int|
        0 <= i < j < nodes.len() ==> (#[trigger] nodes[i]).file_reference_number != (
        #[trigger] nodes[j]).file_reference_number
}

/// The nodes with `node` in place of the one with its number, or behind the others.
pub open spec fn with_node(nodes: Seq<NodeView>, node: NodeView) -> Seq<NodeView> {
    if has_node(nodes, node.file_reference_number) {
        nodes.update(node_position(nodes, node.file_reference_number), node)
    } else {
        nodes.push(node)
    }
}

/// The nodes that satisfy `keep`, in their order.
pub open spec fn kept_nodes(nodes: Seq<NodeView>, keep: spec_fn(NodeView) -> bool) -> Seq<NodeView>
    decreases nodes.len(),
{
    if nodes.len() == 0 {
        Seq::empty()
    } else if keep(nodes.last()) {
        kept_nodes(nodes.drop_last(), keep).push(nodes.last())
    } else {
        kept_nodes(nodes.drop_last(), keep)
    }
}

/// The node with its path in the subtree of `old_top` moved to `new_top`; a node outside the
/// subtree stays where it is.
pub open spec fn moved_node(node: NodeView, old_top: Seq<char>, new_top: Seq<char>) -> NodeView {
    if crate::paths::in_subtree(node.relative_path, old_top) {
        NodeView {
            relative_path: crate::paths::moved_path(node.relative_path, old_top, new_top),
            ..node
        }
    } else {
        node
    }
}

/// The nodes with the subtree of `old_top` moved to `new_top`.
pub open spec fn moved_nodes(
    nodes: Seq<NodeView>,
    old_top: Seq<char>,
    new_top: Seq<char>,
) -> Seq<NodeView> {
    Seq::new(nodes.len(), |i: int| moved_node(nodes[i], old_top, new_top))
}

/// Whether a node other than the given one has the given path.
pub open spec fn path_taken(nodes: Seq<NodeView>, path: Seq<char>, reference: u64) -> bool {
    exists|i: int|
        0 <= i < nodes.len() && (#[trigger] nodes[i]).relative_path == path
            && nodes[i].file_reference_number != reference
}

/// Whether a node of the subtree of `top` has the given number.
pub open spec fn subtree_has(nodes: Seq<NodeView>, top: Seq<char>, reference: u64) -> bool {
    exists|i: int|
        node_at(nodes, reference, i) && crate::paths::in_subtree(nodes[i].relative_path, top)
}

/// Every kept node is one of the nodes, and satisfies `keep`.
pub proof fn lemma_kept_nodes(nodes: Seq<NodeView>, keep: spec_fn(NodeView) -> bool)
    ensures
        forall|i: int|
            0 <= i < kept_nodes(nodes, keep).len() ==> keep(
                #[trigger] kept_nodes(nodes, keep)[i],
            ) && nodes.contains(kept_nodes(nodes, keep)[i]),
        forall|i: int|
            0 <= i < nodes.len() && keep(#[trigger] nodes[i]) ==> kept_nodes(nodes, keep).contains(
                nodes[i],
            ),
        distinct_nodes(nodes) ==> distinct_nodes(kept_nodes(nodes, keep)),
    decreases nodes.len(),
{
    if nodes.len() > 0 {
        let front = nodes.drop_last();
        let kept = kept_nodes(nodes, keep);
        let kept_front = kept_nodes(front, keep);
        lemma_kept_nodes(front, keep);
        assert forall|i: int| 0 <= i < kept.len() implies keep(#[trigger] kept[i])
            && nodes.contains(kept[i]) by {
            if i < kept_front.len() {
                assert(kept[i] == kept_front[i]);
                let k = choose|k: int| 0 <= k < front.len() && front[k] == kept_front[i];
                assert(nodes[k] == kept[i]);
            } else {
                assert(nodes[nodes.len() - 1] == kept[i]);
            }
        }
        assert forall|i: int| 0 <= i < nodes.len() && keep(#[trigger] nodes[i]) implies kept.contains(
            nodes[i],
        ) by {
            if i < front.len() {
                assert(front[i] == nodes[i]);
                assert(kept_front.contains(front[i]));
                let k = choose|k: int| 0 <= k < kept_front.len() && kept_front[k] == nodes[i];
                assert(kept[k] == nodes[i]);
            } else {
                assert(kept[kept.len() - 1] == nodes[i]);
            }
        }
        if distinct_nodes(nodes) {
            assert forall|i: int, j: int| 0 <= i < j < front.len() implies (
            #[trigger] front[i]).file_reference_number != (
            #[trigger] front[j]).file_reference_number by {
                assert(nodes[i].file_reference_number != nodes[j].file_reference_number);
            }
            assert(distinct_nodes(kept_front));
            assert forall|i: int, j: int| 0 <= i < j < kept.len() implies (
            #[trigger] kept[i]).file_reference_number != (
            #[trigger] kept[j]).file_reference_number by {
                if j < kept_front.len() {
                    assert(kept_front[i].file_reference_number
                        != kept_front[j].file_reference_number);
                } else {
                    assert(front.contains(kept_front[i]));
                    let k = choose|k: int| 0 <= k < front.len() && front[k] == kept_front[i];
                    assert(nodes[k].file_reference_number != nodes[nodes.len()
                        - 1].file_reference_number);
                }
            }
        }
    }
}

/// In a list without repeated numbers, a number leads to one position.
pub proof fn lemma_node_position(nodes: Seq<NodeView>, reference: u64, position: int)
    requires
        distinct_nodes(nodes),
        node_at(nodes, reference, position),
    ensures
        has_node(nodes, reference),
        node_position(nodes, reference) == position,
        node_of(nodes, reference) == Some(nodes[position]),
{
    let chosen = node_position(nodes, reference);
    assert(node_at(nodes, reference, chosen));
    if chosen < position {
        assert(nodes[chosen].file_reference_number != nodes[position].file_reference_number);
    } else if position < chosen {
        assert(nodes[position].file_reference_number != nodes[chosen].file_reference_number);
    }
}

/// The nodes of a volume, at most one for each record number.
pub struct NodeTable {
    rows: Vec<NtfsNode>,
    by_reference: HashMap<u64, usize>,
}

impl View for NodeTable {
    type V = Seq<NodeView>;

    closed spec fn view(&self) -> Seq<NodeView> {
        Seq::new(self.rows@.len(), |i: int| self.rows@[i]@)
    }
}

impl NodeTable {
    /// Each node is found by its number.
    pub closed spec fn wf(&self) -> bool {
        &&& forall|i: int|
            0 <= i < self.rows@.len() ==> self.by_reference@.contains_key(
                (#[trigger] self.rows@[i]).file_reference_number,
            ) && self.by_reference@[self.rows@[i].file_reference_number] == i
        &&& forall|reference: u64| #[trigger]
            self.by_reference@.contains_key(reference) ==> self.by_reference@[reference]
                < self.rows@.len()
                && self.rows@[self.by_reference@[reference] as int].file_reference_number
                == reference
    }

    /// No two nodes have the same number.
    pub proof fn lemma_distinct(&self)
        requires
            self.wf(),
        ensures
            distinct_nodes(self@),
    {
        assert forall|i: int, j: int| 0 <= i < j < self@.len() implies (
        #[trigger] self@[i]).file_reference_number != (#[trigger] self@[j]).file_reference_number by {
            assert(self.by_reference@[self.rows@[i].file_reference_number] == i);
            assert(self.by_reference@[self.rows@[j].file_reference_number] == j);
        }
    }

    pub fn new() -> (table: NodeTable)
        ensures
            table.wf(),
            table@ == Seq::<NodeView>::empty(),
    {
        let table = NodeTable { rows: Vec::new(), by_reference: HashMap::new() };
        assert(table@ =~= Seq::<NodeView>::empty());
        table
    }

    /// The number of nodes.
    pub fn len(&self) -> (count: usize)
        ensures
            count == self@.len(),
    {
        self.rows.len()
    }

    /// The node at a position.
    pub fn row(&self, position: usize) -> (node: &NtfsNode)
        requires
            position < self@.len(),
        ensures
            node@ == self@[position as int],
    {
        &self.rows[position]
    }

    /// The node with the given number.
    pub fn get(&self, reference: u64) -> (node: Option<&NtfsNode>)
        requires
            self.wf(),
        ensures
            match node {
                Some(found) => node_of(self@, reference) == Some(found@),
                None => node_of(self@, reference) is None,
            },
    {
        proof {
            self.lemma_distinct();
        }
        match self.by_reference.get(&reference) {
            Some(position) => {
                proof {
                    assert(node_at(self@, reference, *position as int));
                    lemma_node_position(self@, reference, *position as int);
                }
                Some(&self.rows[*position])
            },
            None => {
                proof {
                    if has_node(self@, reference) {
                        let i = node_position(self@, reference);
                        assert(self.by_reference@.contains_key(
                            self.rows@[i].file_reference_number,
                        ));
                    }
                }
                None
            },
        }
    }

    /// Puts a node in place of the one with its number, or adds it.
    pub fn upsert(&mut self, node: NtfsNode)
        requires
            old(self).wf(),
        ensures
            final(self).wf(),
            final(self)@ == with_node(old(self)@, node@),
    {
        let ghost before = self@;
        let ghost view = node@;
        let ghost old_rows = self.rows@;
        let ghost old_map = self.by_reference@;
        let reference: u64 = node.file_reference_number;
        proof {
            self.lemma_distinct();
        }
        let found: Option<usize> = match self.by_reference.get(&reference) {
            Some(position) => Some(*position),
            None => None,
        };
        match found {
            Some(position) => {
                proof {
                    assert(node_at(before, reference, position as int));
                    lemma_node_position(before, reference, position as int);
                }
                self.rows[position] = node;
                assert(self.rows@ == old_rows.update(position as int, node));
                assert(self@ =~= before.update(position as int, view));
            },
            None => {
                proof {
                    if has_node(before, reference) {
                        let i = node_position(before, reference);
                        assert(old_map.contains_key(old_rows[i].file_reference_number));
                    }
                }
                let position: usize = self.rows.len();
                self.by_reference.insert(reference, position);
                self.rows.push(node);
                assert(self.rows@ == old_rows.push(node));
                assert forall|i: int| 0 <= i < old_rows.len() implies (
                #[trigger] old_rows[i]).file_reference_number != reference by {
                    assert(old_map.contains_key(old_rows[i].file_reference_number));
                }
                assert forall|i: int| 0 <= i < self.rows@.len() implies self.by_reference@.contains_key(
                    (#[trigger] self.rows@[i]).file_reference_number,
                ) && self.by_reference@[self.rows@[i].file_reference_number] == i by {
                    if i < old_rows.len() {
                        assert(self.rows@[i] == old_rows[i]);
                    }
                }
                assert(self@ =~= before.push(view));
            },
        }
    }

    /// Keeps the nodes that are marked.
    pub(crate) fn retain(&mut self, marked: &Vec<bool>, Ghost(keep): Ghost<
        spec_fn(NodeView) -> bool,
    >)
        requires
            old(self).wf(),
            marked@.len() == old(self)@.len(),
            forall|i: int| 0 <= i < marked@.len() ==> #[trigger] marked@[i] == keep(old(self)@[i]),
        ensures
            final(self).wf(),
            final(self)@ == kept_nodes(old(self)@, keep),
    {
        let ghost all = self@;
        proof {
            self.lemma_distinct();
        }
        let mut old_rows: Vec<NtfsNode> = Vec::new();
        std::mem::swap(&mut old_rows, &mut self.rows);
        let count: usize = old_rows.len();
        let mut waiting: Vec<NtfsNode> = Vec::new();
        while old_rows.len() > 0
            invariant
                old_rows@.len() + waiting@.len() == count,
                all.len() == count,
                forall|i: int| 0 <= i < old_rows@.len() ==> (#[trigger] old_rows@[i])@ == all[i],
                forall|i: int|
                    0 <= i < waiting@.len() ==> (#[trigger] waiting@[i])@ == all[count - 1 - i],
            decreases old_rows.len(),
        {
            if let Some(node) = old_rows.pop() {
                waiting.push(node);
            }
        }
        let mut table = NodeTable::new();
        let mut done: usize = 0;
        while done < count
            invariant
                done <= count,
                waiting@.len() == count - done,
                all.len() == count,
                marked@.len() == count,
                distinct_nodes(all),
                forall|i: int| 0 <= i < marked@.len() ==> #[trigger] marked@[i] == keep(all[i]),
                forall|i: int|
                    0 <= i < waiting@.len() ==> (#[trigger] waiting@[i])@ == all[count - 1 - i],
                table.wf(),
                table@ == kept_nodes(all.take(done as int), keep),
            decreases count - done,
        {
            assert(all.take(done + 1).drop_last() =~= all.take(done as int));
            if let Some(node) = waiting.pop() {
                assert(node@ == all[done as int]);
                if marked[done] {
                    proof {
                        let front = all.take(done as int);
                        lemma_kept_nodes(front, keep);
                        if has_node(table@, node.file_reference_number) {
                            let i = node_position(table@, node.file_reference_number);
                            assert(front.contains(table@[i]));
                            let k = choose|k: int| 0 <= k < front.len() && front[k] == table@[i];
                            assert(all[k].file_reference_number
                                != all[done as int].file_reference_number);
                        }
                    }
                    table.upsert(node);
                }
            }
            done += 1;
        }
        assert(all.take(done as int) =~= all);
        *self = table;
    }

    /// Moves the subtree of `old_top` to `new_top`.
    pub(crate) fn move_subtree(&mut self, old_top: &str, new_top: &str)
        requires
            old(self).wf(),
        ensures
            final(self).wf(),
            final(self)@ == moved_nodes(old(self)@, old_top@, new_top@),
    {
        let ghost before = self@;
        let ghost old_map = self.by_reference@;
        let count: usize = self.rows.len();
        let mut i: usize = 0;
        while i < count
            invariant
                i <= count,
                count == self.rows@.len(),
                before.len() == count,
                self.by_reference@ == old_map,
                self.wf(),
                forall|k: int|
                    0 <= k < i ==> (#[trigger] self.rows@[k])@ == moved_node(
                        before[k],
                        old_top@,
                        new_top@,
                    ),
                forall|k: int| i <= k < count ==> (#[trigger] self.rows@[k])@ == before[k],
            decreases count - i,
        {
            if crate::paths::is_in_subtree(self.rows[i].relative_path.as_str(), old_top) {
                let path = crate::paths::move_path(
                    self.rows[i].relative_path.as_str(),
                    old_top,
                    new_top,
                );
                let ghost old_rows = self.rows@;
                self.rows[i].relative_path = path;
                assert(self.rows@ =~= old_rows.update(i as int, self.rows@[i as int]));
            }
            i += 1;
        }
        assert(self@ =~= moved_nodes(before, old_top@, new_top@));
    }

    /// Whether a node other than the given one has the given path.
    pub fn is_path_taken(&self, path: &str, reference: u64) -> (taken: bool)
        ensures
            taken == path_taken(self@, path@, reference),
    {
        let mut i: usize = 0;
        while i < self.rows.len()
            invariant
                i <= self.rows.len(),
                forall|k: int|
                    0 <= k < i ==> !((#[trigger] self@[k]).relative_path == path@
                        && self@[k].file_reference_number != reference),
            decreases self.rows.len() - i,
        {
            assert(self@[i as int] == self.rows@[i as int]@);
            if self.rows[i].file_reference_number != reference && crate::text::same_text(
                self.rows[i].relative_path.as_str(),
                path,
            ) {
                return true;
            }
            i += 1;
        }
        false
    }

    /// A table with the same nodes.
    pub fn copy(&self) -> (table: NodeTable)
        requires
            self.wf(),
        ensures
            table.wf(),
            table@ == self@,
    {
        proof {
            self.lemma_distinct();
        }
        let mut table = NodeTable::new();
        let mut i: usize = 0;
        while i < self.rows.len()
            invariant
                i <= self.rows.len(),
                distinct_nodes(self@),
                table.wf(),
                table@ == self@.take(i as int),
            decreases self.rows.len() - i,
        {
            assert(self@[i as int] == self.rows@[i as int]@);
            proof {
                let reference = self@[i as int].file_reference_number;
                if has_node(table@, reference) {
                    let k = node_position(table@, reference);
                    assert(self@[k].file_reference_number != self@[i as int].file_reference_number);
                }
            }
            table.upsert(self.rows[i].copy());
            assert(table@ =~= self@.take(i + 1));
            i += 1;
        }
        assert(self@.take(i as int) =~= self@);
        table
    }
}

// ---------------------------------------------------------------------------
// From records to nodes to entries
// ---------------------------------------------------------------------------

/// The node that a record describes at a path.
pub open spec fn node_from_record(
    record: crate::ntfs::RecordView,
    relative_path: Seq<char>,
) -> NodeView {
    NodeView {
        file_reference_number: record.file_reference_number,
        parent_file_reference_number: record.parent_file_reference_number,
        relative_path,
        name: record.name,
        is_directory: record.is_directory(),
        modified_unix_ms: Some(crate::clock::unix_ms_of_filetime(record.timestamp_filetime)),
    }
}

/// The node that a record describes at a path.
pub fn ntfs_node_from_record(record: &crate::ntfs::UsnRecord, relative_path: String) -> (node:
    NtfsNode)
    ensures
        node@ == node_from_record(record@, relative_path@),
{
    NtfsNode {
        file_reference_number: record.file_reference_number,
        parent_file_reference_number: record.parent_file_reference_number,
        relative_path,
        name: record.name.clone(),
        is_directory: crate::ntfs::is_directory(record),
        modified_unix_ms: crate::clock::filetime_to_unix_ms(record.timestamp_filetime),
    }
}

/// The entry of a node whose name has the given normal form. Sizes are not known for the files of
/// a volume, and the path is searched as it stands.
pub open spec fn entry_from_node(
    node: NodeView,
    normalized_name: Seq<char>,
    generation: i64,
) -> EntryView {
    EntryView {
        relative_path: node.relative_path,
        name: node.name,
        normalized_name,
        normalized_path: normalized_name,
        is_directory: node.is_directory,
        size_bytes: 0,
        modified_unix_ms: node.modified_unix_ms,
        generation,
        file_reference_number: Some(node.file_reference_number),
    }
}

/// The entry of a node.
pub open spec fn node_entry(node: NodeView, generation: i64) -> EntryView {
    entry_from_node(node, crate::normalize::normalized(node.name), generation)
}

/// The entry of a node whose name has the given normal form.
pub fn entry_of_node(node: &NtfsNode, normalized_name: &str, generation: i64) -> (entry: Entry)
    ensures
        entry@ == entry_from_node(node@, normalized_name@, generation),
{
    Entry {
        relative_path: node.relative_path.clone(),
        name: node.name.clone(),
        normalized_name: normalized_name.to_owned(),
        normalized_path: normalized_name.to_owned(),
        is_directory: node.is_directory,
        size_bytes: 0,
        modified_unix_ms: node.modified_unix_ms,
        generation,
        file_reference_number: Some(node.file_reference_number),
    }
}

impl EntryTable {
    /// Puts the entry of a node in place of the one with its path, or adds it.
    pub fn upsert_ntfs_entry(&mut self, node: &NtfsNode, generation: i64)
        requires
            old(self).wf(),
        ensures
            final(self).wf(),
            final(self)@ == old(self)@.insert(node@.relative_path, node_entry(node@, generation)),
    {
        let normalized_name = normalize_for_search(node.name.as_str());
        self.upsert(entry_of_node(node, normalized_name.as_str(), generation));
    }
}

} // verus!

//! What holds of the nodes and entries of a volume under the changes that its journal reports.
use crate::delta::TreeView;
use crate::ntfs::RecordView;
use crate::tables::{EntryView, NodeView};
use vstd::prelude::*;

verus! {

/// No two nodes lie at the same path.
pub open spec fn distinct_paths(nodes: Seq<NodeView>) -> bool {
    forall|i: int, j: int|
        0 <= i < j < nodes.len() ==> (#[trigger] nodes[i]).relative_path != (
        #[trigger] nodes[j]).relative_path
}

/// Whether a node lies at the given path.
pub open spec fn lies_at(nodes: Seq<NodeView>, path: Seq<char>, position: int) -> bool {
    0 <= position < nodes.len() && nodes[position].relative_path == path
}

/// Whether a node of the subtree of `top` lies at the given path.
spec fn subtree_lies_at(
    nodes: Seq<NodeView>,
    top: Seq<char>,
    path: Seq<char>,
    position: int,
) -> bool {
    lies_at(nodes, path, position) && crate::paths::in_subtree(path, top)
}

/// Whether some node of the subtree of `top` lies at the given path.
spec fn some_in_subtree(nodes: Seq<NodeView>, top: Seq<char>, path: Seq<char>) -> bool {
    exists|i: int| subtree_lies_at(nodes, top, path, i)
}

impl TreeView {
    /// Nodes and entries say the same: each node has its number and its path to itself, the entry
    /// at its path is its own, and there are no other entries.
    pub open spec fn consistent(self) -> bool {
        &&& crate::tables::distinct_nodes(self.nodes)
        &&& distinct_paths(self.nodes)
        &&& forall|i: int|
            0 <= i < self.nodes.len() ==> self.entries.contains_key(
                (#[trigger] self.nodes[i]).relative_path,
            ) && self.entries[self.nodes[i].relative_path] == crate::tables::node_entry(
                self.nodes[i],
                self.entries[self.nodes[i].relative_path].generation,
            )
        &&& forall|path: Seq<char>| #[trigger]
            self.entries.contains_key(path) ==> exists|i: int| lies_at(self.nodes, path, i)
    }
}

// ---------------------------------------------------------------------------
// Lists of nodes
// ---------------------------------------------------------------------------

/// What the entries of a subtree add.
proof fn lemma_subtree_entries(
    entries: Map<Seq<char>, EntryView>,
    nodes: Seq<NodeView>,
    top: Seq<char>,
    generation: i64,
)
    ensures
        ({
            let result = crate::delta::with_subtree_entries(entries, nodes, top, generation);
            &&& forall|path: Seq<char>| #[trigger]
                result.contains_key(path) <==> entries.contains_key(path) || some_in_subtree(
                    nodes,
                    top,
                    path,
                )
            &&& forall|path: Seq<char>|
                some_in_subtree(nodes, top, path) ==> exists|i: int|
                    subtree_lies_at(nodes, top, path, i) && #[trigger] result[path]
                        == crate::tables::node_entry(nodes[i], generation)
            &&& forall|path: Seq<char>|
                !some_in_subtree(nodes, top, path) ==> #[trigger] result[path]
                    == entries[path]
        }),
    decreases nodes.len(),
{
    if nodes.len() > 0 {
        let front = nodes.drop_last();
        let last = nodes.len() - 1;
        lemma_subtree_entries(entries, front, top, generation);
        let before = crate::delta::with_subtree_entries(entries, front, top, generation);
        let result = crate::delta::with_subtree_entries(entries, nodes, top, generation);
        assert forall|path: Seq<char>|
            #[trigger] some_in_subtree(nodes, top, path) <==> some_in_subtree(front, top, path)
                || subtree_lies_at(nodes, top, path, last) by {
            if some_in_subtree(nodes, top, path) {
                let i = choose|i: int| subtree_lies_at(nodes, top, path, i);
                if i < last {
                    assert(subtree_lies_at(front, top, path, i));
                }
            }
            if some_in_subtree(front, top, path) {
                let i = choose|i: int| subtree_lies_at(front, top, path, i);
                assert(subtree_lies_at(nodes, top, path, i));
            }
        }
        assert forall|path: Seq<char>| #[trigger] result.contains_key(path) <==> entries.contains_key(
            path,
        ) || some_in_subtree(nodes, top, path) by {
            assert(before.contains_key(path) <==> entries.contains_key(path) || some_in_subtree(
                front,
                top,
                path,
            ));
        }
        assert forall|path: Seq<char>|
            !some_in_subtree(nodes, top, path) implies #[trigger] result[path]
            == entries[path] by {
            assert(!subtree_lies_at(nodes, top, path, last));
            assert(!some_in_subtree(front, top, path));
            assert(before[path] == entries[path]);
        }
        assert forall|path: Seq<char>|
            some_in_subtree(nodes, top, path) implies exists|i: int|
            subtree_lies_at(nodes, top, path, i) && #[trigger] result[path]
                == crate::tables::node_entry(nodes[i], generation) by {
            if subtree_lies_at(nodes, top, path, last) {
                assert(result[path] == crate::tables::node_entry(nodes[last], generation));
            } else {
                assert(some_in_subtree(front, top, path));
                let i = choose|i: int|
                    subtree_lies_at(front, top, path, i) && before[path]
                        == crate::tables::node_entry(front[i], generation);
                assert(subtree_lies_at(nodes, top, path, i));
                assert(result[path] == before[path]);
            }
        }
    }
}

/// A path of a subtree goes on with `/` behind the top, or is the top.
proof fn lemma_in_subtree(path: Seq<char>, top: Seq<char>)
    requires
        crate::paths::in_subtree(path, top),
    ensures
        path.len() >= top.len(),
        path.len() > top.len() ==> path[top.len() as int] == '/',
        path.len() == top.len() ==> path == top,
{
    if path != top {
        let prefix = crate::text::fold(top.push('/'));
        let folded = crate::text::fold(path);
        assert(folded.subrange(0, prefix.len() as int)[top.len() as int] == prefix[top.len() as int]);
        assert(prefix[top.len() as int] == '/');
        assert(folded[top.len() as int] == crate::text::ascii_lower(path[top.len() as int]));
    }
}

/// What lies in a subtree lies, after it has moved, in the subtree of the new top.
proof fn lemma_moved_path(path: Seq<char>, old_top: Seq<char>, new_top: Seq<char>)
    requires
        crate::paths::in_subtree(path, old_top),
    ensures
        crate::paths::in_subtree(crate::paths::moved_path(path, old_top, new_top), new_top),
{
    lemma_in_subtree(path, old_top);
    let moved = crate::paths::moved_path(path, old_top, new_top);
    if path.len() == old_top.len() {
        assert(moved =~= new_top);
    } else {
        let prefix = crate::text::fold(new_top.push('/'));
        let folded = crate::text::fold(moved);
        assert(moved[new_top.len() as int] == path[old_top.len() as int]);
        assert(folded.subrange(0, prefix.len() as int) =~= prefix);
    }
}

/// A node in place of another one, or behind the others.
proof fn lemma_with_node(nodes: Seq<NodeView>, node: NodeView)
    requires
        crate::tables::distinct_nodes(nodes),
    ensures
        ({
            let result = crate::tables::with_node(nodes, node);
            let at = if crate::tables::has_node(nodes, node.file_reference_number) {
                crate::tables::node_position(nodes, node.file_reference_number)
            } else {
                nodes.len() as int
            };
            &&& 0 <= at < result.len()
            &&& nodes.len() <= result.len() <= nodes.len() + 1
            &&& at == nodes.len() || crate::tables::node_at(nodes, node.file_reference_number, at)
            &&& at < nodes.len() ==> result.len() == nodes.len()
            &&& result[at] == node
            &&& forall|i: int|
                0 <= i < result.len() && i != at ==> i < nodes.len() && #[trigger] result[i]
                    == nodes[i]
            &&& forall|i: int|
                0 <= i < nodes.len() && i != at ==> (#[trigger] nodes[i]).file_reference_number
                    != node.file_reference_number
            &&& crate::tables::distinct_nodes(result)
        }),
{
    let reference = node.file_reference_number;
    let result = crate::tables::with_node(nodes, node);
    let at = if crate::tables::has_node(nodes, reference) {
        crate::tables::node_position(nodes, reference)
    } else {
        nodes.len() as int
    };
    if crate::tables::has_node(nodes, reference) {
        assert(crate::tables::node_at(nodes, reference, at));
    }
    assert forall|i: int| 0 <= i < nodes.len() && i != at implies (
    #[trigger] nodes[i]).file_reference_number != reference by {
        if nodes[i].file_reference_number == reference {
            assert(crate::tables::node_at(nodes, reference, i));
            crate::tables::lemma_node_position(nodes, reference, i);
        }
    }
    assert forall|i: int, j: int| 0 <= i < j < result.len() implies (
    #[trigger] result[i]).file_reference_number != (#[trigger] result[j]).file_reference_number by {
        if i != at && j != at {
            assert(nodes[i].file_reference_number != nodes[j].file_reference_number);
        } else if i == at {
            assert(nodes[j].file_reference_number != reference);
        } else {
            assert(nodes[i].file_reference_number != reference);
        }
    }
}

/// Kept nodes have distinct paths where all nodes have.
proof fn lemma_kept_paths(nodes: Seq<NodeView>, keep: spec_fn(NodeView) -> bool)
    requires
        distinct_paths(nodes),
    ensures
        distinct_paths(crate::tables::kept_nodes(nodes, keep)),
    decreases nodes.len(),
{
    if nodes.len() > 0 {
        let front = nodes.drop_last();
        let kept = crate::tables::kept_nodes(nodes, keep);
        let kept_front = crate::tables::kept_nodes(front, keep);
        assert forall|i: int, j: int| 0 <= i < j < front.len() implies (
        #[trigger] front[i]).relative_path != (#[trigger] front[j]).relative_path by {
            assert(nodes[i].relative_path != nodes[j].relative_path);
        }
        lemma_kept_paths(front, keep);
        crate::tables::lemma_kept_nodes(front, keep);
        assert forall|i: int, j: int| 0 <= i < j < kept.len() implies (
        #[trigger] kept[i]).relative_path != (#[trigger] kept[j]).relative_path by {
            if j < kept_front.len() {
                assert(kept_front[i].relative_path != kept_front[j].relative_path);
            } else {
                assert(front.contains(kept_front[i]));
                let k = choose|k: int| 0 <= k < front.len() && front[k] == kept_front[i];
                assert(nodes[k].relative_path != nodes[nodes.len() - 1].relative_path);
            }
        }
    }
}

// ---------------------------------------------------------------------------
// Deletion
// ---------------------------------------------------------------------------

/// A deletion takes the whole subtree with it: afterwards no node lies in it, no entry belongs to a
/// node of it, and every other node and entry is as it was.
pub proof fn law_deletion_takes_the_subtree(
    tree: TreeView,
    record: RecordView,
    generation: i64,
    node: NodeView,
)
    requires
        crate::tables::distinct_nodes(tree.nodes),
        record.is_deleted(),
        crate::tables::node_of(tree.nodes, record.file_reference_number) == Some(node),
    ensures
        tree.after(record, generation) is Some,
        ({
            let after = tree.after(record, generation)->0;
            let top = node.relative_path;
            &&& forall|i: int|
                0 <= i < after.nodes.len() ==> !crate::paths::in_subtree(
                    (#[trigger] after.nodes[i]).relative_path,
                    top,
                ) && tree.nodes.contains(after.nodes[i])
            &&& forall|i: int|
                0 <= i < tree.nodes.len() && !crate::paths::in_subtree(
                    (#[trigger] tree.nodes[i]).relative_path,
                    top,
                ) ==> after.nodes.contains(tree.nodes[i])
            &&& forall|path: Seq<char>| #[trigger]
                after.entries.contains_key(path) <==> tree.entries.contains_key(path)
                    && !(tree.entries[path].file_reference_number matches Some(reference)
                    && crate::tables::subtree_has(tree.nodes, top, reference))
            &&& forall|path: Seq<char>| #[trigger]
                after.entries.contains_key(path) ==> after.entries[path] == tree.entries[path]
        }),
{
    let top = node.relative_path;
    let keep = crate::delta::not_in_subtree(top);
    crate::tables::lemma_kept_nodes(tree.nodes, keep);
    let after = tree.after(record, generation)->0;
    assert forall|i: int| 0 <= i < after.nodes.len() implies !crate::paths::in_subtree(
        (#[trigger] after.nodes[i]).relative_path,
        top,
    ) && tree.nodes.contains(after.nodes[i]) by {
        assert(keep(after.nodes[i]));
    }
    assert forall|i: int|
        0 <= i < tree.nodes.len() && !crate::paths::in_subtree(
            (#[trigger] tree.nodes[i]).relative_path,
            top,
        ) implies after.nodes.contains(tree.nodes[i]) by {
        assert(keep(tree.nodes[i]));
    }
}

/// A deletion keeps nodes and entries in agreement, and leaves no entry in the subtree.
pub proof fn law_deletion_keeps_agreement(
    tree: TreeView,
    record: RecordView,
    generation: i64,
    node: NodeView,
)
    requires
        tree.consistent(),
        record.is_deleted(),
        crate::tables::node_of(tree.nodes, record.file_reference_number) == Some(node),
    ensures
        tree.after(record, generation) is Some,
        tree.after(record, generation)->0.consistent(),
        forall|path: Seq<char>| #[trigger]
            tree.after(record, generation)->0.entries.contains_key(path)
                ==> !crate::paths::in_subtree(path, node.relative_path),
{
    law_deletion_takes_the_subtree(tree, record, generation, node);
    let after = tree.after(record, generation)->0;
    let top = node.relative_path;
    crate::tables::lemma_kept_nodes(tree.nodes, crate::delta::not_in_subtree(top));
    lemma_kept_paths(tree.nodes, crate::delta::not_in_subtree(top));
    assert forall|i: int| 0 <= i < after.nodes.len() implies after.entries.contains_key(
        (#[trigger] after.nodes[i]).relative_path,
    ) && after.entries[after.nodes[i].relative_path] == crate::tables::node_entry(
        after.nodes[i],
        after.entries[after.nodes[i].relative_path].generation,
    ) by {
        assert(tree.nodes.contains(after.nodes[i]));
        let k = choose|k: int| 0 <= k < tree.nodes.len() && tree.nodes[k] == after.nodes[i];
        let reference = tree.nodes[k].file_reference_number;
        assert(tree.entries.contains_key(tree.nodes[k].relative_path));
        if crate::tables::subtree_has(tree.nodes, top, reference) {
            let m = choose|m: int|
                crate::tables::node_at(tree.nodes, reference, m) && crate::paths::in_subtree(
                    tree.nodes[m].relative_path,
                    top,
                );
            crate::tables::lemma_node_position(tree.nodes, reference, m);
            assert(crate::tables::node_at(tree.nodes, reference, k));
            crate::tables::lemma_node_position(tree.nodes, reference, k);
        }
    }
    assert forall|path: Seq<char>| #[trigger] after.entries.contains_key(path) implies
        !crate::paths::in_subtree(path, top) && exists|i: int| lies_at(after.nodes, path, i) by {
        assert(tree.entries.contains_key(path));
        let k = choose|k: int| lies_at(tree.nodes, path, k);
        let reference = tree.nodes[k].file_reference_number;
        assert(tree.entries[tree.nodes[k].relative_path].file_reference_number == Some(reference));
        if crate::paths::in_subtree(path, top) {
            assert(crate::tables::node_at(tree.nodes, reference, k));
            assert(crate::tables::subtree_has(tree.nodes, top, reference));
        }
        assert(after.nodes.contains(tree.nodes[k]));
        let i = choose|i: int| 0 <= i < after.nodes.len() && after.nodes[i] == tree.nodes[k];
        assert(lies_at(after.nodes, path, i));
    }
}

// ---------------------------------------------------------------------------
// Renaming and moving
// ---------------------------------------------------------------------------

/// A renamed or moved directory takes all that lies below it along: each of its nodes is afterwards
/// at the corresponding path below the new one, and found there.
pub proof fn law_move_takes_descendants_along(
    tree: TreeView,
    record: RecordView,
    generation: i64,
    before: NodeView,
    path: Seq<char>,
    position: int,
)
    requires
        crate::tables::distinct_nodes(tree.nodes),
        !record.is_deleted(),
        crate::tables::node_of(tree.nodes, record.file_reference_number) == Some(before),
        tree.target_path(record) == Some(path),
        before.relative_path != path,
        tree.after(record, generation) is Some,
        0 <= position < tree.nodes.len(),
        crate::paths::in_subtree(tree.nodes[position].relative_path, before.relative_path),
    ensures
        ({
            let after = tree.after(record, generation)->0;
            let target = if tree.nodes[position].file_reference_number
                == record.file_reference_number {
                path
            } else {
                crate::paths::moved_path(
                    tree.nodes[position].relative_path,
                    before.relative_path,
                    path,
                )
            };
            &&& position < after.nodes.len()
            &&& after.nodes[position].file_reference_number
                == tree.nodes[position].file_reference_number
            &&& after.nodes[position].relative_path == target
            &&& crate::paths::in_subtree(target, path)
            &&& after.entries.contains_key(target)
        }),
{
    let top = before.relative_path;
    let node = crate::tables::node_from_record(record, path);
    let moved = crate::tables::moved_nodes(tree.nodes, top, path);
    let reference = record.file_reference_number;
    lemma_moved_keeps_numbers(tree.nodes, top, path);
    lemma_with_node(moved, node);
    let at = crate::tables::node_position(tree.nodes, reference);
    assert(crate::tables::node_at(tree.nodes, reference, at));
    assert(crate::tables::node_at(moved, reference, at));
    crate::tables::lemma_node_position(moved, reference, at);
    let after = tree.after(record, generation)->0;
    lemma_moved_path(tree.nodes[position].relative_path, top, path);
    if tree.nodes[position].file_reference_number == reference {
        assert(crate::tables::node_at(tree.nodes, reference, position));
        crate::tables::lemma_node_position(tree.nodes, reference, position);
    } else {
        assert(position != at);
        assert(after.nodes[position] == moved[position]);
    }
    lemma_subtree_entries(
        crate::tables::kept_entries(
            tree.entries,
            crate::delta::outside_subtree(tree.nodes, top),
        ),
        after.nodes,
        path,
        generation,
    );
    assert(subtree_lies_at(after.nodes, path, after.nodes[position].relative_path, position));
}

/// Moving a file or directory changes nothing about what lies below it but the path: the number,
/// the parent, the name, the kind and the time of change stay as they were, the path has the new
/// top in place of the old one, and the entry at that path says the same. What lies outside stays
/// as it was altogether.
pub proof fn law_move_changes_paths_alone(
    tree: TreeView,
    record: RecordView,
    generation: i64,
    before: NodeView,
    path: Seq<char>,
    position: int,
)
    requires
        crate::tables::distinct_nodes(tree.nodes),
        !record.is_deleted(),
        crate::tables::node_of(tree.nodes, record.file_reference_number) == Some(before),
        tree.target_path(record) == Some(path),
        before.relative_path != path,
        tree.after(record, generation) is Some,
        0 <= position < tree.nodes.len(),
        tree.nodes[position].file_reference_number != record.file_reference_number,
    ensures
        ({
            let after = tree.after(record, generation)->0;
            let old = tree.nodes[position];
            let new = after.nodes[position];
            let moves = crate::paths::in_subtree(old.relative_path, before.relative_path);
            let entry = after.entries[new.relative_path];
            &&& after.nodes.len() == tree.nodes.len()
            &&& new.file_reference_number == old.file_reference_number
            &&& new.parent_file_reference_number == old.parent_file_reference_number
            &&& new.name == old.name
            &&& new.is_directory == old.is_directory
            &&& new.modified_unix_ms == old.modified_unix_ms
            &&& moves ==> new.relative_path == path + old.relative_path.skip(
                before.relative_path.len() as int,
            )
            &&& !moves ==> new.relative_path == old.relative_path
            &&& moves ==> after.entries.contains_key(new.relative_path)
            &&& moves && distinct_paths(after.nodes) ==> {
                &&& entry.relative_path == new.relative_path
                &&& entry.name == old.name
                &&& entry.is_directory == old.is_directory
                &&& entry.modified_unix_ms == old.modified_unix_ms
                &&& entry.file_reference_number == Some(old.file_reference_number)
                &&& entry.normalized_name == crate::normalize::normalized(old.name)
                &&& entry.normalized_path == crate::normalize::normalized(old.name)
                &&& entry.size_bytes == 0
                &&& entry.generation == generation
            }
        }),
{
    let top = before.relative_path;
    let node = crate::tables::node_from_record(record, path);
    let moved = crate::tables::moved_nodes(tree.nodes, top, path);
    let reference = record.file_reference_number;
    lemma_moved_keeps_numbers(tree.nodes, top, path);
    lemma_with_node(moved, node);
    let at = crate::tables::node_position(tree.nodes, reference);
    assert(crate::tables::node_at(tree.nodes, reference, at));
    assert(crate::tables::node_at(moved, reference, at));
    crate::tables::lemma_node_position(moved, reference, at);
    let after = tree.after(record, generation)->0;
    assert(position != at);
    assert(after.nodes[position] == moved[position]);
    if crate::paths::in_subtree(tree.nodes[position].relative_path, top) {
        lemma_moved_path(tree.nodes[position].relative_path, top, path);
        lemma_subtree_entries(
            crate::tables::kept_entries(
                tree.entries,
                crate::delta::outside_subtree(tree.nodes, top),
            ),
            after.nodes,
            path,
            generation,
        );
        let target = after.nodes[position].relative_path;
        assert(subtree_lies_at(after.nodes, path, target, position));
        assert(some_in_subtree(after.nodes, path, target));
        if distinct_paths(after.nodes) {
            let i = choose|i: int|
                subtree_lies_at(after.nodes, path, target, i) && after.entries[target]
                    == crate::tables::node_entry(after.nodes[i], generation);
            assert(after.nodes[i].relative_path == after.nodes[position].relative_path);
            assert(i == position);
        }
    }
}

/// A change of one file or directory says of it what the record says: its number, its parent, its
/// name, whether it is a directory and when it was changed. Its path is its name below the path of
/// its parent.
pub proof fn law_change_says_what_the_record_says(
    tree: TreeView,
    record: RecordView,
    generation: i64,
)
    requires
        crate::tables::distinct_nodes(tree.nodes),
        !record.is_deleted(),
        tree.after(record, generation) is Some,
    ensures
        ({
            let after = tree.after(record, generation)->0;
            let parent = crate::tables::node_of(tree.nodes, record.parent_file_reference_number);
            let node = crate::tables::node_of(after.nodes, record.file_reference_number)->0;
            let path = node.relative_path;
            let entry = after.entries[path];
            &&& crate::tables::node_of(after.nodes, record.file_reference_number) is Some
            &&& node.file_reference_number == record.file_reference_number
            &&& node.parent_file_reference_number == record.parent_file_reference_number
            &&& node.name == record.name
            &&& node.is_directory <==> record.file_attributes / 16 % 2 == 1
            &&& node.modified_unix_ms == Some(
                crate::clock::unix_ms_of_filetime(record.timestamp_filetime),
            )
            &&& record.parent_file_reference_number == 5 ==> path == record.name
            &&& record.parent_file_reference_number != 5 ==> parent is Some
                && parent->0.is_directory && path == parent->0.relative_path + seq!['/']
                + record.name
            &&& after.entries.contains_key(path)
            &&& distinct_paths(after.nodes) ==> {
                &&& entry.relative_path == path
                &&& entry.name == record.name
                &&& entry.is_directory <==> record.file_attributes / 16 % 2 == 1
                &&& entry.modified_unix_ms == node.modified_unix_ms
                &&& entry.file_reference_number == Some(record.file_reference_number)
                &&& entry.normalized_name == crate::normalize::normalized(record.name)
                &&& entry.normalized_path == crate::normalize::normalized(record.name)
                &&& entry.size_bytes == 0
                &&& entry.generation == generation
            }
        }),
{
    let after = tree.after(record, generation)->0;
    let path = tree.target_path(record)->0;
    let node = crate::tables::node_from_record(record, path);
    let reference = record.file_reference_number;
    crate::ntfs::law_other_bits_do_not_matter(record, 0, 0);
    reveal_strlit("/");
    assert("/"@ =~= seq!['/']);
    match crate::tables::node_of(tree.nodes, reference) {
        Some(before) if before.relative_path != path => {
            let top = before.relative_path;
            let moved = crate::tables::moved_nodes(tree.nodes, top, path);
            lemma_moved_keeps_numbers(tree.nodes, top, path);
            lemma_with_node(moved, node);
            let old_at = crate::tables::node_position(tree.nodes, reference);
            assert(crate::tables::node_at(tree.nodes, reference, old_at));
            assert(crate::tables::node_at(moved, reference, old_at));
            let at = crate::tables::node_position(moved, reference);
            assert(crate::tables::node_at(after.nodes, reference, at));
            crate::tables::lemma_node_position(after.nodes, reference, at);
            lemma_subtree_entries(
                crate::tables::kept_entries(
                    tree.entries,
                    crate::delta::outside_subtree(tree.nodes, top),
                ),
                after.nodes,
                path,
                generation,
            );
            assert(subtree_lies_at(after.nodes, path, path, at));
            assert(some_in_subtree(after.nodes, path, path));
            if distinct_paths(after.nodes) {
                let i = choose|i: int|
                    subtree_lies_at(after.nodes, path, path, i) && after.entries[path]
                        == crate::tables::node_entry(after.nodes[i], generation);
                assert(after.nodes[i].relative_path == after.nodes[at].relative_path);
                assert(i == at);
            }
        },
        _ => {
            lemma_with_node(tree.nodes, node);
            let at = if crate::tables::has_node(tree.nodes, reference) {
                crate::tables::node_position(tree.nodes, reference)
            } else {
                tree.nodes.len() as int
            };
            assert(crate::tables::node_at(after.nodes, reference, at));
            crate::tables::lemma_node_position(after.nodes, reference, at);
        },
    }
}

/// A change is applied where the name is good, the parent is the root or a known directory with a
/// good path, and nothing else lies at the path. A deletion is applied always.
pub proof fn law_which_changes_are_applied(
    tree: TreeView,
    record: RecordView,
    generation: i64,
    path: Seq<char>,
)
    requires
        crate::tables::distinct_nodes(tree.nodes),
        record.parent_file_reference_number == 5 ==> path == record.name,
        record.parent_file_reference_number != 5 ==> {
            let parent = crate::tables::node_of(tree.nodes, record.parent_file_reference_number);
            &&& parent is Some
            &&& parent->0.is_directory
            &&& crate::paths::valid_relative_path(parent->0.relative_path)
            &&& path == parent->0.relative_path + seq!['/'] + record.name
        },
    ensures
        ({
            let taken = exists|i: int|
                0 <= i < tree.nodes.len() && (#[trigger] tree.nodes[i]).relative_path == path
                    && tree.nodes[i].file_reference_number != record.file_reference_number;
            &&& record.is_deleted() ==> tree.after(record, generation) is Some
            &&& !record.is_deleted() ==> (tree.after(record, generation) is Some
                <==> crate::paths::valid_component(record.name) && !taken)
        }),
{
    reveal_strlit("/");
    assert("/"@ =~= seq!['/']);
    if crate::paths::valid_component(record.name) {
        let name = record.name;
        assert(!name.contains('/'));
        if record.parent_file_reference_number == 5 {
            crate::path_laws::law_path_is_good_piece_by_piece(name, name);
        } else {
            let parent = crate::tables::node_of(tree.nodes, record.parent_file_reference_number)->0;
            crate::path_laws::law_path_is_good_piece_by_piece(parent.relative_path, name);
            crate::path_laws::law_path_is_good_piece_by_piece(name, name);
        }
    }
}

/// Without a known directory as its parent a change is refused, unless it is a deletion. A deletion
/// of something unknown changes nothing.
pub proof fn law_change_without_a_parent_is_refused(
    tree: TreeView,
    record: RecordView,
    generation: i64,
)
    requires
        record.parent_file_reference_number != 5,
        match crate::tables::node_of(tree.nodes, record.parent_file_reference_number) {
            Some(parent) => !parent.is_directory,
            None => true,
        },
    ensures
        !record.is_deleted() ==> tree.after(record, generation) is None,
        record.is_deleted() && crate::tables::node_of(tree.nodes, record.file_reference_number)
            is None ==> tree.after(record, generation) == Some(tree),
{
}

/// Changes are applied one after the other; those of the root itself are passed over, and one that
/// is refused refuses all.
pub proof fn law_changes_are_applied_one_by_one(
    tree: TreeView,
    a: Seq<RecordView>,
    b: Seq<RecordView>,
    record: RecordView,
    generation: i64,
)
    ensures
        tree.after_all(a + b, generation) == match tree.after_all(a, generation) {
            Some(after) => after.after_all(b, generation),
            None => None,
        },
        tree.after_all(seq![record], generation) == if record.file_reference_number == 5 {
            Some(tree)
        } else {
            tree.after(record, generation)
        },
        tree.after_all(Seq::empty(), generation) == Some(tree),
    decreases b.len(),
{
    assert(seq![record].drop_last() =~= Seq::<RecordView>::empty());
    assert(tree.after_all(seq![record].drop_last(), generation) == Some(tree));
    if b.len() == 0 {
        assert(a + b =~= a);
    } else {
        law_changes_are_applied_one_by_one(tree, a, b.drop_last(), record, generation);
        assert((a + b).drop_last() =~= a + b.drop_last());
        assert((a + b).last() == b.last());
    }
}

/// A change touches nothing else: the other nodes that do not move stay as they are, and so does
/// every entry that neither belongs to something that moves nor lies in the subtree of the new
/// path.
pub proof fn law_change_touches_nothing_else(
    tree: TreeView,
    record: RecordView,
    generation: i64,
    path: Seq<char>,
)
    requires
        crate::tables::distinct_nodes(tree.nodes),
        !record.is_deleted(),
        tree.after(record, generation) is Some,
    ensures
        ({
            let after = tree.after(record, generation)->0;
            let target = tree.target_path(record)->0;
            let old = crate::tables::node_of(tree.nodes, record.file_reference_number);
            let moves = old is Some && old->0.relative_path != target;
            let taken_along = moves && tree.entries.contains_key(path) && (
            tree.entries[path].file_reference_number matches Some(reference)
                && crate::tables::subtree_has(tree.nodes, old->0.relative_path, reference));
            &&& !moves && path != target ==> {
                &&& after.entries.contains_key(path) <==> tree.entries.contains_key(path)
                &&& after.entries[path] == tree.entries[path]
            }
            &&& moves && !crate::paths::in_subtree(path, target) ==> {
                &&& after.entries.contains_key(path) <==> tree.entries.contains_key(path)
                    && !taken_along
                &&& after.entries.contains_key(path) ==> after.entries[path] == tree.entries[path]
            }
            &&& !moves ==> forall|i: int|
                0 <= i < tree.nodes.len() && (#[trigger] tree.nodes[i]).file_reference_number
                    != record.file_reference_number ==> i < after.nodes.len() && after.nodes[i]
                    == tree.nodes[i]
            &&& !moves ==> after.nodes.len() == tree.nodes.len() + (if old is Some {
                0int
            } else {
                1
            })
        }),
{
    let after = tree.after(record, generation)->0;
    let target = tree.target_path(record)->0;
    let node = crate::tables::node_from_record(record, target);
    let reference = record.file_reference_number;
    let old = crate::tables::node_of(tree.nodes, reference);
    if old is Some && old->0.relative_path != target {
        let top = old->0.relative_path;
        let kept = crate::tables::kept_entries(
            tree.entries,
            crate::delta::outside_subtree(tree.nodes, top),
        );
        lemma_subtree_entries(kept, after.nodes, target, generation);
        if !crate::paths::in_subtree(path, target) {
            assert(!some_in_subtree(after.nodes, target, path)) by {
                if some_in_subtree(after.nodes, target, path) {
                    let i = choose|i: int| subtree_lies_at(after.nodes, target, path, i);
                    assert(crate::paths::in_subtree(path, target));
                }
            }
            assert(after.entries.contains_key(path) <==> kept.contains_key(path));
            assert(after.entries[path] == kept[path]);
        }
    } else {
        lemma_with_node(tree.nodes, node);
        if crate::tables::has_node(tree.nodes, reference) {
            let at = crate::tables::node_position(tree.nodes, reference);
            assert(crate::tables::node_at(tree.nodes, reference, at));
        }
    }
}

/// Moving a subtree changes no number.
proof fn lemma_moved_keeps_numbers(nodes: Seq<NodeView>, old_top: Seq<char>, new_top: Seq<char>)
    requires
        crate::tables::distinct_nodes(nodes),
    ensures
        crate::tables::distinct_nodes(crate::tables::moved_nodes(nodes, old_top, new_top)),
        forall|i: int|
            0 <= i < nodes.len() ==> (#[trigger] crate::tables::moved_nodes(
                nodes,
                old_top,
                new_top,
            )[i]).file_reference_number == nodes[i].file_reference_number,
{
    let moved = crate::tables::moved_nodes(nodes, old_top, new_top);
    assert forall|i: int, j: int| 0 <= i < j < moved.len() implies (
    #[trigger] moved[i]).file_reference_number != (#[trigger] moved[j]).file_reference_number by {
        assert(nodes[i].file_reference_number != nodes[j].file_reference_number);
    }
}

/// A change that adds or moves something keeps nodes and entries in agreement, as long as it does
/// not bring two nodes to the same path.
pub proof fn law_change_keeps_agreement(tree: TreeView, record: RecordView, generation: i64)
    requires
        tree.consistent(),
        !record.is_deleted(),
        tree.after(record, generation) is Some,
        distinct_paths(tree.after(record, generation)->0.nodes),
    ensures
        tree.after(record, generation)->0.consistent(),
{
    let after = tree.after(record, generation)->0;
    let path = tree.target_path(record)->0;
    let node = crate::tables::node_from_record(record, path);
    let reference = record.file_reference_number;
    match crate::tables::node_of(tree.nodes, reference) {
        Some(before) if before.relative_path != path => {
            lemma_move_agrees(tree, record, generation, before, path);
        },
        _ => {
            lemma_with_node(tree.nodes, node);
            let at = if crate::tables::has_node(tree.nodes, reference) {
                crate::tables::node_position(tree.nodes, reference)
            } else {
                tree.nodes.len() as int
            };
            assert forall|i: int| 0 <= i < after.nodes.len() implies after.entries.contains_key(
                (#[trigger] after.nodes[i]).relative_path,
            ) && after.entries[after.nodes[i].relative_path] == crate::tables::node_entry(
                after.nodes[i],
                after.entries[after.nodes[i].relative_path].generation,
            ) by {
                if i != at {
                    assert(after.nodes[i] == tree.nodes[i]);
                    assert(tree.entries.contains_key(tree.nodes[i].relative_path));
                    if tree.nodes[i].relative_path == path {
                        assert(tree.nodes[i].file_reference_number != reference);
                        assert(crate::tables::path_taken(tree.nodes, path, reference));
                    }
                }
            }
            assert forall|other: Seq<char>| #[trigger]
                after.entries.contains_key(other) implies exists|i: int|
                lies_at(after.nodes, other, i) by {
                if other == path {
                    assert(lies_at(after.nodes, other, at));
                } else {
                    assert(tree.entries.contains_key(other));
                    let k = choose|k: int| lies_at(tree.nodes, other, k);
                    if k == at {
                        assert(crate::tables::node_of(tree.nodes, reference) == Some(
                            tree.nodes[k],
                        ));
                    }
                    assert(after.nodes[k] == tree.nodes[k]);
                    assert(lies_at(after.nodes, other, k));
                }
            }
        },
    }
}

proof fn lemma_move_agrees(
    tree: TreeView,
    record: RecordView,
    generation: i64,
    before: NodeView,
    path: Seq<char>,
)
    requires
        tree.consistent(),
        !record.is_deleted(),
        tree.after(record, generation) is Some,
        distinct_paths(tree.after(record, generation)->0.nodes),
        crate::tables::node_of(tree.nodes, record.file_reference_number) == Some(before),
        tree.target_path(record) == Some(path),
        before.relative_path != path,
    ensures
        tree.after(record, generation)->0.consistent(),
{
    let after = tree.after(record, generation)->0;
    let top = before.relative_path;
    let node = crate::tables::node_from_record(record, path);
    let reference = record.file_reference_number;
    let moved = crate::tables::moved_nodes(tree.nodes, top, path);
    let kept = crate::tables::kept_entries(
        tree.entries,
        crate::delta::outside_subtree(tree.nodes, top),
    );
    lemma_moved_keeps_numbers(tree.nodes, top, path);
    lemma_with_node(moved, node);
    let at = crate::tables::node_position(tree.nodes, reference);
    assert(crate::tables::node_at(tree.nodes, reference, at));
    assert(crate::tables::node_at(moved, reference, at));
    crate::tables::lemma_node_position(moved, reference, at);
    lemma_subtree_entries(kept, after.nodes, path, generation);
    assert(after.nodes.len() == tree.nodes.len());
    // Outside the moved subtree a node is what it was.
    assert forall|i: int|
        0 <= i < tree.nodes.len() && !crate::paths::in_subtree(
            (#[trigger] tree.nodes[i]).relative_path,
            top,
        ) implies after.nodes[i] == tree.nodes[i] && kept.contains_key(
        tree.nodes[i].relative_path,
    ) && kept[tree.nodes[i].relative_path] == tree.entries[tree.nodes[i].relative_path] by {
        assert(i != at);
        assert(moved[i] == tree.nodes[i]);
        let own = tree.nodes[i].file_reference_number;
        assert(tree.entries[tree.nodes[i].relative_path].file_reference_number == Some(own));
        if crate::tables::subtree_has(tree.nodes, top, own) {
            let m = choose|m: int|
                crate::tables::node_at(tree.nodes, own, m) && crate::paths::in_subtree(
                    tree.nodes[m].relative_path,
                    top,
                );
            crate::tables::lemma_node_position(tree.nodes, own, m);
            assert(crate::tables::node_at(tree.nodes, own, i));
            crate::tables::lemma_node_position(tree.nodes, own, i);
        }
    }
    // Inside it a node now lies below the new top.
    assert forall|i: int|
        0 <= i < tree.nodes.len() && crate::paths::in_subtree(
            (#[trigger] tree.nodes[i]).relative_path,
            top,
        ) implies crate::paths::in_subtree(after.nodes[i].relative_path, path) by {
        lemma_moved_path(tree.nodes[i].relative_path, top, path);
        if i != at {
            assert(after.nodes[i] == moved[i]);
        }
    }
    assert forall|i: int| 0 <= i < after.nodes.len() implies after.entries.contains_key(
        (#[trigger] after.nodes[i]).relative_path,
    ) && after.entries[after.nodes[i].relative_path] == crate::tables::node_entry(
        after.nodes[i],
        after.entries[after.nodes[i].relative_path].generation,
    ) by {
        let here = after.nodes[i].relative_path;
        if crate::paths::in_subtree(here, path) {
            assert(subtree_lies_at(after.nodes, path, here, i));
            let k = choose|k: int|
                subtree_lies_at(after.nodes, path, here, k) && after.entries[here]
                    == crate::tables::node_entry(after.nodes[k], generation);
            assert(k == i) by {
                if k < i {
                    assert(after.nodes[k].relative_path != after.nodes[i].relative_path);
                } else if i < k {
                    assert(after.nodes[i].relative_path != after.nodes[k].relative_path);
                }
            }
        } else {
            assert(!crate::paths::in_subtree(tree.nodes[i].relative_path, top));
            assert(after.nodes[i] == tree.nodes[i]);
            assert(!(exists|k: int| subtree_lies_at(after.nodes, path, here, k)));
            assert(after.entries[here] == kept[here]);
        }
    }
    assert forall|other: Seq<char>| #[trigger] after.entries.contains_key(other) implies exists|
        i: int,
    |
        lies_at(after.nodes, other, i) by {
        if exists|i: int| subtree_lies_at(after.nodes, path, other, i) {
            let i = choose|i: int| subtree_lies_at(after.nodes, path, other, i);
            assert(lies_at(after.nodes, other, i));
        } else {
            assert(kept.contains_key(other));
            assert(tree.entries.contains_key(other));
            let k = choose|k: int| lies_at(tree.nodes, other, k);
            let own = tree.nodes[k].file_reference_number;
            assert(tree.entries[tree.nodes[k].relative_path].file_reference_number == Some(own));
            if crate::paths::in_subtree(tree.nodes[k].relative_path, top) {
                assert(crate::tables::node_at(tree.nodes, own, k));
                assert(crate::tables::subtree_has(tree.nodes, top, own));
            }
            assert(after.nodes[k] == tree.nodes[k]);
            assert(lies_at(after.nodes, other, k));
        }
    }
}

/// A list of changes keeps nodes and entries in agreement, as long as none of them brings two nodes
/// to the same path.
pub proof fn law_changes_keep_agreement(
    tree: TreeView,
    records: Seq<RecordView>,
    generation: i64,
)
    requires
        tree.consistent(),
        tree.after_all(records, generation) is Some,
        forall|count: int|
            0 <= count <= records.len() ==> distinct_paths(
                (#[trigger] tree.after_all(records.take(count), generation))->0.nodes,
            ),
    ensures
        tree.after_all(records, generation)->0.consistent(),
    decreases records.len(),
{
    if records.len() > 0 {
        let front = records.drop_last();
        let last = records.last();
        assert forall|count: int| 0 <= count <= front.len() implies distinct_paths(
            (#[trigger] tree.after_all(front.take(count), generation))->0.nodes,
        ) by {
            assert(front.take(count) =~= records.take(count));
        }
        law_changes_keep_agreement(tree, front, generation);
        let before = tree.after_all(front, generation)->0;
        assert(records.take(records.len() as int) =~= records);
        assert(distinct_paths(tree.after_all(records, generation)->0.nodes));
        if last.file_reference_number != crate::ntfs::ROOT_FILE_REFERENCE {
            if last.is_deleted() {
                if let Some(node) = crate::tables::node_of(
                    before.nodes,
                    last.file_reference_number,
                ) {
                    law_deletion_keeps_agreement(before, last, generation, node);
                }
            } else {
                law_change_keeps_agreement(before, last, generation);
            }
        }
    }
}

// ---------------------------------------------------------------------------
// Generations
// ---------------------------------------------------------------------------

/// Whether no entry is of a later generation than the given one.
pub open spec fn not_later(entries: Map<Seq<char>, EntryView>, generation: i64) -> bool {
    forall|path: Seq<char>| #[trigger]
        entries.contains_key(path) ==> entries[path].generation <= generation
}

/// A change makes no entry of a later generation than its own.
proof fn lemma_change_generation(tree: TreeView, record: RecordView, generation: i64)
    requires
        not_later(tree.entries, generation),
        tree.after(record, generation) is Some,
    ensures
        not_later(tree.after(record, generation)->0.entries, generation),
{
    let after = tree.after(record, generation)->0;
    if !record.is_deleted() {
        let path = tree.target_path(record)->0;
        let node = crate::tables::node_from_record(record, path);
        match crate::tables::node_of(tree.nodes, record.file_reference_number) {
            Some(before) if before.relative_path != path => {
                let kept = crate::tables::kept_entries(
                    tree.entries,
                    crate::delta::outside_subtree(tree.nodes, before.relative_path),
                );
                lemma_subtree_entries(kept, after.nodes, path, generation);
                assert forall|other: Seq<char>| #[trigger]
                    after.entries.contains_key(other) implies after.entries[other].generation
                    <= generation by {
                    if !some_in_subtree(after.nodes, path, other) {
                        assert(kept.contains_key(other));
                        assert(tree.entries.contains_key(other));
                    }
                }
            },
            _ => {},
        }
    }
}

/// A list of changes makes no entry of a later generation than its own.
pub(crate) proof fn lemma_changes_generation(
    tree: TreeView,
    records: Seq<RecordView>,
    generation: i64,
)
    requires
        not_later(tree.entries, generation),
        tree.after_all(records, generation) is Some,
    ensures
        not_later(tree.after_all(records, generation)->0.entries, generation),
    decreases records.len(),
{
    if records.len() > 0 {
        lemma_changes_generation(tree, records.drop_last(), generation);
        if records.last().file_reference_number != crate::ntfs::ROOT_FILE_REFERENCE {
            lemma_change_generation(
                tree.after_all(records.drop_last(), generation)->0,
                records.last(),
                generation,
            );
        }
    }
}

// ---------------------------------------------------------------------------
// Snapshots
// ---------------------------------------------------------------------------

/// Whether a record among the first ones is found at the given path.
pub open spec fn found_at(
    records: Seq<RecordView>,
    count: nat,
    path: Seq<char>,
    position: int,
) -> bool {
    0 <= position < count && crate::root::usable_path(records, records[position]) == Some(path)
}

/// Whether some record among the first ones is found at the given path.
pub open spec fn is_found(records: Seq<RecordView>, count: nat, path: Seq<char>) -> bool {
    exists|i: int| found_at(records, count, path, i)
}

/// The entries of a snapshot are those of its records that resolve to a path, found at that path;
/// a record that hangs below nothing takes none of the others away.
pub proof fn law_snapshot_finds_what_resolves(
    records: Seq<RecordView>,
    count: nat,
    generation: i64,
)
    requires
        count <= records.len(),
    ensures
        forall|path: Seq<char>| #[trigger]
            crate::root::snapshot_entries(records, count, generation).contains_key(path)
                <==> is_found(records, count, path),
        forall|path: Seq<char>| #[trigger]
            crate::root::snapshot_entries(records, count, generation).contains_key(path)
                ==> exists|i: int|
                found_at(records, count, path, i) && crate::root::snapshot_entries(
                    records,
                    count,
                    generation,
                )[path] == crate::tables::node_entry(
                    crate::tables::node_from_record(records[i], path),
                    generation,
                ),
    decreases count,
{
    if count > 0 {
        let less = (count - 1) as nat;
        law_snapshot_finds_what_resolves(records, less, generation);
        let before = crate::root::snapshot_entries(records, less, generation);
        let after = crate::root::snapshot_entries(records, count, generation);
        let last = count - 1;
        assert forall|path: Seq<char>|
            #[trigger] is_found(records, count, path) <==> is_found(records, less, path)
                || found_at(records, count, path, last) by {
            if is_found(records, count, path) {
                let i = choose|i: int| found_at(records, count, path, i);
                if i < last {
                    assert(found_at(records, less, path, i));
                }
            }
            if is_found(records, less, path) {
                let i = choose|i: int| found_at(records, less, path, i);
                assert(found_at(records, count, path, i));
            }
        }
        assert forall|path: Seq<char>| #[trigger] after.contains_key(path) <==> is_found(
            records,
            count,
            path,
        ) by {
            assert(before.contains_key(path) <==> is_found(records, less, path));
        }
        assert forall|path: Seq<char>| #[trigger] after.contains_key(path) implies exists|i: int|
            found_at(records, count, path, i) && after[path] == crate::tables::node_entry(
                crate::tables::node_from_record(records[i], path),
                generation,
            ) by {
            if found_at(records, count, path, last) {
                assert(after[path] == crate::tables::node_entry(
                    crate::tables::node_from_record(records[last], path),
                    generation,
                ));
            } else {
                assert(before.contains_key(path));
                let i = choose|i: int|
                    found_at(records, less, path, i) && before[path] == crate::tables::node_entry(
                        crate::tables::node_from_record(records[i], path),
                        generation,
                    );
                assert(found_at(records, count, path, i));
            }
        }
    }
}

/// Every node of a snapshot is that of a record which is found at its path; each number occurs
/// once.
proof fn lemma_snapshot_nodes(records: Seq<RecordView>, count: nat)
    requires
        count <= records.len(),
    ensures
        crate::tables::distinct_nodes(crate::root::snapshot_nodes(records, count)),
        forall|i: int|
            0 <= i < crate::root::snapshot_nodes(records, count).len() ==> crate::root::usable_path(
                records,
                RecordView {
                    file_reference_number: (#[trigger] crate::root::snapshot_nodes(
                        records,
                        count,
                    )[i]).file_reference_number,
                    ..records[0]
                },
            ) == Some(crate::root::snapshot_nodes(records, count)[i].relative_path),
    decreases count,
{
    if count > 0 {
        let less = (count - 1) as nat;
        lemma_snapshot_nodes(records, less);
        let before = crate::root::snapshot_nodes(records, less);
        let after = crate::root::snapshot_nodes(records, count);
        let record = records[count - 1];
        if let Some(path) = crate::root::usable_path(records, record) {
            let node = crate::tables::node_from_record(record, path);
            lemma_with_node(before, node);
            assert forall|i: int| 0 <= i < after.len() implies crate::root::usable_path(
                records,
                RecordView {
                    file_reference_number: (#[trigger] after[i]).file_reference_number,
                    ..records[0]
                },
            ) == Some(after[i].relative_path) by {
                if after[i] != node {
                    assert(after[i] == before[i]);
                }
            }
        }
    }
}

/// In a snapshot nodes and entries say the same, as long as no two nodes share a path.
pub proof fn law_snapshot_agrees(records: Seq<RecordView>, count: nat, generation: i64)
    requires
        count <= records.len(),
        distinct_paths(crate::root::snapshot_nodes(records, count)),
    ensures
        (TreeView {
            nodes: crate::root::snapshot_nodes(records, count),
            entries: crate::root::snapshot_entries(records, count, generation),
        }).consistent(),
    decreases count,
{
    let nodes = crate::root::snapshot_nodes(records, count);
    let entries = crate::root::snapshot_entries(records, count, generation);
    lemma_snapshot_nodes(records, count);
    if count > 0 {
        let less = (count - 1) as nat;
        let before = crate::root::snapshot_nodes(records, less);
        let entries_before = crate::root::snapshot_entries(records, less, generation);
        let record = records[count - 1];
        match crate::root::usable_path(records, record) {
            None => {
                law_snapshot_agrees(records, less, generation);
            },
            Some(path) => {
                let node = crate::tables::node_from_record(record, path);
                lemma_snapshot_nodes(records, less);
                lemma_with_node(before, node);
                let at = if crate::tables::has_node(before, node.file_reference_number) {
                    crate::tables::node_position(before, node.file_reference_number)
                } else {
                    before.len() as int
                };
                // A record with a number that came before resolves to the same path.
                if at < before.len() {
                    assert(before[at].relative_path == path) by {
                        assert(crate::root::usable_path(
                            records,
                            RecordView {
                                file_reference_number: before[at].file_reference_number,
                                ..records[0]
                            },
                        ) == Some(before[at].relative_path));
                    }
                }
                assert(distinct_paths(before)) by {
                    assert forall|i: int, j: int| 0 <= i < j < before.len() implies (
                    #[trigger] before[i]).relative_path != (
                    #[trigger] before[j]).relative_path by {
                        assert(nodes[i].relative_path == before[i].relative_path);
                        assert(nodes[j].relative_path == before[j].relative_path);
                    }
                }
                law_snapshot_agrees(records, less, generation);
                assert forall|i: int| 0 <= i < nodes.len() implies entries.contains_key(
                    (#[trigger] nodes[i]).relative_path,
                ) && entries[nodes[i].relative_path] == crate::tables::node_entry(
                    nodes[i],
                    entries[nodes[i].relative_path].generation,
                ) by {
                    if i != at {
                        assert(nodes[i] == before[i]);
                        assert(entries_before.contains_key(before[i].relative_path));
                        if i < at {
                            assert(nodes[i].relative_path != nodes[at].relative_path);
                        } else {
                            assert(nodes[at].relative_path != nodes[i].relative_path);
                        }
                    }
                }
                assert forall|other: Seq<char>| #[trigger]
                    entries.contains_key(other) implies exists|i: int|
                    lies_at(nodes, other, i) by {
                    if other == path {
                        assert(lies_at(nodes, other, at));
                    } else {
                        assert(entries_before.contains_key(other));
                        let k = choose|k: int| lies_at(before, other, k);
                        assert(k != at);
                        assert(nodes[k] == before[k]);
                        assert(lies_at(nodes, other, k));
                    }
                }
            },
        }
    }
}

} // verus!

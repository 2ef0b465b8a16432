//! Bringing parts of a root into line, and what of a root has to be stored again.
use crate::delta::TreeView;
use crate::errors::SearchError;
use crate::index::{missing_root_error, IndexView, SearchIndex};
use crate::paths::{is_in_subtree, is_within, path_to_compare};
use crate::root::{RootTable, RootView, WalkItem, WalkView};
use crate::tables::{Entry, EntryTable, EntryView, NodeTable, NodeView, NtfsNode};
use crate::text::{from_chars, same_text, to_chars};
use vstd::prelude::*;

verus! {

// ---------------------------------------------------------------------------
// Changed paths
// ---------------------------------------------------------------------------

/// The part of a path below a root within which it lies.
pub open spec fn part_below(root: Seq<char>, path: Seq<char>) -> Seq<char> {
    if path.len() <= root.len() {
        Seq::empty()
    } else if root.len() > 0 && root.last() == '/' {
        path.skip(root.len() as int)
    } else {
        path.skip((root.len() + 1) as int)
    }
}

/// Those of the paths that lie within a root, as paths below it. Paths are compared name by name.
pub open spec fn parts_below(root: Seq<char>, paths: Seq<Seq<char>>) -> Seq<Seq<char>>
    decreases paths.len(),
{
    if paths.len() == 0 {
        Seq::empty()
    } else {
        let front = parts_below(root, paths.drop_last());
        let top = crate::paths::compared_path(root);
        let path = crate::paths::compared_path(paths.last());
        if crate::paths::within(path, top) {
            front.push(part_below(top, path))
        } else {
            front
        }
    }
}

/// Those of the paths that lie within a root, as paths below it.
pub fn changed_below(root: &str, paths: &Vec<String>) -> (changed: Vec<String>)
    ensures
        crate::text::views(changed@) == parts_below(root@, crate::text::views(paths@)),
{
    let ghost all = crate::text::views(paths@);
    let top = path_to_compare(root);
    let top_chars = to_chars(top.as_str());
    let mut changed: Vec<String> = Vec::new();
    let mut i: usize = 0;
    assert(crate::text::views(changed@) =~= parts_below(root@, all.take(0)));
    while i < paths.len()
        invariant
            i <= paths.len(),
            all == crate::text::views(paths@),
            top@ == crate::paths::compared_path(root@),
            top_chars@ == top@,
            crate::text::views(changed@) == parts_below(root@, all.take(i as int)),
        decreases paths.len() - i,
    {
        assert(all.take(i + 1).drop_last() =~= all.take(i as int));
        assert(all.take(i + 1).last() == paths@[i as int]@);
        let path = path_to_compare(paths[i].as_str());
        if is_within(path.as_str(), top.as_str()) {
            let chars = to_chars(path.as_str());
            let ghost before = changed@;
            let part: String = if chars.len() <= top_chars.len() {
                String::new()
            } else {
                let ends: bool = top_chars.len() > 0 && top_chars[top_chars.len() - 1] == '/';
                let start: usize = if ends {
                    top_chars.len()
                } else {
                    top_chars.len() + 1
                };
                assert(chars@.skip(start as int) =~= chars@.subrange(
                    start as int,
                    chars@.len() as int,
                ));
                from_chars(vstd::slice::slice_subrange(chars.as_slice(), start, chars.len()))
            };
            assert(part@ =~= part_below(top@, path@));
            changed.push(part);
            assert(crate::text::views(changed@) =~= crate::text::views(before).push(part@));
        }
        i += 1;
    }
    assert(all.take(i as int) =~= all);
    changed
}

/// A change that is reported at the path of an entry is found at the place of the entry below its
/// root.
pub proof fn law_change_is_found_below_its_root(root: Seq<char>, relative_path: Seq<char>)
    requires
        root.len() > 0,
        !(crate::paths::on_drive(root) && root.len() == 2),
        !crate::paths::on_drive(relative_path),
        crate::paths::valid_relative_path(relative_path),
    ensures
        parts_below(root, seq![crate::paths::full_path(root, relative_path)]) == seq![
            relative_path,
        ],
{
    let path = crate::paths::full_path(root, relative_path);
    let top = crate::paths::compared_path(root);
    crate::paths::law_path_below_a_root_is_compared_with_it(root, relative_path);
    assert(seq![path].drop_last() =~= Seq::empty());
    assert(parts_below(root, Seq::empty()) =~= Seq::empty());
    assert(part_below(top, crate::paths::compared_path(path)) =~= relative_path);
    assert(parts_below(root, seq![path]) =~= seq![relative_path]);
}

/// How the letter of the drive is written does not matter: neither that of the root nor that of a
/// change.
pub proof fn law_case_of_the_drive_does_not_matter(
    root: Seq<char>,
    other_root: Seq<char>,
    paths: Seq<Seq<char>>,
    other_paths: Seq<Seq<char>>,
)
    requires
        crate::paths::same_but_for_drive_case(root, other_root),
        paths.len() == other_paths.len(),
        forall|i: int|
            0 <= i < paths.len() ==> crate::paths::same_but_for_drive_case(
                #[trigger] paths[i],
                other_paths[i],
            ),
    ensures
        parts_below(root, paths) == parts_below(other_root, other_paths),
    decreases paths.len(),
{
    crate::paths::lemma_drive_case(root, other_root);
    if paths.len() > 0 {
        let last = paths.len() - 1;
        assert(crate::paths::same_but_for_drive_case(paths[last], other_paths[last]));
        crate::paths::lemma_drive_case(paths[last], other_paths[last]);
        let front = paths.drop_last();
        let other_front = other_paths.drop_last();
        assert forall|i: int| 0 <= i < front.len() implies crate::paths::same_but_for_drive_case(
            #[trigger] front[i],
            other_front[i],
        ) by {
            assert(front[i] == paths[i] && other_front[i] == other_paths[i]);
        }
        law_case_of_the_drive_does_not_matter(root, other_root, front, other_front);
    }
}

// ---------------------------------------------------------------------------
// Refreshing what changed
// ---------------------------------------------------------------------------

/// Whether a path lies at or below one of the changed paths. An empty one stands for the root.
pub open spec fn covered(changed: Seq<Seq<char>>, path: Seq<char>) -> bool {
    exists|i: int|
        0 <= i < changed.len() && ((#[trigger] changed[i]).len() == 0 || crate::paths::in_subtree(
            path,
            changed[i],
        ))
}

/// Whether an entry is of the given generation or not covered by the changed paths.
pub open spec fn not_gone(changed: Seq<Seq<char>>, generation: i64) -> spec_fn(EntryView) -> bool {
    |entry: EntryView| entry.generation == generation || !covered(changed, entry.relative_path)
}

impl RootView {
    /// The root after a walk through its changed paths. What they covered and the walk did not find
    /// is removed, unless something could not be read.
    pub open spec fn after_refresh(
        self,
        changed: Seq<Seq<char>>,
        walk: Seq<WalkView>,
        generation: i64,
        now: i64,
    ) -> RootView {
        let entries = crate::root::with_found(self.tree.entries, walk, generation);
        let read_all = crate::root::skipped_in(walk) == 0;
        RootView {
            last_scan_unix_ms: now,
            complete: self.complete && read_all,
            skipped_entries: if read_all {
                self.skipped_entries
            } else {
                crate::root::stored_count(crate::root::skipped_in(walk))
            },
            tree: TreeView {
                nodes: self.tree.nodes,
                entries: if read_all {
                    crate::tables::kept_entries(entries, not_gone(changed, generation))
                } else {
                    entries
                },
            },
            cursor: self.cursor,
            auto_record: self.auto_record,
        }
    }
}

/// Whether a path lies at or below one of the changed paths.
fn is_covered(changed: &Vec<String>, path: &str) -> (yes: bool)
    ensures
        yes == covered(crate::text::views(changed@), path@),
{
    let ghost all = crate::text::views(changed@);
    let mut i: usize = 0;
    while i < changed.len()
        invariant
            i <= changed.len(),
            all == crate::text::views(changed@),
            forall|k: int|
                0 <= k < i ==> !((#[trigger] all[k]).len() == 0 || crate::paths::in_subtree(
                    path@,
                    all[k],
                )),
        decreases changed.len() - i,
    {
        assert(all[i as int] == changed@[i as int]@);
        if to_chars(changed[i].as_str()).len() == 0 || is_in_subtree(path, changed[i].as_str()) {
            return true;
        }
        i += 1;
    }
    false
}

impl RootTable {
    /// Takes in a walk through the changed paths of the root.
    pub fn take_refresh(
        &mut self,
        changed: &Vec<String>,
        walk: &Vec<WalkItem>,
        generation: i64,
        now: i64,
    )
        requires
            old(self).wf(),
        ensures
            final(self).wf(),
            final(self).root == old(self).root,
            final(self)@ == old(self)@.after_refresh(
                crate::text::views(changed@),
                crate::root::walk_views(walk@),
                generation,
                now,
            ),
    {
        let ghost keep = not_gone(crate::text::views(changed@), generation);
        let counts = self.add_found(walk, generation);
        if counts.skipped == 0 {
            let mut marked: Vec<bool> = Vec::new();
            let mut i: usize = 0;
            while i < self.tree.entries.len()
                invariant
                    i <= self.tree.entries.rows().len(),
                    marked@.len() == i,
                    keep == not_gone(crate::text::views(changed@), generation),
                    forall|k: int|
                        0 <= k < i ==> #[trigger] marked@[k] == keep(self.tree.entries.rows()[k]),
                decreases self.tree.entries.rows().len() - i,
            {
                let entry = self.tree.entries.row(i);
                marked.push(
                    entry.generation == generation || !is_covered(
                        changed,
                        entry.relative_path.as_str(),
                    ),
                );
                i += 1;
            }
            self.tree.entries.retain(&marked, Ghost(keep));
        } else {
            self.complete = false;
            self.skipped_entries = crate::root::store_count(counts.skipped);
        }
        self.last_scan_unix_ms = now;
    }
}

impl IndexView {
    /// The index after one of its roots was refreshed.
    pub open spec fn after_refresh(
        self,
        name: Seq<char>,
        changed: Seq<Seq<char>>,
        walk: Seq<WalkView>,
        now: i64,
    ) -> IndexView {
        if self.roots.contains_key(name) {
            let advanced = self.with_next_generation(now);
            advanced.with_root(
                name,
                self.roots[name].after_refresh(changed, walk, advanced.last_generation, now),
            )
        } else {
            self
        }
    }
}

impl SearchIndex {
    /// Takes in a walk through the changed paths of a root, which are given below the root.
    pub fn refresh_changed_paths(
        &mut self,
        root: &str,
        changed: &Vec<String>,
        walk: &Vec<WalkItem>,
        now: i64,
    ) -> (result: Result<(), SearchError>)
        requires
            old(self).wf(),
        ensures
            final(self).wf(),
            final(self).path() == old(self).path(),
            old(self)@.roots.contains_key(root@) ==> result is Ok && final(self)@ == old(
                self,
            )@.with_next_generation(now).with_root(
                root@,
                old(self)@.roots[root@].after_refresh(
                    crate::text::views(changed@),
                    crate::root::walk_views(walk@),
                    old(self)@.with_next_generation(now).last_generation,
                    now,
                ),
            ),
            !old(self)@.roots.contains_key(root@) ==> final(self)@ == old(self)@ && (
            result matches Err(error) && error@ == crate::index::missing_root()),
            final(self)@ == old(self)@.after_refresh(
                root@,
                crate::text::views(changed@),
                crate::root::walk_views(walk@),
                now,
            ),
    {
        if self.root(root).is_none() {
            return Err(missing_root_error());
        }
        let generation: i64 = self.advance(now);
        let ghost advanced = self@;
        let mut table = self.take_root(root, now);
        table.take_refresh(changed, walk, generation, now);
        self.put_root(table);
        assert(self@.roots =~= advanced.roots.insert(root@, table@));
        Ok(())
    }
}

/// A refresh leaves alone what it does not cover.
pub proof fn law_refresh_keeps_what_is_not_covered(
    root: RootView,
    changed: Seq<Seq<char>>,
    walk: Seq<WalkView>,
    generation: i64,
    now: i64,
    path: Seq<char>,
)
    requires
        root.tree.entries.contains_key(path),
        root.tree.entries[path].relative_path == path,
        !covered(changed, path),
        !crate::laws::walked(walk, path),
    ensures
        root.after_refresh(changed, walk, generation, now).tree.entries.contains_key(path),
        root.after_refresh(changed, walk, generation, now).tree.entries[path]
            == root.tree.entries[path],
{
    crate::laws::lemma_with_found(root.tree.entries, walk, generation);
    let entries = crate::root::with_found(root.tree.entries, walk, generation);
    assert(entries.contains_key(path));
    assert(entries[path] == root.tree.entries[path]);
}

// ---------------------------------------------------------------------------
// What has to be stored again
// ---------------------------------------------------------------------------

/// Whether two entries say the same, generations set aside.
fn is_same_content(left: &Entry, right: &Entry) -> (same: bool)
    ensures
        same == crate::tables::same_entry(left@, right@),
{
    same_text(left.relative_path.as_str(), right.relative_path.as_str()) && same_text(
        left.name.as_str(),
        right.name.as_str(),
    ) && same_text(left.normalized_name.as_str(), right.normalized_name.as_str()) && same_text(
        left.normalized_path.as_str(),
        right.normalized_path.as_str(),
    ) && left.is_directory == right.is_directory && left.size_bytes == right.size_bytes
        && left.modified_unix_ms == right.modified_unix_ms && left.file_reference_number
        == right.file_reference_number
}

/// Whether the entry at a path of `after` has to be stored where `before` is stored.
pub open spec fn to_write(
    before: Map<Seq<char>, EntryView>,
    after: Map<Seq<char>, EntryView>,
    path: Seq<char>,
) -> bool {
    after.contains_key(path) && !(before.contains_key(path) && crate::tables::same_entry(
        before[path],
        after[path],
    ))
}

/// The views of a list of entries.
pub open spec fn entry_views(entries: Seq<Entry>) -> Seq<EntryView> {
    Seq::new(entries.len(), |i: int| entries[i]@)
}

/// What has to be done to stored entries.
#[derive(Debug)]
pub struct EntryChanges {
    pub removed: Vec<String>,
    pub written: Vec<Entry>,
}

/// What has to be done to the stored entries `before` so that they say what `after` says. An entry
/// that says the same as before is not written again.
pub fn entry_changes(before: &EntryTable, after: &EntryTable) -> (changes: EntryChanges)
    requires
        before.wf(),
        after.wf(),
    ensures
        forall|path: Seq<char>| #[trigger]
            crate::text::views(changes.removed@).contains(path) <==> before@.contains_key(path)
                && !after@.contains_key(path),
        forall|i: int|
            0 <= i < changes.written@.len() ==> to_write(
                before@,
                after@,
                (#[trigger] changes.written@[i])@.relative_path,
            ) && changes.written@[i]@ == after@[changes.written@[i]@.relative_path],
        forall|path: Seq<char>| #[trigger]
            to_write(before@, after@, path) ==> entry_views(changes.written@).contains(
                after@[path],
            ),
{
    proof {
        before.lemma_rows();
        after.lemma_rows();
    }
    let ghost old_rows = before.rows();
    let ghost new_rows = after.rows();
    let mut removed: Vec<String> = Vec::new();
    let mut i: usize = 0;
    while i < before.len()
        invariant
            i <= old_rows.len(),
            old_rows == before.rows(),
            before.wf(),
            after.wf(),
            forall|path: Seq<char>| #[trigger]
                crate::text::views(removed@).contains(path) <==> (exists|k: int|
                    0 <= k < i && (#[trigger] old_rows[k]).relative_path == path)
                    && !after@.contains_key(path),
        decreases old_rows.len() - i,
    {
        let entry = before.row(i);
        let ghost here = old_rows[i as int].relative_path;
        let ghost listed = crate::text::views(removed@);
        let gone: bool = after.get(entry.relative_path.as_str()).is_none();
        if gone {
            removed.push(entry.relative_path.clone());
        }
        proof {
            let now_listed = crate::text::views(removed@);
            if gone {
                assert(now_listed =~= listed.push(here));
            }
            assert forall|path: Seq<char>| #[trigger] now_listed.contains(path) <==> (exists|k: int|
                0 <= k < i + 1 && (#[trigger] old_rows[k]).relative_path == path)
                && !after@.contains_key(path) by {
                if now_listed.contains(path) {
                    let n = choose|n: int| 0 <= n < now_listed.len() && now_listed[n] == path;
                    if n < listed.len() {
                        assert(listed[n] == path);
                        assert(listed.contains(path));
                        let k = choose|k: int|
                            0 <= k < i && (#[trigger] old_rows[k]).relative_path == path;
                        assert(old_rows[k].relative_path == path);
                    } else {
                        assert(old_rows[i as int].relative_path == path);
                    }
                }
                if (exists|k: int| 0 <= k < i + 1 && (#[trigger] old_rows[k]).relative_path == path)
                    && !after@.contains_key(path) {
                    let k = choose|k: int|
                        0 <= k < i + 1 && (#[trigger] old_rows[k]).relative_path == path;
                    if k < i {
                        assert(old_rows[k].relative_path == path);
                        assert(listed.contains(path));
                        let n = choose|n: int| 0 <= n < listed.len() && listed[n] == path;
                        assert(now_listed[n] == path);
                    } else {
                        assert(now_listed[listed.len() as int] == path);
                    }
                }
            }
        }
        i += 1;
    }
    let mut written: Vec<Entry> = Vec::new();
    let mut j: usize = 0;
    while j < after.len()
        invariant
            j <= new_rows.len(),
            new_rows == after.rows(),
            before.wf(),
            after.wf(),
            forall|k: int|
                0 <= k < new_rows.len() ==> after@.contains_key(
                    (#[trigger] new_rows[k]).relative_path,
                ) && after@[new_rows[k].relative_path] == new_rows[k],
            forall|n: int|
                0 <= n < written@.len() ==> to_write(
                    before@,
                    after@,
                    (#[trigger] written@[n])@.relative_path,
                ) && written@[n]@ == after@[written@[n]@.relative_path],
            forall|k: int|
                0 <= k < j && to_write(before@, after@, (#[trigger] new_rows[k]).relative_path)
                    ==> entry_views(written@).contains(new_rows[k]),
        decreases new_rows.len() - j,
    {
        let entry = after.row(j);
        let ghost row = new_rows[j as int];
        let ghost listed = entry_views(written@);
        let unchanged: bool = match before.get(entry.relative_path.as_str()) {
            Some(stored) => is_same_content(stored, entry),
            None => false,
        };
        if !unchanged {
            written.push(entry.copy());
        }
        proof {
            let now_listed = entry_views(written@);
            if !unchanged {
                assert(now_listed =~= listed.push(row));
                assert(now_listed[listed.len() as int] == row);
            }
            assert forall|k: int|
                0 <= k < j + 1 && to_write(
                    before@,
                    after@,
                    (#[trigger] new_rows[k]).relative_path,
                ) implies now_listed.contains(new_rows[k]) by {
                if k < j {
                    assert(listed.contains(new_rows[k]));
                    let n = choose|n: int| 0 <= n < listed.len() && listed[n] == new_rows[k];
                    assert(now_listed[n] == new_rows[k]);
                }
            }
        }
        j += 1;
    }
    proof {
        assert forall|path: Seq<char>| #[trigger]
            crate::text::views(removed@).contains(path) <==> before@.contains_key(path)
                && !after@.contains_key(path) by {
            if crate::text::views(removed@).contains(path) {
                let k = choose|k: int|
                    0 <= k < i && (#[trigger] old_rows[k]).relative_path == path;
                assert(before@.contains_key(old_rows[k].relative_path));
            }
            if before@.contains_key(path) {
                let k = choose|k: int|
                    0 <= k < old_rows.len() && #[trigger] old_rows[k] == before@[path];
                assert(old_rows[k].relative_path == path);
            }
        }
        assert forall|path: Seq<char>| #[trigger] to_write(before@, after@, path) implies entry_views(
            written@,
        ).contains(after@[path]) by {
            let k = choose|k: int|
                0 <= k < new_rows.len() && #[trigger] new_rows[k] == after@[path];
            assert(new_rows[k].relative_path == path);
        }
    }
    EntryChanges { removed, written }
}

/// Whether the node with a number has to be stored where `before` is stored.
pub open spec fn node_to_write(
    before: Seq<NodeView>,
    after: Seq<NodeView>,
    reference: u64,
) -> bool {
    crate::tables::has_node(after, reference) && crate::tables::node_of(before, reference)
        != crate::tables::node_of(after, reference)
}

/// The views of a list of nodes.
pub open spec fn node_views(nodes: Seq<NtfsNode>) -> Seq<NodeView> {
    Seq::new(nodes.len(), |i: int| nodes[i]@)
}

fn is_same_node(left: &NtfsNode, right: &NtfsNode) -> (same: bool)
    ensures
        same == (left@ == right@),
{
    left.file_reference_number == right.file_reference_number && left.parent_file_reference_number
        == right.parent_file_reference_number && same_text(
        left.relative_path.as_str(),
        right.relative_path.as_str(),
    ) && same_text(left.name.as_str(), right.name.as_str()) && left.is_directory
        == right.is_directory && left.modified_unix_ms == right.modified_unix_ms
}

/// What has to be done to stored nodes.
#[derive(Debug)]
pub struct NodeChanges {
    pub removed: Vec<u64>,
    pub written: Vec<NtfsNode>,
}

/// What has to be done to the stored nodes `before` so that they say what `after` says.
pub fn node_changes(before: &NodeTable, after: &NodeTable) -> (changes: NodeChanges)
    requires
        before.wf(),
        after.wf(),
    ensures
        forall|reference: u64| #[trigger]
            changes.removed@.contains(reference) <==> crate::tables::has_node(before@, reference)
                && !crate::tables::has_node(after@, reference),
        forall|i: int|
            0 <= i < changes.written@.len() ==> node_to_write(
                before@,
                after@,
                (#[trigger] changes.written@[i])@.file_reference_number,
            ) && crate::tables::node_of(after@, changes.written@[i]@.file_reference_number)
                == Some(changes.written@[i]@),
        forall|reference: u64| #[trigger]
            node_to_write(before@, after@, reference) ==> node_views(changes.written@).contains(
                crate::tables::node_of(after@, reference)->0,
            ),
{
    proof {
        before.lemma_distinct();
        after.lemma_distinct();
    }
    let mut removed: Vec<u64> = Vec::new();
    let mut i: usize = 0;
    while i < before.len()
        invariant
            i <= before@.len(),
            before.wf(),
            after.wf(),
            forall|reference: u64| #[trigger]
                removed@.contains(reference) <==> (exists|k: int|
                    0 <= k < i && (#[trigger] before@[k]).file_reference_number == reference)
                    && !crate::tables::has_node(after@, reference),
        decreases before@.len() - i,
    {
        let reference: u64 = before.row(i).file_reference_number;
        let ghost listed = removed@;
        assert(before@[i as int].file_reference_number == reference);
        let gone: bool = after.get(reference).is_none();
        if gone {
            removed.push(reference);
        }
        proof {
            assert forall|other: u64| #[trigger] removed@.contains(other) <==> (exists|k: int|
                0 <= k < i + 1 && (#[trigger] before@[k]).file_reference_number == other)
                && !crate::tables::has_node(after@, other) by {
                if removed@.contains(other) {
                    let n = choose|n: int| 0 <= n < removed@.len() && removed@[n] == other;
                    if n < listed.len() {
                        assert(listed[n] == other);
                        assert(listed.contains(other));
                    }
                }
                if listed.contains(other) {
                    let n = choose|n: int| 0 <= n < listed.len() && listed[n] == other;
                    assert(removed@[n] == other);
                }
                if gone {
                    assert(removed@[listed.len() as int] == reference);
                }
            }
        }
        i += 1;
    }
    let mut written: Vec<NtfsNode> = Vec::new();
    let mut j: usize = 0;
    while j < after.len()
        invariant
            j <= after@.len(),
            before.wf(),
            after.wf(),
            crate::tables::distinct_nodes(after@),
            forall|n: int|
                0 <= n < written@.len() ==> node_to_write(
                    before@,
                    after@,
                    (#[trigger] written@[n])@.file_reference_number,
                ) && crate::tables::node_of(after@, written@[n]@.file_reference_number) == Some(
                    written@[n]@,
                ),
            forall|k: int|
                0 <= k < j && node_to_write(
                    before@,
                    after@,
                    (#[trigger] after@[k]).file_reference_number,
                ) ==> node_views(written@).contains(after@[k]),
        decreases after@.len() - j,
    {
        let node = after.row(j);
        let ghost row = after@[j as int];
        let ghost listed = node_views(written@);
        proof {
            assert(crate::tables::node_at(after@, row.file_reference_number, j as int));
            crate::tables::lemma_node_position(after@, row.file_reference_number, j as int);
        }
        let unchanged: bool = match before.get(node.file_reference_number) {
            Some(stored) => is_same_node(stored, node),
            None => false,
        };
        if !unchanged {
            written.push(node.copy());
        }
        proof {
            let now_listed = node_views(written@);
            if !unchanged {
                assert(now_listed =~= listed.push(row));
                assert(now_listed[listed.len() as int] == row);
            }
            assert forall|k: int|
                0 <= k < j + 1 && node_to_write(
                    before@,
                    after@,
                    (#[trigger] after@[k]).file_reference_number,
                ) implies now_listed.contains(after@[k]) by {
                if k < j {
                    assert(listed.contains(after@[k]));
                    let n = choose|n: int| 0 <= n < listed.len() && listed[n] == after@[k];
                    assert(now_listed[n] == after@[k]);
                }
            }
        }
        j += 1;
    }
    proof {
        assert forall|reference: u64| #[trigger]
            removed@.contains(reference) <==> crate::tables::has_node(before@, reference)
                && !crate::tables::has_node(after@, reference) by {
            if exists|k: int|
                0 <= k < i && (#[trigger] before@[k]).file_reference_number == reference {
                let k = choose|k: int|
                    0 <= k < i && (#[trigger] before@[k]).file_reference_number == reference;
                assert(crate::tables::node_at(before@, reference, k));
            }
            if crate::tables::has_node(before@, reference) {
                let k = crate::tables::node_position(before@, reference);
                assert(before@[k].file_reference_number == reference);
            }
        }
        assert forall|reference: u64| #[trigger]
            node_to_write(before@, after@, reference) implies node_views(written@).contains(
            crate::tables::node_of(after@, reference)->0,
        ) by {
            let k = crate::tables::node_position(after@, reference);
            assert(after@[k].file_reference_number == reference);
        }
    }
    NodeChanges { removed, written }
}

} // verus!

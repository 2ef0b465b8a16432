//! What the index says about its roots, and the removal of a root.
use crate::errors::SearchError;
use crate::index::{missing_root_error, not_negative, IndexView, SearchIndex};
use crate::paths::path_to_storage;
use crate::root::{AutoRecord, RootView};
use crate::tables::EntryTable;
use vstd::prelude::*;

verus! {

/// Whether a list holds each name of a set once, in the order of names.
pub open spec fn names_in_order(names: Seq<Seq<char>>, all: Set<Seq<char>>) -> bool {
    &&& forall|i: int, j: int|
        0 <= i < j < names.len() ==> crate::text::precedes(#[trigger] names[i], #[trigger] names[j])
    &&& forall|i: int| 0 <= i < names.len() ==> all.contains(#[trigger] names[i])
    &&& forall|name: Seq<char>| #[trigger] all.contains(name) ==> names.contains(name)
}

/// The list of the names of a set in their order has one element for each of them.
proof fn lemma_names_count(names: Seq<Seq<char>>, all: Set<Seq<char>>)
    requires
        names_in_order(names, all),
    ensures
        all.finite(),
        all.len() == names.len(),
{
    assert(names.no_duplicates()) by {
        assert forall|i: int, j: int| 0 <= i < names.len() && 0 <= j < names.len() && i
            != j implies names[i] != names[j] by {
            if i < j {
                crate::text::lemma_precedes_irreflexive(names[i]);
                assert(crate::text::precedes(names[i], names[j]));
            } else {
                crate::text::lemma_precedes_irreflexive(names[j]);
                assert(crate::text::precedes(names[j], names[i]));
            }
        }
    }
    names.unique_seq_to_set();
    assert(names.to_set() =~= all);
}

// ---------------------------------------------------------------------------
// Status
// ---------------------------------------------------------------------------

/// How much the index holds.
#[derive(Debug, Clone, PartialEq, Eq)]
pub struct IndexStatus {
    pub indexed_files: u64,
    pub indexed_directories: u64,
    pub roots: u64,
    pub incomplete_roots: u64,
}

impl IndexView {
    /// The roots and paths of the entries that are directories, or else files.
    pub open spec fn entries_that_are(self, directories: bool) -> Set<(Seq<char>, Seq<char>)> {
        Set::new(
            |at: (Seq<char>, Seq<char>)|
                self.roots.contains_key(at.0) && self.roots[at.0].tree.entries.contains_key(at.1)
                    && self.roots[at.0].tree.entries[at.1].is_directory == directories,
        )
    }

    /// The names of the roots that are not complete.
    pub open spec fn incomplete(self) -> Set<Seq<char>> {
        Set::new(|name: Seq<char>| self.roots.contains_key(name) && !self.roots[name].complete)
    }

    /// Whether a status says how much the index holds.
    pub open spec fn has_status(self, status: IndexStatus) -> bool {
        &&& status.indexed_files == capped(self.entries_that_are(false).len())
        &&& status.indexed_directories == capped(self.entries_that_are(true).len())
        &&& status.roots == self.roots.dom().len()
        &&& status.incomplete_roots == self.incomplete().len()
    }
}

/// A count as it is reported.
pub open spec fn capped(count: nat) -> u64 {
    if count <= u64::MAX {
        count as u64
    } else {
        u64::MAX
    }
}

/// Adds the entries of one root that are directories, or else files, to a count.
fn add_entries(
    entries: &EntryTable,
    directories: bool,
    count: u64,
    Ghost(name): Ghost<Seq<char>>,
    Ghost(counted): Ghost<Set<(Seq<char>, Seq<char>)>>,
) -> (result: (u64, Ghost<Set<(Seq<char>, Seq<char>)>>))
    requires
        entries.wf(),
        counted.finite(),
        count == capped(counted.len()),
        forall|path: Seq<char>| !#[trigger] counted.contains((name, path)),
    ensures
        result.1@.finite(),
        result.0 == capped(result.1@.len()),
        forall|at: (Seq<char>, Seq<char>)| #[trigger]
            result.1@.contains(at) <==> counted.contains(at) || (at.0 == name
                && crate::index::paths_that_are(entries@, directories).contains(at.1)),
{
    proof {
        entries.lemma_rows();
    }
    let ghost rows = entries.rows();
    let ghost mut now_counted = counted;
    let mut count: u64 = count;
    let mut i: usize = 0;
    while i < entries.len()
        invariant
            i <= rows.len(),
            rows == entries.rows(),
            now_counted.finite(),
            count == capped(now_counted.len()),
            forall|path: Seq<char>| !#[trigger] counted.contains((name, path)),
            forall|at: (Seq<char>, Seq<char>)| #[trigger]
                now_counted.contains(at) <==> counted.contains(at) || (at.0 == name && exists|
                    k: int,
                |
                    0 <= k < i && (#[trigger] rows[k]).relative_path == at.1 && rows[k].is_directory
                        == directories),
            forall|k: int, l: int|
                0 <= k < l < rows.len() ==> (#[trigger] rows[k]).relative_path != (
                #[trigger] rows[l]).relative_path,
        decreases rows.len() - i,
    {
        let ghost before = now_counted;
        let ghost row = rows[i as int];
        let ghost here = (name, row.relative_path);
        let is_directory: bool = entries.row(i).is_directory;
        if is_directory == directories {
            proof {
                if now_counted.contains(here) {
                    let k = choose|k: int|
                        0 <= k < i && (#[trigger] rows[k]).relative_path == here.1
                            && rows[k].is_directory == directories;
                    assert(rows[k].relative_path != rows[i as int].relative_path);
                }
                now_counted = now_counted.insert(here);
            }
            if count < u64::MAX {
                count += 1;
            }
        }
        proof {
            assert forall|at: (Seq<char>, Seq<char>)| #[trigger]
                now_counted.contains(at) <==> counted.contains(at) || (at.0 == name && exists|
                    k: int,
                |
                    0 <= k < i + 1 && (#[trigger] rows[k]).relative_path == at.1
                        && rows[k].is_directory == directories) by {
                if before.contains(at) && !counted.contains(at) {
                    let k = choose|k: int|
                        0 <= k < i && (#[trigger] rows[k]).relative_path == at.1
                            && rows[k].is_directory == directories;
                    assert(rows[k].relative_path == at.1);
                }
                if row.is_directory == directories && at == here {
                    assert(rows[i as int].relative_path == at.1);
                }
                if at.0 == name && (exists|k: int|
                    0 <= k < i + 1 && (#[trigger] rows[k]).relative_path == at.1
                        && rows[k].is_directory == directories) {
                    let k = choose|k: int|
                        0 <= k < i + 1 && (#[trigger] rows[k]).relative_path == at.1
                            && rows[k].is_directory == directories;
                    if k < i {
                        assert(before.contains(at));
                    } else {
                        assert(at == here);
                    }
                }
            }
        }
        i += 1;
    }
    proof {
        assert forall|at: (Seq<char>, Seq<char>)| #[trigger]
            now_counted.contains(at) <==> counted.contains(at) || (at.0 == name
                && crate::index::paths_that_are(entries@, directories).contains(at.1)) by {
            if now_counted.contains(at) && !counted.contains(at) {
                let k = choose|k: int|
                    0 <= k < i && (#[trigger] rows[k]).relative_path == at.1
                        && rows[k].is_directory == directories;
                assert(entries@[rows[k].relative_path] == rows[k]);
            }
            if crate::index::paths_that_are(entries@, directories).contains(at.1) {
                let k = choose|k: int| 0 <= k < rows.len() && #[trigger] rows[k] == entries@[at.1];
                assert(rows[k].relative_path == at.1);
            }
        }
    }
    (count, Ghost(now_counted))
}

impl SearchIndex {
    /// How many entries are directories, or else files.
    fn count_entries(&self, names: &Vec<String>, directories: bool) -> (count: u64)
        requires
            self.wf(),
            names_in_order(crate::text::views(names@), self@.roots.dom()),
        ensures
            count == capped(self@.entries_that_are(directories).len()),
    {
        let ghost listed = crate::text::views(names@);
        let ghost mut counted: Set<(Seq<char>, Seq<char>)> = Set::empty();
        let mut count: u64 = 0;
        let mut i: usize = 0;
        while i < names.len()
            invariant
                i <= names.len(),
                listed == crate::text::views(names@),
                self.wf(),
                names_in_order(listed, self@.roots.dom()),
                counted.finite(),
                count == capped(counted.len()),
                forall|at: (Seq<char>, Seq<char>)| #[trigger]
                    counted.contains(at) <==> (exists|k: int|
                        0 <= k < i && #[trigger] listed[k] == at.0) && self@.entries_that_are(
                        directories,
                    ).contains(at),
            decreases names.len() - i,
        {
            assert(listed[i as int] == names@[i as int]@);
            assert(self@.roots.contains_key(listed[i as int]));
            if let Some(table) = self.root(names[i].as_str()) {
                let ghost name = names@[i as int]@;
                proof {
                    assert forall|path: Seq<char>| !#[trigger] counted.contains((name, path)) by {
                        if counted.contains((name, path)) {
                            let k = choose|k: int| 0 <= k < i && #[trigger] listed[k] == name;
                            crate::text::lemma_precedes_irreflexive(name);
                            assert(crate::text::precedes(listed[k], listed[i as int]));
                        }
                    }
                }
                let ghost before = counted;
                let (more, Ghost(now_counted)) = add_entries(
                    &table.tree.entries,
                    directories,
                    count,
                    Ghost(name),
                    Ghost(counted),
                );
                count = more;
                proof {
                    counted = now_counted;
                    assert forall|at: (Seq<char>, Seq<char>)| #[trigger]
                        counted.contains(at) <==> (exists|k: int|
                            0 <= k < i + 1 && #[trigger] listed[k] == at.0)
                            && self@.entries_that_are(directories).contains(at) by {
                        if before.contains(at) {
                            let k = choose|k: int| 0 <= k < i && #[trigger] listed[k] == at.0;
                            assert(listed[k] == at.0);
                        }
                        if at.0 == name {
                            assert(listed[i as int] == at.0);
                        }
                        if exists|k: int| 0 <= k < i + 1 && #[trigger] listed[k] == at.0 {
                            let k = choose|k: int| 0 <= k < i + 1 && #[trigger] listed[k] == at.0;
                            if k < i {
                                assert(listed[k] == at.0);
                            }
                        }
                    }
                }
            }
            i += 1;
        }
        proof {
            assert forall|at: (Seq<char>, Seq<char>)| counted.contains(at)
                == self@.entries_that_are(directories).contains(at) by {
                if self@.entries_that_are(directories).contains(at) {
                    assert(self@.roots.dom().contains(at.0));
                    let k = choose|k: int| 0 <= k < listed.len() && listed[k] == at.0;
                    assert(listed[k] == at.0);
                }
            }
            assert(counted =~= self@.entries_that_are(directories));
        }
        count
    }

    /// How many roots are not complete.
    fn count_incomplete(&self, names: &Vec<String>) -> (count: u64)
        requires
            self.wf(),
            names_in_order(crate::text::views(names@), self@.roots.dom()),
        ensures
            count == self@.incomplete().len(),
    {
        let ghost listed = crate::text::views(names@);
        let ghost mut counted: Set<Seq<char>> = Set::empty();
        let mut count: u64 = 0;
        let mut i: usize = 0;
        while i < names.len()
            invariant
                i <= names.len(),
                listed == crate::text::views(names@),
                self.wf(),
                names_in_order(listed, self@.roots.dom()),
                counted.finite(),
                count == counted.len(),
                count <= i,
                forall|name: Seq<char>| #[trigger]
                    counted.contains(name) <==> (exists|k: int|
                        0 <= k < i && #[trigger] listed[k] == name) && self@.incomplete().contains(
                        name,
                    ),
            decreases names.len() - i,
        {
            assert(listed[i as int] == names@[i as int]@);
            assert(self@.roots.contains_key(listed[i as int]));
            let ghost name = names@[i as int]@;
            let ghost before = counted;
            proof {
                if counted.contains(name) {
                    let k = choose|k: int| 0 <= k < i && #[trigger] listed[k] == name;
                    crate::text::lemma_precedes_irreflexive(name);
                    assert(crate::text::precedes(listed[k], listed[i as int]));
                }
            }
            if let Some(table) = self.root(names[i].as_str()) {
                if !table.complete {
                    count += 1;
                    proof {
                        counted = counted.insert(name);
                    }
                }
            }
            proof {
                assert forall|other: Seq<char>| #[trigger]
                    counted.contains(other) <==> (exists|k: int|
                        0 <= k < i + 1 && #[trigger] listed[k] == other)
                        && self@.incomplete().contains(other) by {
                    if before.contains(other) {
                        let k = choose|k: int| 0 <= k < i && #[trigger] listed[k] == other;
                        assert(listed[k] == other);
                    }
                    if other == name {
                        assert(listed[i as int] == other);
                    }
                    if exists|k: int| 0 <= k < i + 1 && #[trigger] listed[k] == other {
                        let k = choose|k: int| 0 <= k < i + 1 && #[trigger] listed[k] == other;
                        if k < i {
                            assert(listed[k] == other);
                        }
                    }
                }
            }
            i += 1;
        }
        proof {
            assert forall|name: Seq<char>| counted.contains(name) == self@.incomplete().contains(
                name,
            ) by {
                if self@.incomplete().contains(name) {
                    assert(self@.roots.dom().contains(name));
                    let k = choose|k: int| 0 <= k < listed.len() && listed[k] == name;
                    assert(listed[k] == name);
                }
            }
            assert(counted =~= self@.incomplete());
        }
        count
    }

    /// How much the index holds.
    pub fn status(&self) -> (status: IndexStatus)
        requires
            self.wf(),
        ensures
            self@.has_status(status),
    {
        let names = self.root_names();
        proof {
            lemma_names_count(crate::text::views(names@), self@.roots.dom());
        }
        IndexStatus {
            indexed_files: self.count_entries(&names, false),
            indexed_directories: self.count_entries(&names, true),
            roots: names.len() as u64,
            incomplete_roots: self.count_incomplete(&names),
        }
    }
}

// ---------------------------------------------------------------------------
// Roots
// ---------------------------------------------------------------------------

/// What is listed about a root.
#[derive(Debug, Clone, PartialEq, Eq)]
pub struct IndexedRoot {
    pub root: String,
    pub last_scan_unix_ms: i64,
    pub complete: bool,
    pub skipped_entries: u64,
    pub uses_ntfs_usn: bool,
}

/// What an [`IndexedRoot`] says.
pub struct ListedView {
    pub root: Seq<char>,
    pub last_scan_unix_ms: i64,
    pub complete: bool,
    pub skipped_entries: nat,
    pub uses_ntfs_usn: bool,
}

impl View for IndexedRoot {
    type V = ListedView;

    open spec fn view(&self) -> ListedView {
        ListedView {
            root: self.root@,
            last_scan_unix_ms: self.last_scan_unix_ms,
            complete: self.complete,
            skipped_entries: self.skipped_entries as nat,
            uses_ntfs_usn: self.uses_ntfs_usn,
        }
    }
}

/// The views of listed roots.
pub open spec fn listed_views(listed: Seq<IndexedRoot>) -> Seq<ListedView> {
    Seq::new(listed.len(), |i: int| listed[i]@)
}

/// What is listed about a root.
pub open spec fn listed_root(name: Seq<char>, root: RootView) -> ListedView {
    ListedView {
        root: name,
        last_scan_unix_ms: root.last_scan_unix_ms,
        complete: root.complete,
        skipped_entries: crate::index::at_least_zero(root.skipped_entries),
        uses_ntfs_usn: root.cursor is Some,
    }
}

/// When a volume was last brought into line by itself.
#[derive(Debug, Clone, PartialEq, Eq)]
pub struct AutoVolumeState {
    pub root: String,
    pub last_reconcile_unix_ms: i64,
    pub uses_ntfs_usn: bool,
}

/// What an [`AutoVolumeState`] says.
pub struct AutoStateView {
    pub root: Seq<char>,
    pub record: AutoRecord,
}

impl View for AutoVolumeState {
    type V = AutoStateView;

    open spec fn view(&self) -> AutoStateView {
        AutoStateView {
            root: self.root@,
            record: AutoRecord {
                last_reconcile_unix_ms: self.last_reconcile_unix_ms,
                uses_ntfs_usn: self.uses_ntfs_usn,
            },
        }
    }
}

/// The views of the states of volumes.
pub open spec fn auto_views(states: Seq<AutoVolumeState>) -> Seq<AutoStateView> {
    Seq::new(states.len(), |i: int| states[i]@)
}

/// The states of those of the named roots that have one.
pub open spec fn auto_states(
    names: Seq<Seq<char>>,
    roots: Map<Seq<char>, RootView>,
) -> Seq<AutoStateView>
    decreases names.len(),
{
    if names.len() == 0 {
        Seq::empty()
    } else {
        let front = auto_states(names.drop_last(), roots);
        match roots[names.last()].auto_record {
            Some(record) => front.push(AutoStateView { root: names.last(), record }),
            None => front,
        }
    }
}

impl IndexView {
    /// The index after it was recorded when a volume was read as a whole, and whether it is
    /// followed since.
    pub open spec fn with_auto_state(
        self,
        name: Seq<char>,
        uses_ntfs_usn: bool,
        now: i64,
    ) -> IndexView {
        if self.roots.contains_key(name) {
            self.with_root(
                name,
                RootView {
                    auto_record: Some(AutoRecord { last_reconcile_unix_ms: now, uses_ntfs_usn }),
                    ..self.roots[name]
                },
            )
        } else {
            self
        }
    }
}

impl SearchIndex {
    /// All roots, in the order of their names.
    pub fn indexed_roots(&self) -> (listed: Vec<IndexedRoot>)
        requires
            self.wf(),
        ensures
            exists|names: Seq<Seq<char>>| #[trigger]
                names_in_order(names, self@.roots.dom()) && listed_views(listed@) == Seq::new(
                    names.len(),
                    |i: int| listed_root(names[i], self@.roots[names[i]]),
                ),
    {
        let names = self.root_names();
        let ghost order = crate::text::views(names@);
        let mut listed: Vec<IndexedRoot> = Vec::new();
        let mut i: usize = 0;
        while i < names.len()
            invariant
                i <= names.len(),
                order == crate::text::views(names@),
                self.wf(),
                names_in_order(order, self@.roots.dom()),
                listed@.len() == i,
                forall|k: int|
                    0 <= k < i ==> (#[trigger] listed@[k])@ == listed_root(
                        order[k],
                        self@.roots[order[k]],
                    ),
            decreases names.len() - i,
        {
            assert(order[i as int] == names@[i as int]@);
            assert(self@.roots.dom().contains(order[i as int]));
            if let Some(table) = self.root(names[i].as_str()) {
                listed.push(
                    IndexedRoot {
                        root: names[i].clone(),
                        last_scan_unix_ms: table.last_scan_unix_ms,
                        complete: table.complete,
                        skipped_entries: not_negative(table.skipped_entries),
                        uses_ntfs_usn: table.cursor.is_some(),
                    },
                );
            }
            i += 1;
        }
        assert(listed_views(listed@) =~= Seq::new(
            order.len(),
            |i: int| listed_root(order[i], self@.roots[order[i]]),
        ));
        listed
    }

    /// The states of the roots that were brought into line by themselves, in the order of their
    /// names.
    pub fn auto_volume_states(&self) -> (states: Vec<AutoVolumeState>)
        requires
            self.wf(),
        ensures
            exists|names: Seq<Seq<char>>| #[trigger]
                names_in_order(names, self@.roots.dom()) && auto_views(states@) == auto_states(
                    names,
                    self@.roots,
                ),
    {
        let names = self.root_names();
        let ghost order = crate::text::views(names@);
        let mut states: Vec<AutoVolumeState> = Vec::new();
        let mut i: usize = 0;
        assert(auto_views(states@) =~= auto_states(order.take(0), self@.roots));
        while i < names.len()
            invariant
                i <= names.len(),
                order == crate::text::views(names@),
                self.wf(),
                names_in_order(order, self@.roots.dom()),
                auto_views(states@) == auto_states(order.take(i as int), self@.roots),
            decreases names.len() - i,
        {
            assert(order[i as int] == names@[i as int]@);
            assert(self@.roots.dom().contains(order[i as int]));
            assert(order.take(i + 1).drop_last() =~= order.take(i as int));
            let ghost before = states@;
            if let Some(table) = self.root(names[i].as_str()) {
                if let Some(record) = table.auto_record {
                    let state = AutoVolumeState {
                        root: names[i].clone(),
                        last_reconcile_unix_ms: record.last_reconcile_unix_ms,
                        uses_ntfs_usn: record.uses_ntfs_usn,
                    };
                    let ghost view = state@;
                    states.push(state);
                    assert(auto_views(states@) =~= auto_views(before).push(view));
                }
            }
            i += 1;
        }
        assert(order.take(i as int) =~= order);
        states
    }

    /// Stores that a root was brought into line by itself.
    pub fn record_auto_volume_state(&mut self, root: &str, uses_ntfs_usn: bool, now: i64) -> (
        result: Result<(), SearchError>)
        requires
            old(self).wf(),
        ensures
            final(self).wf(),
            final(self).path() == old(self).path(),
            old(self)@.roots.contains_key(root@) ==> result is Ok && final(self)@ == old(
                self,
            )@.with_root(
                root@,
                RootView {
                    auto_record: Some(AutoRecord { last_reconcile_unix_ms: now, uses_ntfs_usn }),
                    ..old(self)@.roots[root@]
                },
            ),
            !old(self)@.roots.contains_key(root@) ==> final(self)@ == old(self)@ && (
            result matches Err(error) && error@ == crate::index::missing_root()),
            final(self)@ == old(self)@.with_auto_state(root@, uses_ntfs_usn, now),
    {
        let ghost before = self@;
        if self.root(root).is_none() {
            return Err(missing_root_error());
        }
        let mut table = self.take_root(root, now);
        table.auto_record = Some(AutoRecord { last_reconcile_unix_ms: now, uses_ntfs_usn });
        self.put_root(table);
        assert(self@.roots =~= before.roots.insert(root@, table@));
        Ok(())
    }

    /// Removes a root with all that is stored about it, and says whether there was one.
    pub fn remove_root(&mut self, root: &str) -> (removed: bool)
        requires
            old(self).wf(),
        ensures
            final(self).wf(),
            final(self).path() == old(self).path(),
            removed == old(self)@.roots.contains_key(crate::paths::storage_path(root@)),
            final(self)@ == (IndexView {
                roots: old(self)@.roots.remove(crate::paths::storage_path(root@)),
                last_generation: old(self)@.last_generation,
            }),
    {
        let name = path_to_storage(root);
        if self.root(name.as_str()).is_none() {
            assert(self@.roots =~= self@.roots.remove(name@));
            return false;
        }
        let _removed = self.take_root(name.as_str(), 0);
        true
    }
}

} // verus!

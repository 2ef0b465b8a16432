//! The index: all roots, and what each operation does to them.
//!
//! Nothing here touches a disk. What was read from a directory tree or a volume comes in as a
//! value, and so does the present; what the index then holds is for the caller to store.
use crate::clock::next_generation;
use crate::errors::{IoError, IoErrorView, SearchError, SearchErrorView};
use crate::ntfs::{RecordView, UsnRecord, ROOT_FILE_REFERENCE};
use crate::paths::{name_of_volume, path_to_storage, root_of_volume};
use crate::root::{RootTable, RootView, WalkItem, WalkView};
use crate::tables::{EntryTable, EntryView};
use crate::text::{lexical_order, to_chars, Order};
use crate::volume::{MftSnapshot, SnapshotView};
use vstd::prelude::*;

verus! {

// ---------------------------------------------------------------------------
// Roots by name
// ---------------------------------------------------------------------------

/// All indexed roots.
pub struct SearchIndex {
    database_path: String,
    /// In the order of their names.
    roots: Vec<RootTable>,
    last_generation: i64,
}

/// What a [`SearchIndex`] holds: its roots by name, and the last generation that was given out.
pub struct IndexView {
    pub roots: Map<Seq<char>, RootView>,
    pub last_generation: i64,
}

/// Whether the root at a position has the given name.
spec fn root_at(roots: Seq<RootTable>, name: Seq<char>, position: int) -> bool {
    0 <= position < roots.len() && roots[position].root@ == name
}

/// The roots by name.
spec fn roots_by_name(roots: Seq<RootTable>) -> Map<Seq<char>, RootView> {
    Map::new(
        |name: Seq<char>| exists|i: int| root_at(roots, name, i),
        |name: Seq<char>| roots[choose|i: int| root_at(roots, name, i)]@,
    )
}

/// The names come one before the other.
spec fn in_order(roots: Seq<RootTable>) -> bool {
    forall|i: int, j: int|
        0 <= i < j < roots.len() ==> crate::text::precedes(
            (#[trigger] roots[i]).root@,
            (#[trigger] roots[j]).root@,
        )
}

/// A name leads to one position.
proof fn lemma_root_at(roots: Seq<RootTable>, position: int)
    requires
        in_order(roots),
        0 <= position < roots.len(),
    ensures
        roots_by_name(roots).contains_key(roots[position].root@),
        roots_by_name(roots)[roots[position].root@] == roots[position]@,
{
    let name = roots[position].root@;
    assert(root_at(roots, name, position));
    let chosen = choose|i: int| root_at(roots, name, i);
    crate::text::lemma_precedes_irreflexive(name);
    assert(chosen == position);
}

/// What a change of one root does to the roots by name.
proof fn lemma_root_replaced(before: Seq<RootTable>, after: Seq<RootTable>, position: int)
    requires
        in_order(before),
        0 <= position < before.len(),
        after.len() == before.len(),
        after[position].root@ == before[position].root@,
        forall|i: int| 0 <= i < before.len() && i != position ==> after[i] == before[i],
    ensures
        in_order(after),
        roots_by_name(after) == roots_by_name(before).insert(
            before[position].root@,
            after[position]@,
        ),
{
    assert forall|i: int, j: int| 0 <= i < j < after.len() implies crate::text::precedes(
        (#[trigger] after[i]).root@,
        (#[trigger] after[j]).root@,
    ) by {
        assert(after[i].root@ == before[i].root@);
        assert(after[j].root@ == before[j].root@);
    }
    let expected = roots_by_name(before).insert(before[position].root@, after[position]@);
    assert forall|name: Seq<char>| roots_by_name(after).contains_key(name)
        == expected.contains_key(name) by {
        if roots_by_name(after).contains_key(name) {
            let i = choose|i: int| root_at(after, name, i);
            assert(root_at(before, name, i));
        }
        if roots_by_name(before).contains_key(name) {
            let i = choose|i: int| root_at(before, name, i);
            assert(root_at(after, name, i));
        }
        assert(root_at(after, before[position].root@, position));
    }
    assert forall|name: Seq<char>| roots_by_name(after).contains_key(name) implies #[trigger]
        roots_by_name(after)[name] == expected[name] by {
        let i = choose|i: int| root_at(after, name, i);
        lemma_root_at(after, i);
        lemma_root_at(before, i);
        if i != position {
            lemma_root_at(before, position);
            if name == before[position].root@ {
                assert(root_at(before, name, i) && root_at(before, name, position));
                crate::text::lemma_precedes_irreflexive(name);
            }
        }
    }
    assert(roots_by_name(after) =~= expected);
}

/// What a new root does to the roots by name.
proof fn lemma_root_inserted(before: Seq<RootTable>, position: int, root: RootTable)
    requires
        in_order(before),
        0 <= position <= before.len(),
        forall|i: int|
            0 <= i < position ==> crate::text::precedes(
                (#[trigger] before[i]).root@,
                root.root@,
            ),
        forall|i: int|
            position <= i < before.len() ==> crate::text::precedes(
                root.root@,
                (#[trigger] before[i]).root@,
            ),
    ensures
        in_order(before.insert(position, root)),
        !roots_by_name(before).contains_key(root.root@),
        roots_by_name(before.insert(position, root)) == roots_by_name(before).insert(
            root.root@,
            root@,
        ),
{
    let after = before.insert(position, root);
    let expected = roots_by_name(before).insert(root.root@, root@);
    assert forall|i: int, j: int| 0 <= i < j < after.len() implies crate::text::precedes(
        (#[trigger] after[i]).root@,
        (#[trigger] after[j]).root@,
    ) by {
        let old_i = if i < position {
            i
        } else {
            i - 1
        };
        let old_j = if j < position {
            j
        } else {
            j - 1
        };
        if i != position {
            assert(after[i] == before[old_i]);
        }
        if j != position {
            assert(after[j] == before[old_j]);
        }
    }
    assert forall|i: int| 0 <= i < before.len() implies (#[trigger] before[i]).root@
        != root.root@ by {
        crate::text::lemma_precedes_irreflexive(root.root@);
    }
    assert forall|name: Seq<char>| roots_by_name(after).contains_key(name)
        == expected.contains_key(name) by {
        if roots_by_name(after).contains_key(name) && name != root.root@ {
            let i = choose|i: int| root_at(after, name, i);
            assert(root_at(
                before,
                name,
                if i < position {
                    i
                } else {
                    i - 1
                },
            ));
        }
        if roots_by_name(before).contains_key(name) {
            let i = choose|i: int| root_at(before, name, i);
            assert(root_at(
                after,
                name,
                if i < position {
                    i
                } else {
                    i + 1
                },
            ));
        }
        assert(root_at(after, root.root@, position));
    }
    assert forall|name: Seq<char>| roots_by_name(after).contains_key(name) implies #[trigger]
        roots_by_name(after)[name] == expected[name] by {
        let i = choose|i: int| root_at(after, name, i);
        lemma_root_at(after, i);
        if i != position {
            lemma_root_at(
                before,
                if i < position {
                    i
                } else {
                    i - 1
                },
            );
        }
    }
    assert(roots_by_name(after) =~= expected);
}

/// What the removal of a root does to the roots by name.
proof fn lemma_root_removed(before: Seq<RootTable>, position: int)
    requires
        in_order(before),
        0 <= position < before.len(),
    ensures
        in_order(before.remove(position)),
        roots_by_name(before.remove(position)) == roots_by_name(before).remove(
            before[position].root@,
        ),
{
    let after = before.remove(position);
    let removed = before[position].root@;
    let expected = roots_by_name(before).remove(removed);
    assert forall|i: int| 0 <= i < after.len() implies #[trigger] after[i] == before[if i
        < position {
        i
    } else {
        i + 1
    }] by {}
    assert forall|i: int, j: int| 0 <= i < j < after.len() implies crate::text::precedes(
        (#[trigger] after[i]).root@,
        (#[trigger] after[j]).root@,
    ) by {
        let old_i = if i < position {
            i
        } else {
            i + 1
        };
        let old_j = if j < position {
            j
        } else {
            j + 1
        };
        assert(after[i] == before[old_i]);
        assert(after[j] == before[old_j]);
    }
    assert forall|i: int| 0 <= i < after.len() implies (#[trigger] after[i]).root@ != removed by {
        crate::text::lemma_precedes_irreflexive(removed);
    }
    assert forall|name: Seq<char>| roots_by_name(after).contains_key(name)
        == expected.contains_key(name) by {
        if roots_by_name(after).contains_key(name) {
            let i = choose|i: int| root_at(after, name, i);
            assert(root_at(
                before,
                name,
                if i < position {
                    i
                } else {
                    i + 1
                },
            ));
        }
        if roots_by_name(before).contains_key(name) && name != removed {
            let i = choose|i: int| root_at(before, name, i);
            assert(i != position);
            assert(root_at(
                after,
                name,
                if i < position {
                    i
                } else {
                    i - 1
                },
            ));
        }
    }
    assert forall|name: Seq<char>| roots_by_name(after).contains_key(name) implies #[trigger]
        roots_by_name(after)[name] == expected[name] by {
        let i = choose|i: int| root_at(after, name, i);
        lemma_root_at(after, i);
        lemma_root_at(
            before,
            if i < position {
                i
            } else {
                i + 1
            },
        );
    }
    assert(roots_by_name(after) =~= expected);
}

impl View for SearchIndex {
    type V = IndexView;

    closed spec fn view(&self) -> IndexView {
        IndexView {
            roots: roots_by_name(self.roots@),
            last_generation: self.last_generation,
        }
    }
}

impl IndexView {
    /// The root with the given name, or a new one.
    pub open spec fn root_or_new(self, name: Seq<char>, now: i64) -> RootView {
        if self.roots.contains_key(name) {
            self.roots[name]
        } else {
            crate::root::empty_root(now)
        }
    }

    /// The index with a root in place of the one with its name, or added.
    pub open spec fn with_root(self, name: Seq<char>, root: RootView) -> IndexView {
        IndexView { roots: self.roots.insert(name, root), last_generation: self.last_generation }
    }

    /// The index after a generation was given out.
    pub open spec fn with_next_generation(self, now: i64) -> IndexView {
        IndexView {
            roots: self.roots,
            last_generation: crate::clock::following_generation(self.last_generation, now),
        }
    }
}

impl SearchIndex {
    /// The roots stand in the order of their names, and each is in order itself.
    pub closed spec fn wf(&self) -> bool {
        &&& in_order(self.roots@)
        &&& forall|i: int| 0 <= i < self.roots@.len() ==> (#[trigger] self.roots@[i]).wf()
    }

    /// Where the index is stored.
    pub closed spec fn path(&self) -> Seq<char> {
        self.database_path@
    }

    /// An index without roots, to be stored at the given path.
    pub fn open(database_path: &str) -> (index: SearchIndex)
        ensures
            index.wf(),
            index.path() == database_path@,
            index@ == (IndexView { roots: Map::empty(), last_generation: 0 }),
    {
        let index = SearchIndex {
            database_path: database_path.to_owned(),
            roots: Vec::new(),
            last_generation: 0,
        };
        assert(index@.roots =~= Map::<Seq<char>, RootView>::empty()) by {
            assert forall|name: Seq<char>| !index@.roots.contains_key(name) by {}
        }
        index
    }

    /// Where the index is stored.
    pub fn database_path(&self) -> (path: &str)
        ensures
            path@ == self.path(),
    {
        self.database_path.as_str()
    }

    /// The position of a root, or the position where it belongs.
    fn find(&self, name: &str) -> (found: (bool, usize))
        requires
            self.wf(),
        ensures
            found.0 == self@.roots.contains_key(name@),
            found.0 ==> root_at(self.roots@, name@, found.1 as int),
            !found.0 ==> found.1 <= self.roots@.len() && (forall|i: int|
                0 <= i < found.1 ==> crate::text::precedes(
                    (#[trigger] self.roots@[i]).root@,
                    name@,
                )) && (forall|i: int|
                found.1 <= i < self.roots@.len() ==> crate::text::precedes(
                    name@,
                    (#[trigger] self.roots@[i]).root@,
                )),
    {
        let chars = to_chars(name);
        let mut i: usize = 0;
        while i < self.roots.len()
            invariant
                i <= self.roots.len(),
                chars@ == name@,
                self.wf(),
                forall|k: int|
                    0 <= k < i ==> crate::text::precedes((#[trigger] self.roots@[k]).root@, name@),
            decreases self.roots.len() - i,
        {
            match lexical_order(to_chars(self.roots[i].root.as_str()).as_slice(), chars.as_slice()) {
                Order::Less => {},
                Order::Equal => {
                    assert(root_at(self.roots@, name@, i as int));
                    return (true, i);
                },
                Order::Greater => {
                    proof {
                        assert forall|k: int| i <= k < self.roots@.len() implies
                            crate::text::precedes(name@, (#[trigger] self.roots@[k]).root@) by {
                            if k > i {
                                crate::text::lemma_precedes_transitive(
                                    name@,
                                    self.roots@[i as int].root@,
                                    self.roots@[k].root@,
                                );
                            }
                        }
                        crate::text::lemma_precedes_irreflexive(name@);
                    }
                    return (false, i);
                },
            }
            i += 1;
        }
        proof {
            crate::text::lemma_precedes_irreflexive(name@);
        }
        (false, i)
    }

    /// The root with the given name.
    pub fn root(&self, name: &str) -> (root: Option<&RootTable>)
        requires
            self.wf(),
        ensures
            match root {
                Some(table) => self@.roots.contains_key(name@) && table@ == self@.roots[name@]
                    && table.root@ == name@ && table.wf(),
                None => !self@.roots.contains_key(name@),
            },
    {
        let (found, position) = self.find(name);
        if found {
            proof {
                lemma_root_at(self.roots@, position as int);
            }
            Some(&self.roots[position])
        } else {
            None
        }
    }

    /// The names of all roots, in their order.
    pub fn root_names(&self) -> (names: Vec<String>)
        requires
            self.wf(),
        ensures
            crate::overview::names_in_order(crate::text::views(names@), self@.roots.dom()),
    {
        let mut names: Vec<String> = Vec::new();
        let mut i: usize = 0;
        while i < self.roots.len()
            invariant
                i <= self.roots.len(),
                names@.len() == i,
                forall|k: int| 0 <= k < i ==> (#[trigger] names@[k])@ == self.roots@[k].root@,
            decreases self.roots.len() - i,
        {
            names.push(self.roots[i].root.clone());
            i += 1;
        }
        proof {
            let listed = crate::text::views(names@);
            assert forall|k: int| 0 <= k < listed.len() implies #[trigger] listed[k]
                == self.roots@[k].root@ by {}
            assert forall|k: int| 0 <= k < listed.len() implies self@.roots.dom().contains(
                #[trigger] listed[k],
            ) by {
                lemma_root_at(self.roots@, k);
            }
            assert forall|name: Seq<char>| #[trigger]
                self@.roots.dom().contains(name) implies listed.contains(name) by {
                let k = choose|k: int| root_at(self.roots@, name, k);
                assert(listed[k] == name);
            }
        }
        names
    }

    /// Puts a root in place of the one with its name, or adds it.
    pub fn put_root(&mut self, root: RootTable)
        requires
            old(self).wf(),
            root.wf(),
        ensures
            final(self).wf(),
            final(self).path() == old(self).path(),
            final(self)@ == old(self)@.with_root(root.root@, root@),
    {
        let ghost before = self.roots@;
        let ghost name = root.root@;
        let (found, position) = self.find(root.root.as_str());
        if found {
            self.roots[position] = root;
            proof {
                lemma_root_replaced(before, self.roots@, position as int);
            }
        } else {
            proof {
                lemma_root_inserted(before, position as int, root);
            }
            self.roots.insert(position, root);
        }
    }

    /// Takes the root with the given name out of the index, or makes a new one.
    pub(crate) fn take_root(&mut self, name: &str, now: i64) -> (root: RootTable)
        requires
            old(self).wf(),
        ensures
            final(self).wf(),
            final(self).path() == old(self).path(),
            final(self)@ == (IndexView {
                roots: old(self)@.roots.remove(name@),
                last_generation: old(self)@.last_generation,
            }),
            root.wf(),
            root.root@ == name@,
            root@ == old(self)@.root_or_new(name@, now),
    {
        let ghost before = self.roots@;
        let (found, position) = self.find(name);
        if found {
            proof {
                lemma_root_at(before, position as int);
                lemma_root_removed(before, position as int);
            }
            self.roots.remove(position)
        } else {
            assert(self@.roots =~= self@.roots.remove(name@));
            RootTable::new(name, now)
        }
    }

    /// Gives out a generation.
    pub(crate) fn advance(&mut self, now: i64) -> (generation: i64)
        requires
            old(self).wf(),
        ensures
            final(self).wf(),
            final(self).path() == old(self).path(),
            final(self)@ == old(self)@.with_next_generation(now),
            generation == final(self)@.last_generation,
    {
        self.last_generation = next_generation(self.last_generation, now);
        self.last_generation
    }
}

// ---------------------------------------------------------------------------
// Reports
// ---------------------------------------------------------------------------

/// The outcome of a scan or a synchronisation.
#[derive(Debug, Clone, PartialEq, Eq)]
pub struct ScanReport {
    pub root: String,
    pub indexed_files: u64,
    pub indexed_directories: u64,
    pub skipped_entries: u64,
    pub complete: bool,
    pub elapsed_ms: u128,
}

/// What a [`ScanReport`] says.
pub struct ReportView {
    pub root: Seq<char>,
    pub indexed_files: nat,
    pub indexed_directories: nat,
    pub skipped_entries: nat,
    pub complete: bool,
    pub elapsed_ms: u128,
}

impl View for ScanReport {
    type V = ReportView;

    open spec fn view(&self) -> ReportView {
        ReportView {
            root: self.root@,
            indexed_files: self.indexed_files as nat,
            indexed_directories: self.indexed_directories as nat,
            skipped_entries: self.skipped_entries as nat,
            complete: self.complete,
            elapsed_ms: self.elapsed_ms,
        }
    }
}

/// The view of a result that holds a report.
pub open spec fn report_result(result: Result<ScanReport, SearchError>) -> Result<
    ReportView,
    SearchErrorView,
> {
    match result {
        Ok(report) => Ok(report@),
        Err(error) => Err(error@),
    }
}

/// A stored count that was never meant to be negative.
pub open spec fn at_least_zero(count: i64) -> nat {
    if count > 0 {
        count as nat
    } else {
        0
    }
}

pub(crate) fn not_negative(count: i64) -> (result: u64)
    ensures
        result == at_least_zero(count),
{
    if count > 0 {
        count as u64
    } else {
        0
    }
}

/// The paths of the entries that are directories, or else files.
pub open spec fn paths_that_are(
    entries: Map<Seq<char>, EntryView>,
    directories: bool,
) -> Set<Seq<char>> {
    Set::new(
        |path: Seq<char>| entries.contains_key(path) && entries[path].is_directory == directories,
    )
}

/// How many entries are directories, or else files.
fn count_entries(entries: &EntryTable, directories: bool) -> (count: u64)
    requires
        entries.wf(),
    ensures
        count == paths_that_are(entries@, directories).len(),
        paths_that_are(entries@, directories).finite(),
{
    proof {
        entries.lemma_rows();
    }
    let ghost rows = entries.rows();
    let ghost mut counted: Set<Seq<char>> = Set::empty();
    let mut count: u64 = 0;
    let mut i: usize = 0;
    while i < entries.len()
        invariant
            i <= rows.len(),
            rows == entries.rows(),
            counted.finite(),
            count == counted.len(),
            count <= i,
            forall|path: Seq<char>| #[trigger]
                counted.contains(path) <==> exists|k: int|
                    0 <= k < i && (#[trigger] rows[k]).relative_path == path
                        && rows[k].is_directory == directories,
            forall|k: int, l: int|
                0 <= k < l < rows.len() ==> (#[trigger] rows[k]).relative_path != (
                #[trigger] rows[l]).relative_path,
        decreases rows.len() - i,
    {
        let ghost before = counted;
        let ghost row = rows[i as int];
        let is_directory: bool = entries.row(i).is_directory;
        if is_directory == directories {
            proof {
                if counted.contains(row.relative_path) {
                    let k = choose|k: int|
                        0 <= k < i && (#[trigger] rows[k]).relative_path == row.relative_path
                            && rows[k].is_directory == directories;
                    assert(rows[k].relative_path != rows[i as int].relative_path);
                }
                counted = counted.insert(row.relative_path);
            }
            count += 1;
        }
        proof {
            assert forall|path: Seq<char>| #[trigger]
                counted.contains(path) <==> exists|k: int|
                    0 <= k < i + 1 && (#[trigger] rows[k]).relative_path == path
                        && rows[k].is_directory == directories by {
                if before.contains(path) {
                    let k = choose|k: int|
                        0 <= k < i && (#[trigger] rows[k]).relative_path == path
                            && rows[k].is_directory == directories;
                    assert(rows[k].relative_path == path);
                }
                if row.relative_path == path && row.is_directory == directories {
                    assert(rows[i as int].relative_path == path);
                }
                if exists|k: int|
                    0 <= k < i + 1 && (#[trigger] rows[k]).relative_path == path
                        && rows[k].is_directory == directories {
                    let k = choose|k: int|
                        0 <= k < i + 1 && (#[trigger] rows[k]).relative_path == path
                            && rows[k].is_directory == directories;
                    if k < i {
                        assert(before.contains(path));
                    }
                }
            }
        }
        i += 1;
    }
    proof {
        assert forall|path: Seq<char>| counted.contains(path) == paths_that_are(
            entries@,
            directories,
        ).contains(path) by {
            if counted.contains(path) {
                let k = choose|k: int|
                    0 <= k < i && (#[trigger] rows[k]).relative_path == path
                        && rows[k].is_directory == directories;
                assert(entries@[rows[k].relative_path] == rows[k]);
            }
            if paths_that_are(entries@, directories).contains(path) {
                let k = choose|k: int| 0 <= k < rows.len() && #[trigger] rows[k] == entries@[path];
                assert(rows[k].relative_path == path);
            }
        }
        assert(counted =~= paths_that_are(entries@, directories));
    }
    count
}

/// What is reported about a root as it stands.
pub open spec fn report_of(name: Seq<char>, root: RootView, elapsed_ms: u128) -> ReportView {
    ReportView {
        root: name,
        indexed_files: paths_that_are(root.tree.entries, false).len(),
        indexed_directories: paths_that_are(root.tree.entries, true).len(),
        skipped_entries: at_least_zero(root.skipped_entries),
        complete: root.complete,
        elapsed_ms,
    }
}

/// The error for a root that is to be reported and does not exist.
pub open spec fn unknown_root(name: Seq<char>) -> SearchErrorView {
    SearchErrorView::Io { path: name, source: "NTFS 索引根不存在，无法更新 USN 游标"@ }
}

/// The error for something that is to be stored about a root that does not exist.
pub open spec fn missing_root() -> SearchErrorView {
    SearchErrorView::Database("FOREIGN KEY constraint failed"@)
}

pub(crate) fn missing_root_error() -> (error: SearchError)
    ensures
        error@ == missing_root(),
{
    SearchError::Database("FOREIGN KEY constraint failed".to_owned())
}

impl IndexView {
    /// What is reported about the root with the given name.
    pub open spec fn report(self, name: Seq<char>, elapsed_ms: u128) -> Result<
        ReportView,
        SearchErrorView,
    > {
        if self.roots.contains_key(name) {
            Ok(report_of(name, self.roots[name], elapsed_ms))
        } else {
            Err(unknown_root(name))
        }
    }
}

impl SearchIndex {
    /// Reports a root as it stands.
    pub fn report_for_root(&self, root: &str, elapsed_ms: u128) -> (report: Result<
        ScanReport,
        SearchError,
    >)
        requires
            self.wf(),
        ensures
            report_result(report) == self@.report(root@, elapsed_ms),
    {
        match self.root(root) {
            None => Err(
                SearchError::Io {
                    path: root.to_owned(),
                    source: "NTFS 索引根不存在，无法更新 USN 游标".to_owned(),
                },
            ),
            Some(table) => Ok(
                ScanReport {
                    root: root.to_owned(),
                    indexed_files: count_entries(&table.tree.entries, false),
                    indexed_directories: count_entries(&table.tree.entries, true),
                    skipped_entries: not_negative(table.skipped_entries),
                    complete: table.complete,
                    elapsed_ms,
                },
            ),
        }
    }
}

// ---------------------------------------------------------------------------
// Scanning
// ---------------------------------------------------------------------------

impl IndexView {
    /// The index after a walk through a root.
    pub open spec fn after_walk(self, name: Seq<char>, walk: Seq<WalkView>, now: i64) -> IndexView {
        let advanced = self.with_next_generation(now);
        advanced.with_root(
            name,
            self.root_or_new(name, now).after_walk(walk, advanced.last_generation, now),
        )
    }

    /// The index after a snapshot of a volume.
    pub open spec fn after_snapshot(
        self,
        name: Seq<char>,
        records: Seq<RecordView>,
        journal_id: u64,
        next_usn: i64,
        now: i64,
    ) -> IndexView {
        let advanced = self.with_next_generation(now);
        advanced.with_root(
            name,
            self.root_or_new(name, now).after_snapshot(
                records,
                journal_id,
                next_usn,
                advanced.last_generation,
                now,
            ),
        )
    }
}

/// What is reported about a walk.
pub open spec fn walk_report(name: Seq<char>, walk: Seq<WalkView>, elapsed_ms: u128) -> ReportView {
    ReportView {
        root: name,
        indexed_files: crate::root::found_in(walk, false),
        indexed_directories: crate::root::found_in(walk, true),
        skipped_entries: crate::root::skipped_in(walk),
        complete: crate::root::skipped_in(walk) == 0,
        elapsed_ms,
    }
}

/// What is reported about a snapshot.
pub open spec fn snapshot_report(
    name: Seq<char>,
    records: Seq<RecordView>,
    elapsed_ms: u128,
) -> ReportView {
    let directories = crate::root::usable_directories_in(records, records.len());
    ReportView {
        root: name,
        indexed_files: (crate::root::usable_in(records, records.len()) - directories) as nat,
        indexed_directories: directories,
        skipped_entries: crate::root::unusable(records),
        complete: crate::root::unusable(records) == 0,
        elapsed_ms,
    }
}

/// The records without those of the root itself.
pub open spec fn without_root_records(records: Seq<RecordView>) -> Seq<RecordView>
    decreases records.len(),
{
    if records.len() == 0 {
        Seq::empty()
    } else if records.last().file_reference_number == ROOT_FILE_REFERENCE {
        without_root_records(records.drop_last())
    } else {
        without_root_records(records.drop_last()).push(records.last())
    }
}

/// The records without those of the root itself.
fn drop_root_records(records: Vec<UsnRecord>) -> (kept: Vec<UsnRecord>)
    ensures
        crate::ntfs::record_views(kept@) == without_root_records(
            crate::ntfs::record_views(records@),
        ),
{
    let ghost views = crate::ntfs::record_views(records@);
    let count: usize = records.len();
    let mut source = records;
    let mut waiting: Vec<UsnRecord> = Vec::new();
    while source.len() > 0
        invariant
            source@.len() + waiting@.len() == count,
            views.len() == count,
            forall|i: int| 0 <= i < source@.len() ==> (#[trigger] source@[i])@ == views[i],
            forall|i: int|
                0 <= i < waiting@.len() ==> (#[trigger] waiting@[i])@ == views[count - 1 - i],
        decreases source.len(),
    {
        if let Some(record) = source.pop() {
            waiting.push(record);
        }
    }
    let mut kept: Vec<UsnRecord> = Vec::new();
    let mut done: usize = 0;
    assert(crate::ntfs::record_views(kept@) =~= without_root_records(views.take(0)));
    while done < count
        invariant
            done <= count,
            waiting@.len() == count - done,
            views.len() == count,
            forall|i: int|
                0 <= i < waiting@.len() ==> (#[trigger] waiting@[i])@ == views[count - 1 - i],
            crate::ntfs::record_views(kept@) == without_root_records(views.take(done as int)),
        decreases count - done,
    {
        assert(views.take(done + 1).drop_last() =~= views.take(done as int));
        let ghost before = kept@;
        if let Some(record) = waiting.pop() {
            assert(record@ == views[done as int]);
            if record.file_reference_number != ROOT_FILE_REFERENCE {
                kept.push(record);
                assert(crate::ntfs::record_views(kept@) =~= crate::ntfs::record_views(
                    before,
                ).push(record@));
            }
        }
        done += 1;
    }
    assert(views.take(done as int) =~= views);
    kept
}

/// The view of an attempt to read a whole volume.
pub open spec fn snapshot_result(result: Result<MftSnapshot, IoError>) -> Result<
    SnapshotView,
    IoErrorView,
> {
    match result {
        Ok(snapshot) => Ok(snapshot@),
        Err(error) => Err(error@),
    }
}

/// The error for a volume that cannot be read.
pub open spec fn volume_error(volume: char, source: Seq<char>) -> SearchErrorView {
    SearchErrorView::Io { path: crate::paths::volume_name(volume), source }
}

impl IndexView {
    /// The index after an attempt to read a whole volume, and what is reported.
    pub open spec fn after_volume_scan(
        self,
        volume: char,
        snapshot: Result<SnapshotView, IoErrorView>,
        now: i64,
        elapsed_ms: u128,
    ) -> (IndexView, Result<ReportView, SearchErrorView>) {
        match snapshot {
            Err(error) => (self, Err(volume_error(volume, error.message))),
            Ok(read) => {
                let name = crate::paths::volume_root(read.volume);
                let records = without_root_records(read.records);
                (
                    self.after_snapshot(name, records, read.journal_id, read.next_usn, now),
                    Ok(snapshot_report(name, records, elapsed_ms)),
                )
            },
        }
    }
}

impl SearchIndex {
    /// Takes in a walk through a root. The entries of the root that the walk did not find are
    /// removed, unless something could not be read.
    pub fn scan_root(
        &mut self,
        root: &str,
        walk: &Vec<WalkItem>,
        now: i64,
        elapsed_ms: u128,
    ) -> (report: ScanReport)
        requires
            old(self).wf(),
        ensures
            final(self).wf(),
            final(self).path() == old(self).path(),
            final(self)@ == old(self)@.after_walk(
                crate::paths::storage_path(root@),
                crate::root::walk_views(walk@),
                now,
            ),
            report@ == walk_report(
                crate::paths::storage_path(root@),
                crate::root::walk_views(walk@),
                elapsed_ms,
            ),
    {
        let name = path_to_storage(root);
        let ghost before = self@;
        let generation: i64 = self.advance(now);
        let mut table = self.take_root(name.as_str(), now);
        let counts = table.take_walk(walk, generation, now);
        self.put_root(table);
        assert(self@.roots =~= before.after_walk(name@, crate::root::walk_views(walk@), now).roots);
        ScanReport {
            root: name,
            indexed_files: counts.files,
            indexed_directories: counts.directories,
            skipped_entries: counts.skipped,
            complete: counts.skipped == 0,
            elapsed_ms,
        }
    }

    /// Stores a snapshot of a volume as a root. A few records that hang below nothing do not make
    /// the others unsearchable, but only a snapshot without them is followed by changes.
    pub fn persist_ntfs_records(
        &mut self,
        root: String,
        records: Vec<UsnRecord>,
        journal_id: u64,
        next_usn: i64,
        now: i64,
        elapsed_ms: u128,
    ) -> (report: ScanReport)
        requires
            old(self).wf(),
        ensures
            final(self).wf(),
            final(self).path() == old(self).path(),
            final(self)@ == old(self)@.after_snapshot(
                root@,
                crate::ntfs::record_views(records@),
                journal_id,
                next_usn,
                now,
            ),
            report@ == snapshot_report(root@, crate::ntfs::record_views(records@), elapsed_ms),
    {
        let ghost before = self@;
        let generation: i64 = self.advance(now);
        let mut table = self.take_root(root.as_str(), now);
        let counts = table.take_snapshot(&records, journal_id, next_usn, generation, now);
        self.put_root(table);
        assert(self@.roots =~= before.after_snapshot(
            root@,
            crate::ntfs::record_views(records@),
            journal_id,
            next_usn,
            now,
        ).roots);
        ScanReport {
            root,
            indexed_files: counts.files,
            indexed_directories: counts.directories,
            skipped_entries: counts.skipped,
            complete: counts.skipped == 0,
            elapsed_ms,
        }
    }

    /// Takes in an attempt to read a whole volume. Where it failed, nothing changes, and the caller
    /// can walk through the volume instead.
    pub fn scan_ntfs_volume(
        &mut self,
        volume: char,
        snapshot: Result<MftSnapshot, IoError>,
        now: i64,
        elapsed_ms: u128,
    ) -> (report: Result<ScanReport, SearchError>)
        requires
            old(self).wf(),
        ensures
            final(self).wf(),
            final(self).path() == old(self).path(),
            (final(self)@, report_result(report)) == old(self)@.after_volume_scan(
                volume,
                snapshot_result(snapshot),
                now,
                elapsed_ms,
            ),
    {
        match snapshot {
            Err(error) => Err(
                SearchError::Io { path: name_of_volume(volume), source: error.message },
            ),
            Ok(read) => {
                let root = root_of_volume(read.volume);
                let records = drop_root_records(read.records);
                Ok(
                    self.persist_ntfs_records(
                        root,
                        records,
                        read.journal_id,
                        read.next_usn,
                        now,
                        elapsed_ms,
                    ),
                )
            },
        }
    }
}

} // verus!

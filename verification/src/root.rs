//! One indexed root: its entries, and the state of the volume that it stands for.
use crate::clock::system_time_to_ms;
use crate::delta::{sort_by_usn, Tree, TreeView};
use crate::normalize::normalize_for_search;
use crate::ntfs::{is_directory, resolve_relative_paths, RecordView, UsnRecord, ROOT_FILE_REFERENCE};
use crate::paths::{path_to_storage, valid_ntfs_relative_path};
use crate::tables::{ntfs_node_from_record, Entry, EntryTable, EntryView, NodeTable, NodeView};
use crate::text::{parse_signed, parse_unsigned, to_decimal, to_signed_decimal};
use std::collections::HashMap;
use vstd::prelude::*;

verus! {

broadcast use vstd::std_specs::hash::group_hash_axioms;

/// A position of the journal in the form in which it is stored.
#[derive(Debug)]
pub struct StoredCursor {
    pub journal_id: String,
    pub next_usn: String,
}

/// What a [`StoredCursor`] says.
pub struct CursorView {
    pub journal_id: Seq<char>,
    pub next_usn: Seq<char>,
}

impl View for StoredCursor {
    type V = CursorView;

    open spec fn view(&self) -> CursorView {
        CursorView { journal_id: self.journal_id@, next_usn: self.next_usn@ }
    }
}

/// The stored form of a position.
pub open spec fn cursor_at(journal_id: u64, next_usn: i64) -> CursorView {
    CursorView {
        journal_id: crate::text::decimal(journal_id as nat),
        next_usn: crate::text::signed_decimal(next_usn as int),
    }
}

impl CursorView {
    /// The position that is stored, where both of its numbers can be read.
    pub open spec fn position(self) -> Option<(u64, i64)> {
        match (
            crate::text::unsigned_of(self.journal_id),
            crate::text::signed_of(self.next_usn),
        ) {
            (Some(journal_id), Some(next_usn)) => Some((journal_id, next_usn)),
            _ => None,
        }
    }
}

/// A position that was stored is read back as it was.
pub proof fn law_cursor_is_read_back(journal_id: u64, next_usn: i64)
    ensures
        cursor_at(journal_id, next_usn).position() == Some((journal_id, next_usn)),
{
    crate::text::law_numbers_are_read_back(journal_id, next_usn);
}

impl StoredCursor {
    pub fn new(journal_id: u64, next_usn: i64) -> (cursor: StoredCursor)
        ensures
            cursor@ == cursor_at(journal_id, next_usn),
    {
        StoredCursor {
            journal_id: to_decimal(journal_id),
            next_usn: to_signed_decimal(next_usn),
        }
    }

    /// The position that is stored, where both of its numbers can be read.
    pub fn position(&self) -> (position: Option<(u64, i64)>)
        ensures
            position == self@.position(),
    {
        match (
            parse_unsigned(self.journal_id.as_str()),
            parse_signed(self.next_usn.as_str()),
        ) {
            (Some(journal_id), Some(next_usn)) => Some((journal_id, next_usn)),
            _ => None,
        }
    }
}

/// When a root was last brought into line by itself, and whether a journal then followed it.
#[derive(Clone, Copy, Debug, PartialEq, Eq)]
pub struct AutoRecord {
    pub last_reconcile_unix_ms: i64,
    pub uses_ntfs_usn: bool,
}

/// An indexed root.
pub struct RootTable {
    pub root: String,
    pub last_scan_unix_ms: i64,
    pub complete: bool,
    pub skipped_entries: i64,
    pub tree: Tree,
    pub cursor: Option<StoredCursor>,
    pub auto_record: Option<AutoRecord>,
}

/// What a [`RootTable`] says besides its name.
pub struct RootView {
    pub last_scan_unix_ms: i64,
    pub complete: bool,
    pub skipped_entries: i64,
    pub tree: TreeView,
    pub cursor: Option<CursorView>,
    pub auto_record: Option<AutoRecord>,
}

impl View for RootTable {
    type V = RootView;

    open spec fn view(&self) -> RootView {
        RootView {
            last_scan_unix_ms: self.last_scan_unix_ms,
            complete: self.complete,
            skipped_entries: self.skipped_entries,
            tree: self.tree@,
            cursor: match self.cursor {
                Some(cursor) => Some(cursor@),
                None => None,
            },
            auto_record: self.auto_record,
        }
    }
}

/// A root about which nothing is known yet.
pub open spec fn empty_root(now: i64) -> RootView {
    RootView {
        last_scan_unix_ms: now,
        complete: false,
        skipped_entries: 0,
        tree: TreeView { nodes: Seq::empty(), entries: Map::empty() },
        cursor: None,
        auto_record: None,
    }
}

/// A count as it is stored.
pub open spec fn stored_count(count: nat) -> i64 {
    if count <= i64::MAX {
        count as i64
    } else {
        i64::MAX
    }
}

pub(crate) fn store_count(count: u64) -> (stored: i64)
    ensures
        stored == stored_count(count as nat),
{
    if count <= i64::MAX as u64 {
        count as i64
    } else {
        i64::MAX
    }
}

// ---------------------------------------------------------------------------
// A walk through a directory tree
// ---------------------------------------------------------------------------

/// What a walk found about a file or directory. The path is the one below the root; the time is in
/// milliseconds since 1970, where there is one.
#[derive(Debug)]
pub struct FoundEntry {
    pub relative_path: String,
    pub name: String,
    pub is_directory: bool,
    pub size_bytes: u64,
    pub modified_ms: Option<u128>,
}

/// What a [`FoundEntry`] says.
pub struct FoundView {
    pub relative_path: Seq<char>,
    pub name: Seq<char>,
    pub is_directory: bool,
    pub size_bytes: u64,
    pub modified_ms: Option<u128>,
}

impl View for FoundEntry {
    type V = FoundView;

    open spec fn view(&self) -> FoundView {
        FoundView {
            relative_path: self.relative_path@,
            name: self.name@,
            is_directory: self.is_directory,
            size_bytes: self.size_bytes,
            modified_ms: self.modified_ms,
        }
    }
}

/// One step of a walk.
#[derive(Debug)]
pub enum WalkItem {
    /// Something that could not be read.
    Skipped,
    Found(FoundEntry),
}

/// What a [`WalkItem`] says.
pub enum WalkView {
    Skipped,
    Found(FoundView),
}

impl View for WalkItem {
    type V = WalkView;

    open spec fn view(&self) -> WalkView {
        match *self {
            WalkItem::Skipped => WalkView::Skipped,
            WalkItem::Found(found) => WalkView::Found(found@),
        }
    }
}

/// The views of a walk.
pub open spec fn walk_views(walk: Seq<WalkItem>) -> Seq<WalkView> {
    Seq::new(walk.len(), |i: int| walk[i]@)
}

/// The entry for what a walk found, given the normal forms of its name and its stored path.
pub open spec fn entry_from_found(
    found: FoundView,
    normalized_name: Seq<char>,
    normalized_path: Seq<char>,
    generation: i64,
) -> EntryView {
    EntryView {
        relative_path: crate::paths::storage_path(found.relative_path),
        name: found.name,
        normalized_name,
        normalized_path,
        is_directory: found.is_directory,
        size_bytes: stored_count(found.size_bytes as nat),
        modified_unix_ms: match found.modified_ms {
            Some(ms) if ms <= i64::MAX => Some(ms as i64),
            _ => None,
        },
        generation,
        file_reference_number: None,
    }
}

/// The entry for what a walk found, given the normal forms of its name and its stored path.
pub fn entry_of_found(
    found: &FoundEntry,
    normalized_name: &str,
    normalized_path: &str,
    generation: i64,
) -> (entry: Entry)
    ensures
        entry@ == entry_from_found(found@, normalized_name@, normalized_path@, generation),
{
    Entry {
        relative_path: path_to_storage(found.relative_path.as_str()),
        name: found.name.clone(),
        normalized_name: normalized_name.to_owned(),
        normalized_path: normalized_path.to_owned(),
        is_directory: found.is_directory,
        size_bytes: store_count(found.size_bytes),
        modified_unix_ms: match found.modified_ms {
            Some(ms) => system_time_to_ms(ms),
            None => None,
        },
        generation,
        file_reference_number: None,
    }
}

/// The entry for what a walk found.
pub open spec fn found_entry(found: FoundView, generation: i64) -> EntryView {
    entry_from_found(
        found,
        crate::normalize::normalized(found.name),
        crate::normalize::normalized(crate::paths::storage_path(found.relative_path)),
        generation,
    )
}

/// The entries with those of a walk added.
pub open spec fn with_found(
    entries: Map<Seq<char>, EntryView>,
    walk: Seq<WalkView>,
    generation: i64,
) -> Map<Seq<char>, EntryView>
    decreases walk.len(),
{
    if walk.len() == 0 {
        entries
    } else {
        let front = with_found(entries, walk.drop_last(), generation);
        match walk.last() {
            WalkView::Skipped => front,
            WalkView::Found(found) => front.insert(
                crate::paths::storage_path(found.relative_path),
                found_entry(found, generation),
            ),
        }
    }
}

/// How many steps of a walk could not be read.
pub open spec fn skipped_in(walk: Seq<WalkView>) -> nat
    decreases walk.len(),
{
    if walk.len() == 0 {
        0
    } else if walk.last() is Skipped {
        skipped_in(walk.drop_last()) + 1
    } else {
        skipped_in(walk.drop_last())
    }
}

/// How many directories, or else files, a walk found.
pub open spec fn found_in(walk: Seq<WalkView>, directories: bool) -> nat
    decreases walk.len(),
{
    if walk.len() == 0 {
        0
    } else {
        let front = found_in(walk.drop_last(), directories);
        match walk.last() {
            WalkView::Found(found) if found.is_directory == directories => front + 1,
            _ => front,
        }
    }
}

/// Whether an entry is of the given generation.
pub open spec fn of_generation(generation: i64) -> spec_fn(EntryView) -> bool {
    |entry: EntryView| entry.generation == generation
}

/// What a walk counted.
#[derive(Clone, Copy, Debug, PartialEq, Eq)]
pub struct WalkCounts {
    pub files: u64,
    pub directories: u64,
    pub skipped: u64,
}

/// What a walk counts.
pub open spec fn counts_of(walk: Seq<WalkView>, counts: WalkCounts) -> bool {
    &&& counts.files == found_in(walk, false)
    &&& counts.directories == found_in(walk, true)
    &&& counts.skipped == skipped_in(walk)
}

impl RootView {
    /// The root after a walk through it. Where something could not be read, the old entries stay:
    /// that is safer than to lose them.
    pub open spec fn after_walk(self, walk: Seq<WalkView>, generation: i64, now: i64) -> RootView {
        let entries = with_found(self.tree.entries, walk, generation);
        let complete = skipped_in(walk) == 0;
        RootView {
            last_scan_unix_ms: now,
            complete,
            skipped_entries: stored_count(skipped_in(walk)),
            tree: TreeView {
                nodes: self.tree.nodes,
                entries: if complete {
                    crate::tables::kept_entries(entries, of_generation(generation))
                } else {
                    entries
                },
            },
            cursor: self.cursor,
            auto_record: self.auto_record,
        }
    }
}

impl RootTable {
    pub open spec fn wf(&self) -> bool {
        self.tree.wf()
    }

    /// A root about which nothing is known yet.
    pub fn new(root: &str, now: i64) -> (table: RootTable)
        ensures
            table.wf(),
            table.root@ == root@,
            table@ == empty_root(now),
    {
        RootTable {
            root: root.to_owned(),
            last_scan_unix_ms: now,
            complete: false,
            skipped_entries: 0,
            tree: Tree { nodes: NodeTable::new(), entries: EntryTable::new() },
            cursor: None,
            auto_record: None,
        }
    }

    /// Adds the entries of a walk.
    pub(crate) fn add_found(&mut self, walk: &Vec<WalkItem>, generation: i64) -> (counts: WalkCounts)
        requires
            old(self).wf(),
        ensures
            final(self).wf(),
            final(self).root == old(self).root,
            final(self)@ == (RootView {
                tree: TreeView {
                    nodes: old(self)@.tree.nodes,
                    entries: with_found(old(self)@.tree.entries, walk_views(walk@), generation),
                },
                ..old(self)@
            }),
            counts_of(walk_views(walk@), counts),
    {
        let ghost views = walk_views(walk@);
        let ghost before = *self;
        let mut files: u64 = 0;
        let mut directories: u64 = 0;
        let mut skipped: u64 = 0;
        let mut i: usize = 0;
        while i < walk.len()
            invariant
                i <= walk.len(),
                views == walk_views(walk@),
                self.wf(),
                *self == (RootTable { tree: self.tree, ..before }),
                self.tree.nodes == before.tree.nodes,
                self.tree.entries@ == with_found(
                    before.tree.entries@,
                    views.take(i as int),
                    generation,
                ),
                files == found_in(views.take(i as int), false),
                directories == found_in(views.take(i as int), true),
                skipped == skipped_in(views.take(i as int)),
                files <= i,
                directories <= i,
                skipped <= i,
            decreases walk.len() - i,
        {
            assert(views.take(i + 1).drop_last() =~= views.take(i as int));
            assert(views.take(i + 1).last() == walk@[i as int]@);
            match &walk[i] {
                WalkItem::Skipped => {
                    skipped += 1;
                },
                WalkItem::Found(found) => {
                    let relative_path = path_to_storage(found.relative_path.as_str());
                    let entry = entry_of_found(
                        found,
                        normalize_for_search(found.name.as_str()).as_str(),
                        normalize_for_search(relative_path.as_str()).as_str(),
                        generation,
                    );
                    self.tree.entries.upsert(entry);
                    if found.is_directory {
                        directories += 1;
                    } else {
                        files += 1;
                    }
                },
            }
            i += 1;
        }
        assert(views.take(i as int) =~= views);
        WalkCounts { files, directories, skipped }
    }

    /// Keeps the entries of one generation.
    fn keep_generation(&mut self, generation: i64)
        requires
            old(self).wf(),
        ensures
            final(self).wf(),
            final(self).root == old(self).root,
            final(self)@ == (RootView {
                tree: TreeView {
                    nodes: old(self)@.tree.nodes,
                    entries: crate::tables::kept_entries(
                        old(self)@.tree.entries,
                        of_generation(generation),
                    ),
                },
                ..old(self)@
            }),
    {
        let ghost keep = of_generation(generation);
        let mut marked: Vec<bool> = Vec::new();
        let mut i: usize = 0;
        while i < self.tree.entries.len()
            invariant
                i <= self.tree.entries.rows().len(),
                marked@.len() == i,
                keep == of_generation(generation),
                forall|k: int|
                    0 <= k < i ==> #[trigger] marked@[k] == keep(self.tree.entries.rows()[k]),
            decreases self.tree.entries.rows().len() - i,
        {
            marked.push(self.tree.entries.row(i).generation == generation);
            i += 1;
        }
        self.tree.entries.retain(&marked, Ghost(keep));
    }

    /// Takes in a walk through the root.
    pub fn take_walk(&mut self, walk: &Vec<WalkItem>, generation: i64, now: i64) -> (counts:
        WalkCounts)
        requires
            old(self).wf(),
        ensures
            final(self).wf(),
            final(self).root == old(self).root,
            final(self)@ == old(self)@.after_walk(walk_views(walk@), generation, now),
            counts_of(walk_views(walk@), counts),
    {
        let counts = self.add_found(walk, generation);
        let complete: bool = counts.skipped == 0;
        if complete {
            self.keep_generation(generation);
        }
        self.last_scan_unix_ms = now;
        self.complete = complete;
        self.skipped_entries = store_count(counts.skipped);
        counts
    }
}

// ---------------------------------------------------------------------------
// A snapshot of a volume
// ---------------------------------------------------------------------------

/// The path at which a record of a snapshot is found: the one it resolves to, where that can be a
/// path.
pub open spec fn usable_path(records: Seq<RecordView>, record: RecordView) -> Option<Seq<char>> {
    let reference = record.file_reference_number;
    match crate::ntfs::resolved_path(records, reference) {
        Some(path) if reference != ROOT_FILE_REFERENCE && crate::paths::valid_relative_path(
            path,
        ) => Some(path),
        _ => None,
    }
}

/// How many of the first records of a snapshot are found at a path.
pub open spec fn usable_in(records: Seq<RecordView>, count: nat) -> nat
    decreases count,
{
    if count == 0 {
        0
    } else {
        let front = usable_in(records, (count - 1) as nat);
        if usable_path(records, records[count - 1]) is Some {
            front + 1
        } else {
            front
        }
    }
}

/// How many of the first records of a snapshot are directories that are found at a path.
pub open spec fn usable_directories_in(records: Seq<RecordView>, count: nat) -> nat
    decreases count,
{
    if count == 0 {
        0
    } else {
        let front = usable_directories_in(records, (count - 1) as nat);
        if usable_path(records, records[count - 1]) is Some && records[count - 1].is_directory() {
            front + 1
        } else {
            front
        }
    }
}

/// The nodes of the first records of a snapshot.
pub open spec fn snapshot_nodes(records: Seq<RecordView>, count: nat) -> Seq<NodeView>
    decreases count,
{
    if count == 0 {
        Seq::empty()
    } else {
        let front = snapshot_nodes(records, (count - 1) as nat);
        match usable_path(records, records[count - 1]) {
            Some(path) => crate::tables::with_node(
                front,
                crate::tables::node_from_record(records[count - 1], path),
            ),
            None => front,
        }
    }
}

/// The entries of the first records of a snapshot.
pub open spec fn snapshot_entries(records: Seq<RecordView>, count: nat, generation: i64) -> Map<
    Seq<char>,
    EntryView,
>
    decreases count,
{
    if count == 0 {
        Map::empty()
    } else {
        let front = snapshot_entries(records, (count - 1) as nat, generation);
        match usable_path(records, records[count - 1]) {
            Some(path) => front.insert(
                path,
                crate::tables::node_entry(
                    crate::tables::node_from_record(records[count - 1], path),
                    generation,
                ),
            ),
            None => front,
        }
    }
}

/// How many records of a snapshot are found at no path.
pub open spec fn unusable(records: Seq<RecordView>) -> nat {
    (records.len() - usable_in(records, records.len())) as nat
}

impl RootView {
    /// The root after a snapshot of its volume. Records that hang below nothing do not make the
    /// others unsearchable; but only a snapshot without them, of a volume with a journal, is
    /// followed by changes.
    pub open spec fn after_snapshot(
        self,
        records: Seq<RecordView>,
        journal_id: u64,
        next_usn: i64,
        generation: i64,
        now: i64,
    ) -> RootView {
        let complete = unusable(records) == 0;
        let followed = complete && journal_id != 0;
        RootView {
            last_scan_unix_ms: now,
            complete,
            skipped_entries: stored_count(unusable(records)),
            tree: TreeView {
                nodes: if followed {
                    snapshot_nodes(records, records.len())
                } else {
                    Seq::empty()
                },
                entries: snapshot_entries(records, records.len(), generation),
            },
            cursor: if followed {
                Some(cursor_at(journal_id, next_usn))
            } else {
                None
            },
            auto_record: self.auto_record,
        }
    }
}

/// Whether `paths` leads from each number to the path of its records.
pub open spec fn leads_to_paths(paths: Map<u64, String>, records: Seq<RecordView>) -> bool {
    &&& forall|number: u64| #[trigger]
        paths.contains_key(number) <==> number != ROOT_FILE_REFERENCE && crate::ntfs::has_record(
            records,
            number,
        ) && crate::ntfs::resolved_path(records, number) is Some
    &&& forall|number: u64| #[trigger]
        paths.contains_key(number) ==> paths[number]@ == crate::ntfs::resolved_path(
            records,
            number,
        )->0
}

/// The path at which a record of a snapshot is found.
fn usable<'a>(
    paths: &'a HashMap<u64, String>,
    records: &Vec<UsnRecord>,
    position: usize,
) -> (path: Option<&'a String>)
    requires
        position < records@.len(),
        leads_to_paths(paths@, crate::ntfs::record_views(records@)),
    ensures
        match path {
            Some(text) => usable_path(
                crate::ntfs::record_views(records@),
                records@[position as int]@,
            ) == Some(text@),
            None => usable_path(
                crate::ntfs::record_views(records@),
                records@[position as int]@,
            ) is None,
        },
{
    let ghost views = crate::ntfs::record_views(records@);
    assert(views[position as int].file_reference_number
        == records@[position as int].file_reference_number);
    match paths.get(&records[position].file_reference_number) {
        Some(path) => {
            if valid_ntfs_relative_path(path.as_str()) {
                Some(path)
            } else {
                None
            }
        },
        None => None,
    }
}

/// The nodes and entries of a snapshot, and its counts of files, directories and records that are
/// found at no path.
struct SnapshotRows {
    nodes: NodeTable,
    entries: EntryTable,
    counts: WalkCounts,
}

fn snapshot_rows(records: &Vec<UsnRecord>, generation: i64) -> (rows: SnapshotRows)
    ensures
        rows.nodes.wf(),
        rows.entries.wf(),
        ({
            let views = crate::ntfs::record_views(records@);
            let directories = usable_directories_in(views, views.len());
            &&& rows.nodes@ == snapshot_nodes(views, views.len())
            &&& rows.entries@ == snapshot_entries(views, views.len(), generation)
            &&& rows.counts.skipped == unusable(views)
            &&& rows.counts.directories == directories
            &&& rows.counts.files == usable_in(views, views.len()) - directories
        }),
{
    let ghost views = crate::ntfs::record_views(records@);
    let paths = resolve_relative_paths(records.as_slice());
    assert(leads_to_paths(paths@, views));
    let mut nodes = NodeTable::new();
    let mut entries = EntryTable::new();
    let mut directories: u64 = 0;
    let mut files: u64 = 0;
    let mut skipped: u64 = 0;
    let mut i: usize = 0;
    while i < records.len()
        invariant
            i <= records.len(),
            views == crate::ntfs::record_views(records@),
            leads_to_paths(paths@, views),
            nodes.wf(),
            entries.wf(),
            nodes@ == snapshot_nodes(views, i as nat),
            entries@ == snapshot_entries(views, i as nat, generation),
            directories == usable_directories_in(views, i as nat),
            files + directories == usable_in(views, i as nat),
            skipped == i - usable_in(views, i as nat),
            files + directories <= i,
        decreases records.len() - i,
    {
        assert(views[i as int] == records@[i as int]@);
        match usable(&paths, records, i) {
            Some(path) => {
                let node = ntfs_node_from_record(&records[i], path.clone());
                entries.upsert_ntfs_entry(&node, generation);
                nodes.upsert(node);
                if is_directory(&records[i]) {
                    directories += 1;
                } else {
                    files += 1;
                }
            },
            None => {
                skipped += 1;
            },
        }
        i += 1;
    }
    SnapshotRows { nodes, entries, counts: WalkCounts { files, directories, skipped } }
}

impl RootTable {
    /// Takes in a snapshot of the volume.
    pub fn take_snapshot(
        &mut self,
        records: &Vec<UsnRecord>,
        journal_id: u64,
        next_usn: i64,
        generation: i64,
        now: i64,
    ) -> (counts: WalkCounts)
        requires
            old(self).wf(),
        ensures
            final(self).wf(),
            final(self).root == old(self).root,
            final(self)@ == old(self)@.after_snapshot(
                crate::ntfs::record_views(records@),
                journal_id,
                next_usn,
                generation,
                now,
            ),
            ({
                let views = crate::ntfs::record_views(records@);
                let directories = usable_directories_in(views, views.len());
                &&& counts.skipped == unusable(views)
                &&& counts.directories == directories
                &&& counts.files == usable_in(views, views.len()) - directories
            }),
    {
        let rows = snapshot_rows(records, generation);
        let complete: bool = rows.counts.skipped == 0;
        self.tree.entries = rows.entries;
        if complete && journal_id != 0 {
            self.tree.nodes = rows.nodes;
            self.cursor = Some(StoredCursor::new(journal_id, next_usn));
        } else {
            // Without the whole tree, or without a journal, there is a searchable snapshot and
            // no position from which it could be followed.
            self.tree.nodes = NodeTable::new();
            self.cursor = None;
        }
        self.last_scan_unix_ms = now;
        self.complete = complete;
        self.skipped_entries = store_count(rows.counts.skipped);
        rows.counts
    }
}

// ---------------------------------------------------------------------------
// Changes of a volume
// ---------------------------------------------------------------------------

impl RootView {
    /// The root after a list of changes, where each of them can be placed.
    pub open spec fn after_delta(
        self,
        journal_id: u64,
        next_usn: i64,
        records: Seq<RecordView>,
        generation: i64,
        now: i64,
    ) -> Option<RootView> {
        match self.tree.after_all(crate::delta::by_usn(records), generation) {
            None => None,
            Some(tree) => Some(
                RootView {
                    last_scan_unix_ms: now,
                    complete: true,
                    skipped_entries: 0,
                    tree,
                    cursor: Some(cursor_at(journal_id, next_usn)),
                    auto_record: self.auto_record,
                },
            ),
        }
    }

    /// The root when its changes can no longer be followed.
    pub open spec fn needing_snapshot(self, now: i64) -> RootView {
        RootView {
            last_scan_unix_ms: now,
            complete: false,
            skipped_entries: if self.skipped_entries < 1 {
                1
            } else {
                self.skipped_entries
            },
            cursor: None,
            ..self
        }
    }
}

impl RootTable {
    /// Applies a list of changes in the order of the journal. `false` says that one of them cannot
    /// be placed; the root is then as it was.
    pub fn take_delta(
        &mut self,
        journal_id: u64,
        next_usn: i64,
        records: Vec<UsnRecord>,
        generation: i64,
        now: i64,
    ) -> (applied: bool)
        requires
            old(self).wf(),
        ensures
            final(self).wf(),
            final(self).root == old(self).root,
            match old(self)@.after_delta(
                journal_id,
                next_usn,
                crate::ntfs::record_views(records@),
                generation,
                now,
            ) {
                Some(root) => applied && final(self)@ == root,
                None => !applied && *final(self) == *old(self),
            },
    {
        let mut records = records;
        sort_by_usn(&mut records);
        if !self.tree.apply_records(&records, generation) {
            return false;
        }
        self.cursor = Some(StoredCursor::new(journal_id, next_usn));
        self.last_scan_unix_ms = now;
        self.complete = true;
        self.skipped_entries = 0;
        true
    }

    /// Marks the root as one whose changes can no longer be followed.
    pub fn require_snapshot(&mut self, now: i64)
        requires
            old(self).wf(),
        ensures
            final(self).wf(),
            final(self).root == old(self).root,
            final(self)@ == old(self)@.needing_snapshot(now),
    {
        self.cursor = None;
        self.complete = false;
        if self.skipped_entries < 1 {
            self.skipped_entries = 1;
        }
        self.last_scan_unix_ms = now;
    }
}

} // verus!

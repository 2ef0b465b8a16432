//! What scans, changes and refreshes leave in the index, and what is reported of them.
use crate::errors::SearchErrorView;
use crate::index::{IndexView, ReportView};
use crate::ntfs::RecordView;
use crate::overview::IndexStatus;
use crate::root::{FoundView, RootView, WalkView};
use crate::sync::{SyncEventView, SyncStepView, VolumesStepView, VolumesSyncView};
use crate::tables::EntryView;
use crate::volume::{DeltaView, JournalErrorView, SnapshotView};
use vstd::prelude::*;

verus! {

// ---------------------------------------------------------------------------
// Walks
// ---------------------------------------------------------------------------

/// Walks are counted item by item: each item is one file, one directory or one that was skipped.
pub proof fn law_walks_are_counted_item_by_item(
    a: Seq<WalkView>,
    b: Seq<WalkView>,
    found: FoundView,
    directories: bool,
)
    ensures
        crate::root::skipped_in(a + b) == crate::root::skipped_in(a) + crate::root::skipped_in(b),
        crate::root::found_in(a + b, directories) == crate::root::found_in(a, directories)
            + crate::root::found_in(b, directories),
        crate::root::skipped_in(seq![WalkView::Skipped]) == 1,
        crate::root::found_in(seq![WalkView::Skipped], directories) == 0,
        crate::root::skipped_in(seq![WalkView::Found(found)]) == 0,
        crate::root::found_in(seq![WalkView::Found(found)], directories) == (if found.is_directory
            == directories {
            1nat
        } else {
            0nat
        }),
        crate::root::skipped_in(b) + crate::root::found_in(b, true) + crate::root::found_in(b, false)
            == b.len(),
    decreases b.len(),
{
    let skipped = seq![WalkView::Skipped];
    let one = seq![WalkView::Found(found)];
    assert(skipped.drop_last() =~= Seq::<WalkView>::empty());
    assert(one.drop_last() =~= Seq::<WalkView>::empty());
    assert(crate::root::skipped_in(Seq::empty()) == 0);
    assert(crate::root::found_in(Seq::empty(), directories) == 0);
    if b.len() > 0 {
        law_walks_are_counted_item_by_item(a, b.drop_last(), found, directories);
        assert((a + b).drop_last() =~= a + b.drop_last());
    } else {
        assert(a + b =~= a);
    }
}

/// Every item of a walk is counted.
proof fn lemma_counts_add_up(walk: Seq<WalkView>)
    ensures
        crate::root::skipped_in(walk) + crate::root::found_in(walk, true) + crate::root::found_in(
            walk,
            false,
        ) == walk.len(),
    decreases walk.len(),
{
    if walk.len() > 0 {
        lemma_counts_add_up(walk.drop_last());
    }
}

/// Whether a walk read everything.
pub open spec fn reads_all(walk: Seq<WalkView>) -> bool {
    forall|i: int| 0 <= i < walk.len() ==> !(#[trigger] walk[i] is Skipped)
}

/// A walk skipped nothing exactly if it read everything.
proof fn lemma_reads_all(walk: Seq<WalkView>)
    ensures
        crate::root::skipped_in(walk) == 0 <==> reads_all(walk),
    decreases walk.len(),
{
    if walk.len() > 0 {
        let front = walk.drop_last();
        lemma_reads_all(front);
        if reads_all(walk) {
            assert forall|i: int| 0 <= i < front.len() implies !(#[trigger] front[i] is Skipped) by {
                assert(front[i] == walk[i]);
            }
            assert(!(walk[walk.len() - 1] is Skipped));
        }
        if crate::root::skipped_in(walk) == 0 {
            assert forall|i: int| 0 <= i < walk.len() implies !(#[trigger] walk[i] is Skipped) by {
                if i < front.len() {
                    assert(walk[i] == front[i]);
                }
            }
        }
    }
}

/// A walk is recorded as it was: its root is complete exactly if nothing was skipped, is of the
/// time of the walk, and is followed or not as before; the report counts each item once. No other
/// root changes.
pub proof fn law_walk_is_recorded(
    index: IndexView,
    name: Seq<char>,
    walk: Seq<WalkView>,
    now: i64,
    elapsed_ms: u128,
    other: Seq<char>,
)
    ensures
        ({
            let after = index.after_walk(name, walk, now);
            let root = after.roots[name];
            let listed = crate::overview::listed_root(name, root);
            let report = crate::index::walk_report(name, walk, elapsed_ms);
            &&& after.roots.contains_key(name)
            &&& root.complete <==> reads_all(walk)
            &&& listed.complete <==> reads_all(walk)
            &&& report.complete <==> reads_all(walk)
            &&& root.last_scan_unix_ms == now
            &&& listed.last_scan_unix_ms == now
            &&& listed.root == name
            &&& report.root == name
            &&& report.elapsed_ms == elapsed_ms
            &&& report.indexed_files + report.indexed_directories + report.skipped_entries
                == walk.len()
            &&& walk.len() <= i64::MAX ==> listed.skipped_entries == report.skipped_entries
            &&& index.roots.contains_key(name) ==> {
                &&& root.cursor == index.roots[name].cursor
                &&& root.auto_record == index.roots[name].auto_record
                &&& root.tree.nodes == index.roots[name].tree.nodes
                &&& listed.uses_ntfs_usn <==> index.roots[name].cursor is Some
            }
            &&& !index.roots.contains_key(name) ==> {
                &&& root.cursor is None
                &&& root.auto_record is None
                &&& root.tree.nodes.len() == 0
                &&& !listed.uses_ntfs_usn
            }
            &&& other != name ==> {
                &&& after.roots.contains_key(other) <==> index.roots.contains_key(other)
                &&& after.roots[other] == index.roots[other]
            }
        }),
{
    lemma_reads_all(walk);
    lemma_counts_add_up(walk);
}

/// What was found last at a path is in the index after the walk. What was there before stays
/// exactly where something was skipped, as long as the generation is a new one.
pub proof fn law_complete_walk_forgets_what_it_did_not_find(
    index: IndexView,
    name: Seq<char>,
    walk: Seq<WalkView>,
    now: i64,
    path: Seq<char>,
)
    requires
        index.generations_bounded(),
        index.last_generation < i64::MAX,
        !crate::laws::walked(walk, path),
    ensures
        ({
            let after = index.after_walk(name, walk, now).roots[name].tree.entries;
            let known = index.roots.contains_key(name) && index.roots[name].tree.entries.contains_key(
                path,
            );
            &&& after.contains_key(path) <==> known && !reads_all(walk)
            &&& after.contains_key(path) ==> after[path] == index.roots[name].tree.entries[path]
        }),
{
    lemma_reads_all(walk);
    let before = index.root_or_new(name, now).tree.entries;
    let generation = index.with_next_generation(now).last_generation;
    crate::laws::lemma_with_found(before, walk, generation);
    if index.roots.contains_key(name) && before.contains_key(path) {
        crate::laws::law_next_generation_is_fresh(index, now, name, path);
    }
    let found = crate::root::with_found(before, walk, generation);
    assert(found.contains_key(path) <==> before.contains_key(path));
    assert(found[path] == before[path]);
}

// ---------------------------------------------------------------------------
// Snapshots
// ---------------------------------------------------------------------------

/// A record may be used exactly if its number leads to the root by a good path, and is not that of
/// the root.
pub proof fn law_which_records_may_be_used(
    records: Seq<RecordView>,
    record: RecordView,
    path: Seq<char>,
)
    ensures
        crate::root::usable_path(records, record) == Some(path) <==> (record.file_reference_number
            != 5 && crate::ntfs::resolved_path(records, record.file_reference_number) == Some(path)
            && crate::paths::valid_relative_path(path)),
{
}

/// Whether every record of a snapshot may be used.
pub open spec fn all_usable(records: Seq<RecordView>) -> bool {
    forall|i: int|
        0 <= i < records.len() ==> crate::root::usable_path(records, #[trigger] records[i]) is Some
}

/// Each record that may be used counts as one, and as one directory exactly if bit 4 of its
/// attributes is set.
pub proof fn law_snapshots_are_counted_record_by_record(records: Seq<RecordView>, count: nat)
    requires
        count < records.len(),
    ensures
        ({
            let usable = crate::root::usable_path(records, records[count as int]) is Some;
            let directory = records[count as int].file_attributes / 16 % 2 == 1;
            &&& crate::root::usable_in(records, 0) == 0
            &&& crate::root::usable_directories_in(records, 0) == 0
            &&& crate::root::usable_in(records, count + 1) - crate::root::usable_in(records, count)
                == if usable {
                1int
            } else {
                0
            }
            &&& crate::root::usable_directories_in(records, count + 1)
                - crate::root::usable_directories_in(records, count) == if usable && directory {
                1int
            } else {
                0
            }
        }),
{
    crate::ntfs::law_other_bits_do_not_matter(records[count as int], 0, 0);
}

/// The counts stay within the number of records, and reach it exactly if all may be used.
proof fn lemma_usable(records: Seq<RecordView>, count: nat)
    requires
        count <= records.len(),
    ensures
        crate::root::usable_directories_in(records, count) <= crate::root::usable_in(
            records,
            count,
        ) <= count,
        crate::root::usable_in(records, count) == count <==> forall|i: int|
            0 <= i < count ==> crate::root::usable_path(records, #[trigger] records[i]) is Some,
    decreases count,
{
    if count > 0 {
        lemma_usable(records, (count - 1) as nat);
        if crate::root::usable_in(records, count) == count {
            assert forall|i: int| 0 <= i < count implies crate::root::usable_path(
                records,
                #[trigger] records[i],
            ) is Some by {
                if i < count - 1 {
                    assert(crate::root::usable_in(records, (count - 1) as nat) == count - 1);
                }
            }
        }
    }
}

/// A snapshot is recorded as it was: its root is complete exactly if every record may be used, and
/// is followed from the given position exactly if besides there is a journal. The report counts
/// each record once. No other root changes.
pub proof fn law_snapshot_is_recorded(
    index: IndexView,
    name: Seq<char>,
    records: Seq<RecordView>,
    journal_id: u64,
    next_usn: i64,
    now: i64,
    elapsed_ms: u128,
    other: Seq<char>,
)
    ensures
        ({
            let after = index.after_snapshot(name, records, journal_id, next_usn, now);
            let root = after.roots[name];
            let listed = crate::overview::listed_root(name, root);
            let report = crate::index::snapshot_report(name, records, elapsed_ms);
            let followed = all_usable(records) && journal_id != 0;
            &&& after.roots.contains_key(name)
            &&& root.complete <==> all_usable(records)
            &&& listed.complete <==> all_usable(records)
            &&& report.complete <==> all_usable(records)
            &&& listed.last_scan_unix_ms == now
            &&& listed.root == name
            &&& report.root == name
            &&& report.elapsed_ms == elapsed_ms
            &&& report.indexed_files + report.indexed_directories + report.skipped_entries
                == records.len()
            &&& records.len() <= i64::MAX ==> listed.skipped_entries == report.skipped_entries
            &&& listed.uses_ntfs_usn <==> followed
            &&& after.position(name) == (if followed {
                Some((journal_id, next_usn))
            } else {
                None
            })
            &&& !followed ==> root.tree.nodes.len() == 0
            &&& followed ==> root.tree.nodes == crate::root::snapshot_nodes(records, records.len())
            &&& index.roots.contains_key(name) ==> root.auto_record == index.roots[name].auto_record
            &&& !index.roots.contains_key(name) ==> root.auto_record is None
            &&& other != name ==> {
                &&& after.roots.contains_key(other) <==> index.roots.contains_key(other)
                &&& after.roots[other] == index.roots[other]
            }
        }),
{
    lemma_usable(records, records.len());
    crate::root::law_cursor_is_read_back(journal_id, next_usn);
}

/// The snapshot of a volume is kept under the root of that volume, without the record of the root
/// itself; where it cannot be read, the index stays as it was and the error names the volume.
pub proof fn law_volume_is_scanned_under_its_root(
    index: IndexView,
    volume: char,
    snapshot: SnapshotView,
    error: crate::errors::IoErrorView,
    now: i64,
    elapsed_ms: u128,
)
    requires
        forall|i: int|
            0 <= i < snapshot.records.len() ==> (#[trigger] snapshot.records[i]).file_reference_number
                != 5,
    ensures
        index.after_volume_scan(volume, Ok(snapshot), now, elapsed_ms).0 == index.after_snapshot(
            seq![snapshot.volume, ':', '/'],
            snapshot.records,
            snapshot.journal_id,
            snapshot.next_usn,
            now,
        ),
        index.after_volume_scan(volume, Ok(snapshot), now, elapsed_ms).1 == Ok::<
            ReportView,
            SearchErrorView,
        >(
            crate::index::snapshot_report(
                seq![snapshot.volume, ':', '/'],
                snapshot.records,
                elapsed_ms,
            ),
        ),
        index.after_volume_scan(volume, Err(error), now, elapsed_ms) == (
            index,
            Err::<ReportView, SearchErrorView>(
                SearchErrorView::Io { path: seq![volume, ':'], source: error.message },
            ),
        ),
{
    lemma_no_root_records(snapshot.records);
}

/// Where no record is that of the root, none is left out.
proof fn lemma_no_root_records(records: Seq<RecordView>)
    requires
        forall|i: int|
            0 <= i < records.len() ==> (#[trigger] records[i]).file_reference_number != 5,
    ensures
        crate::index::without_root_records(records) == records,
    decreases records.len(),
{
    if records.len() > 0 {
        let front = records.drop_last();
        assert forall|i: int| 0 <= i < front.len() implies (
        #[trigger] front[i]).file_reference_number != 5 by {
            assert(front[i] == records[i]);
        }
        lemma_no_root_records(front);
        assert(records[records.len() - 1].file_reference_number != 5);
        assert(front.push(records.last()) =~= records);
    } else {
        assert(crate::index::without_root_records(records) =~= records);
    }
}

/// Records of the root are left out, and no others.
pub proof fn law_records_of_the_root_are_left_out(a: Seq<RecordView>, record: RecordView)
    ensures
        crate::index::without_root_records(a.push(record)) == (if record.file_reference_number == 5 {
            crate::index::without_root_records(a)
        } else {
            crate::index::without_root_records(a).push(record)
        }),
        crate::index::without_root_records(Seq::empty()) == Seq::<RecordView>::empty(),
{
    assert(a.push(record).drop_last() =~= a);
}

// ---------------------------------------------------------------------------
// Refreshes
// ---------------------------------------------------------------------------

/// A refresh takes away what lies below a changed path and was not found again, exactly if
/// everything was read. Its root stays complete as long as everything was read, and is of the time
/// of the refresh.
pub proof fn law_refresh_takes_what_is_gone(
    root: RootView,
    changed: Seq<Seq<char>>,
    walk: Seq<WalkView>,
    generation: i64,
    now: i64,
    path: Seq<char>,
)
    requires
        root.tree.entries.contains_key(path) ==> root.tree.entries[path].relative_path == path
            && root.tree.entries[path].generation != generation,
        !crate::laws::walked(walk, path),
    ensures
        ({
            let after = root.after_refresh(changed, walk, generation, now);
            let below = exists|i: int|
                0 <= i < changed.len() && ((#[trigger] changed[i]).len() == 0
                    || crate::paths::in_subtree(path, changed[i]));
            &&& after.tree.entries.contains_key(path) <==> root.tree.entries.contains_key(path)
                && !(below && reads_all(walk))
            &&& after.tree.entries.contains_key(path) ==> after.tree.entries[path]
                == root.tree.entries[path]
            &&& after.complete <==> root.complete && reads_all(walk)
            &&& after.last_scan_unix_ms == now
            &&& reads_all(walk) ==> after.skipped_entries == root.skipped_entries
            &&& !reads_all(walk) && walk.len() <= i64::MAX ==> after.skipped_entries
                == crate::root::skipped_in(walk)
            &&& after.tree.nodes == root.tree.nodes
            &&& after.cursor == root.cursor
            &&& after.auto_record == root.auto_record
        }),
{
    lemma_reads_all(walk);
    lemma_counts_add_up(walk);
    crate::laws::lemma_with_found(root.tree.entries, walk, generation);
    let found = crate::root::with_found(root.tree.entries, walk, generation);
    assert(found.contains_key(path) <==> root.tree.entries.contains_key(path));
    assert(found[path] == root.tree.entries[path]);
}

/// What a refresh found last at a path is there afterwards, with the name, the kind, the size and
/// the time that it was found with.
pub proof fn law_refresh_keeps_what_it_found(
    root: RootView,
    changed: Seq<Seq<char>>,
    walk: Seq<WalkView>,
    generation: i64,
    now: i64,
    path: Seq<char>,
    position: int,
)
    requires
        crate::laws::walked_at(walk, path, position),
        forall|later: int|
            position < later < walk.len() ==> !crate::laws::walked_at(walk, path, later),
    ensures
        ({
            let found = walk[position]->Found_0;
            let after = root.after_refresh(changed, walk, generation, now).tree.entries;
            let entry = after[path];
            &&& after.contains_key(path)
            &&& entry.relative_path == path
            &&& entry.name == found.name
            &&& entry.normalized_name == crate::normalize::normalized(found.name)
            &&& entry.is_directory == found.is_directory
            &&& found.size_bytes <= 0x7fff_ffff_ffff_ffff ==> entry.size_bytes == found.size_bytes
            &&& found.modified_ms is Some && found.modified_ms->0 <= 0x7fff_ffff_ffff_ffff ==> (
            entry.modified_unix_ms matches Some(time) && time == found.modified_ms->0)
            &&& entry.generation == generation
        }),
{
    crate::laws::lemma_last_found(root.tree.entries, walk, generation, path, position);
}

// ---------------------------------------------------------------------------
// Positions in the journal
// ---------------------------------------------------------------------------

/// The journal is read from the position where the last snapshot or the last changes ended.
pub proof fn law_journal_is_read_on_from_where_it_was_left(
    index: IndexView,
    volume: char,
    records: Seq<RecordView>,
    journal_id: u64,
    next_usn: i64,
    now: i64,
    later: i64,
    allow_full_snapshot: bool,
    elapsed_ms: u128,
)
    ensures
        ({
            let name = seq![volume, ':', '/'];
            let read_on = SyncStepView::ReadJournal { volume, journal_id, next_usn };
            let scanned = index.after_snapshot(name, records, journal_id, next_usn, now);
            let (changed, applied) = index.after_delta(name, journal_id, next_usn, records, now);
            let start = SyncEventView::Start;
            &&& all_usable(records) && journal_id != 0 ==> scanned.after_sync(
                volume,
                allow_full_snapshot,
                start,
                later,
                elapsed_ms,
            ) == (scanned, read_on)
            &&& applied == Ok::<bool, SearchErrorView>(true) ==> changed.after_sync(
                volume,
                allow_full_snapshot,
                start,
                later,
                elapsed_ms,
            ) == (changed, read_on)
        }),
{
    let name = seq![volume, ':', '/'];
    lemma_usable(records, records.len());
    crate::root::law_cursor_is_read_back(journal_id, next_usn);
    assert(crate::paths::volume_root(volume) == name);
}

/// Changes that were applied make a root complete and are of their time; nothing else of it but its
/// contents and its position changes. No other root changes.
pub proof fn law_applied_changes_are_recorded(
    index: IndexView,
    name: Seq<char>,
    journal_id: u64,
    next_usn: i64,
    records: Seq<RecordView>,
    now: i64,
    other: Seq<char>,
)
    requires
        index.after_delta(name, journal_id, next_usn, records, now).1 == Ok::<
            bool,
            SearchErrorView,
        >(true),
    ensures
        ({
            let after = index.after_delta(name, journal_id, next_usn, records, now).0;
            let listed = crate::overview::listed_root(name, after.roots[name]);
            &&& index.roots.contains_key(name)
            &&& listed.complete
            &&& listed.skipped_entries == 0
            &&& listed.last_scan_unix_ms == now
            &&& listed.uses_ntfs_usn
            &&& after.roots[name].auto_record == index.roots[name].auto_record
            &&& other != name ==> {
                &&& after.roots.contains_key(other) <==> index.roots.contains_key(other)
                &&& after.roots[other] == index.roots[other]
            }
        }),
{
}

/// Where the journal holds no changes, its position alone moves.
pub proof fn law_no_changes_move_the_position_alone(
    index: IndexView,
    volume: char,
    delta: DeltaView,
    allow_full_snapshot: bool,
    now: i64,
    elapsed_ms: u128,
)
    requires
        delta.records.len() == 0,
        index.roots.contains_key(seq![volume, ':', '/']),
    ensures
        ({
            let name = seq![volume, ':', '/'];
            let (after, step) = index.after_sync(
                volume,
                allow_full_snapshot,
                SyncEventView::Journal(Ok(delta)),
                now,
                elapsed_ms,
            );
            &&& after.position(name) == Some((delta.journal.journal_id, delta.next_usn))
            &&& after.roots.dom() == index.roots.dom()
            &&& after.roots[name] == (RootView {
                cursor: after.roots[name].cursor,
                ..index.roots[name]
            })
            &&& step == SyncStepView::Done(
                Ok(Some(crate::index::report_of(name, index.roots[name], elapsed_ms))),
            )
        }),
{
    let name = seq![volume, ':', '/'];
    assert(crate::paths::volume_root(volume) == name);
    crate::root::law_cursor_is_read_back(delta.journal.journal_id, delta.next_usn);
    let after = index.with_cursor(name, delta.journal.journal_id, delta.next_usn).0;
    assert(after.roots.dom() =~= index.roots.dom());
}

/// A journal that cannot be read leaves the index as it was, and the error names the volume and
/// what was wrong.
pub proof fn law_unread_journal_changes_nothing(
    index: IndexView,
    volume: char,
    error: JournalErrorView,
    allow_full_snapshot: bool,
    now: i64,
    elapsed_ms: u128,
)
    requires
        !(error is Reset),
    ensures
        index.after_sync(
            volume,
            allow_full_snapshot,
            SyncEventView::Journal(Err(error)),
            now,
            elapsed_ms,
        ) == (
            index,
            SyncStepView::Done(
                Err(
                    SearchErrorView::Io {
                        path: seq![volume, ':'],
                        source: match error {
                            JournalErrorView::Io(error) => error.message,
                            JournalErrorView::Parse(error) => error.wording(),
                            JournalErrorView::Reset => Seq::empty(),
                        },
                    },
                ),
            ),
        ),
{
}

/// A root that needs a snapshot is no longer complete nor followed and counts as having skipped
/// something, but keeps its contents. Without such a root nothing changes.
pub proof fn law_marked_root_keeps_its_contents(index: IndexView, name: Seq<char>, now: i64)
    ensures
        !index.roots.contains_key(name) ==> index.marked(name, now) == index,
        index.roots.contains_key(name) ==> {
            let before = index.roots[name];
            let after = index.marked(name, now).roots[name];
            let listed = crate::overview::listed_root(name, after);
            &&& index.marked(name, now).roots.dom() == index.roots.dom()
            &&& after.tree == before.tree
            &&& after.auto_record == before.auto_record
            &&& !listed.complete
            &&& !listed.uses_ntfs_usn
            &&& listed.last_scan_unix_ms == now
            &&& listed.skipped_entries >= 1
            &&& before.skipped_entries >= 1 ==> listed.skipped_entries == before.skipped_entries
            &&& before.skipped_entries < 1 ==> listed.skipped_entries == 1
        },
{
    if index.roots.contains_key(name) {
        assert(index.marked(name, now).roots.dom() =~= index.roots.dom());
    }
}

// ---------------------------------------------------------------------------
// Reports and status
// ---------------------------------------------------------------------------

/// A report counts every entry of its root once, as a file or as a directory, and says of the root
/// what the root says of itself.
pub proof fn law_report_counts_every_entry_once(
    name: Seq<char>,
    root: RootView,
    elapsed_ms: u128,
)
    requires
        root.tree.entries.dom().finite(),
    ensures
        ({
            let report = crate::index::report_of(name, root, elapsed_ms);
            &&& report.indexed_files + report.indexed_directories == root.tree.entries.dom().len()
            &&& report.root == name
            &&& report.elapsed_ms == elapsed_ms
            &&& report.complete == root.complete
            &&& root.skipped_entries >= 0 ==> report.skipped_entries == root.skipped_entries
            &&& root.skipped_entries < 0 ==> report.skipped_entries == 0
        }),
{
    let entries = root.tree.entries;
    let files = crate::index::paths_that_are(entries, false);
    let directories = crate::index::paths_that_are(entries, true);
    assert(files + directories =~= entries.dom());
    assert(files.subset_of(entries.dom()));
    assert(directories.subset_of(entries.dom()));
    vstd::set_lib::lemma_len_subset(files, entries.dom());
    vstd::set_lib::lemma_len_subset(directories, entries.dom());
    vstd::set_lib::lemma_set_disjoint_lens(files, directories);
}

/// One more file counts as one more file, and one more directory as one more directory.
pub proof fn law_report_counts_by_kind(
    name: Seq<char>,
    root: RootView,
    path: Seq<char>,
    entry: EntryView,
    elapsed_ms: u128,
)
    requires
        root.tree.entries.dom().finite(),
        !root.tree.entries.contains_key(path),
    ensures
        ({
            let before = crate::index::report_of(name, root, elapsed_ms);
            let tree = crate::delta::TreeView {
                nodes: root.tree.nodes,
                entries: root.tree.entries.insert(path, entry),
            };
            let after = crate::index::report_of(name, RootView { tree, ..root }, elapsed_ms);
            &&& after.indexed_files - before.indexed_files == if entry.is_directory {
                0int
            } else {
                1
            }
            &&& after.indexed_directories - before.indexed_directories == if entry.is_directory {
                1int
            } else {
                0
            }
        }),
{
    let entries = root.tree.entries;
    let more = entries.insert(path, entry);
    let kind = entry.is_directory;
    let same = crate::index::paths_that_are(entries, kind);
    let others = crate::index::paths_that_are(entries, !kind);
    vstd::set_lib::lemma_len_subset(same, entries.dom());
    vstd::set_lib::lemma_len_subset(others, entries.dom());
    assert(crate::index::paths_that_are(more, kind) =~= same.insert(path));
    assert(crate::index::paths_that_are(more, !kind) =~= others);
}

/// The status counts a root as incomplete exactly if it is, and none where all are complete.
pub proof fn law_status_counts_incomplete_roots(index: IndexView, status: IndexStatus)
    requires
        index.has_status(status),
        index.roots.dom().finite(),
    ensures
        status.roots == index.roots.dom().len(),
        status.incomplete_roots <= status.roots,
        status.incomplete_roots == 0 <==> forall|name: Seq<char>| #[trigger]
            index.roots.contains_key(name) ==> index.roots[name].complete,
        status.incomplete_roots == status.roots <==> forall|name: Seq<char>| #[trigger]
            index.roots.contains_key(name) ==> !index.roots[name].complete,
{
    let incomplete = index.incomplete();
    assert(incomplete.subset_of(index.roots.dom()));
    vstd::set_lib::lemma_len_subset(incomplete, index.roots.dom());
    if status.incomplete_roots == 0 {
        assert(incomplete =~= Set::<Seq<char>>::empty());
        assert forall|name: Seq<char>| #[trigger]
            index.roots.contains_key(name) implies index.roots[name].complete by {
            assert(!incomplete.contains(name));
        }
    }
    if forall|name: Seq<char>| #[trigger]
        index.roots.contains_key(name) ==> index.roots[name].complete {
        assert(incomplete =~= Set::<Seq<char>>::empty());
    }
    if status.incomplete_roots == status.roots {
        vstd::set_lib::lemma_subset_equality(incomplete, index.roots.dom());
        assert forall|name: Seq<char>| #[trigger]
            index.roots.contains_key(name) implies !index.roots[name].complete by {
            assert(incomplete.contains(name));
        }
    }
    if forall|name: Seq<char>| #[trigger]
        index.roots.contains_key(name) ==> !index.roots[name].complete {
        assert(incomplete =~= index.roots.dom());
    }
}

/// The status counts the entries of all roots by their kind: a root that is added adds as many
/// files and directories as its report counts.
pub proof fn law_status_counts_what_reports_count(
    index: IndexView,
    status: IndexStatus,
    name: Seq<char>,
    root: RootView,
    after: IndexStatus,
    elapsed_ms: u128,
)
    requires
        !index.roots.contains_key(name),
        root.tree.entries.dom().finite(),
        index.entries_that_are(false).finite(),
        index.entries_that_are(true).finite(),
        index.has_status(status),
        index.with_root(name, root).has_status(after),
        after.indexed_files < u64::MAX,
        after.indexed_directories < u64::MAX,
    ensures
        ({
            let report = crate::index::report_of(name, root, elapsed_ms);
            &&& after.indexed_files == status.indexed_files + report.indexed_files
            &&& after.indexed_directories == status.indexed_directories + report.indexed_directories
        }),
{
    lemma_entries_of_added_root(index, name, root, false);
    lemma_entries_of_added_root(index, name, root, true);
}

/// An added root adds its own entries.
proof fn lemma_entries_of_added_root(
    index: IndexView,
    name: Seq<char>,
    root: RootView,
    directories: bool,
)
    requires
        !index.roots.contains_key(name),
        root.tree.entries.dom().finite(),
        index.entries_that_are(directories).finite(),
    ensures
        index.with_root(name, root).entries_that_are(directories).len() == index.entries_that_are(
            directories,
        ).len() + crate::index::paths_that_are(root.tree.entries, directories).len(),
{
    let own = crate::index::paths_that_are(root.tree.entries, directories);
    let before = index.entries_that_are(directories);
    let after = index.with_root(name, root).entries_that_are(directories);
    vstd::set_lib::lemma_len_subset(own, root.tree.entries.dom());
    let pair = |path: Seq<char>| (name, path);
    let added = own.map(pair);
    assert forall|a: Seq<char>, b: Seq<char>| own.contains(a) && own.contains(b) && pair(a) == pair(
        b,
    ) implies a == b by {}
    vstd::set_lib::lemma_map_size(own, added, pair);
    assert forall|at: (Seq<char>, Seq<char>)| after.contains(at) implies (before + added).contains(
        at,
    ) by {
        if at.0 == name {
            assert(own.contains(at.1));
            assert(pair(at.1) == at);
            assert(added.contains(at));
        }
    }
    assert(after =~= before + added);
    own.lemma_map_finite(pair);
    vstd::set_lib::lemma_set_disjoint_lens(before, added);
}

/// The automatic states are those of the roots that have one, in the order of the roots.
pub proof fn law_automatic_states_are_listed_in_order(
    names: Seq<Seq<char>>,
    name: Seq<char>,
    roots: Map<Seq<char>, RootView>,
)
    ensures
        roots[name].auto_record is None ==> crate::overview::auto_states(names.push(name), roots)
            == crate::overview::auto_states(names, roots),
        roots[name].auto_record matches Some(record) ==> {
            let states = crate::overview::auto_states(names.push(name), roots);
            &&& states.len() == crate::overview::auto_states(names, roots).len() + 1
            &&& states.drop_last() == crate::overview::auto_states(names, roots)
            &&& states.last().root == name
            &&& states.last().record == record
        },
        crate::overview::auto_states(Seq::empty(), roots).len() == 0,
{
    assert(names.push(name).drop_last() =~= names);
    let states = crate::overview::auto_states(names.push(name), roots);
    if roots[name].auto_record is Some {
        assert(states.drop_last() =~= crate::overview::auto_states(names, roots));
    }
}

// ---------------------------------------------------------------------------
// Turns of the volumes
// ---------------------------------------------------------------------------

/// The roots that are followed are those with a position, complete or not, in their order.
pub proof fn law_roots_with_a_position_are_followed(
    names: Seq<Seq<char>>,
    name: Seq<char>,
    roots: Map<Seq<char>, RootView>,
)
    ensures
        roots[name].cursor is Some ==> crate::sync::followed_roots(names.push(name), roots)
            == crate::sync::followed_roots(names, roots).push(name),
        roots[name].cursor is None ==> crate::sync::followed_roots(names.push(name), roots)
            == crate::sync::followed_roots(names, roots),
        crate::sync::followed_roots(Seq::empty(), roots).len() == 0,
{
    assert(names.push(name).drop_last() =~= names);
}

/// The volumes take their turns in order: after one of them, reported or not, comes the next, and
/// after the last the reports of all.
pub proof fn law_volumes_take_their_turns(
    index: IndexView,
    letter: char,
    names: Seq<Seq<char>>,
    reports: Seq<ReportView>,
    report: ReportView,
    now: i64,
)
    requires
        'A' <= letter <= 'Z' || 'a' <= letter <= 'z',
    ensures
        ({
            let name = seq![letter, ':', '/'];
            let volume = crate::text::ascii_upper(letter);
            let more = VolumesSyncView { names: seq![name] + names, reports };
            let none = VolumesSyncView { names: Seq::empty(), reports };
            &&& index.at_next_volume(more, now) == (
                index,
                VolumesStepView::Synchronise { volume, progress: VolumesSyncView { names, reports } },
            )
            &&& index.after_volume(more, Ok(None), now) == index.at_next_volume(more, now)
            &&& index.after_volume(more, Ok(Some(report)), now) == (
                index,
                VolumesStepView::Synchronise {
                    volume,
                    progress: VolumesSyncView { names, reports: reports.push(report) },
                },
            )
            &&& index.after_volume(none, Ok(None), now) == (
                index,
                VolumesStepView::Done(Ok(reports)),
            )
            &&& index.after_volume(none, Ok(Some(report)), now) == (
                index,
                VolumesStepView::Done(Ok(reports.push(report))),
            )
        }),
{
    let name = seq![letter, ':', '/'];
    assert((seq![name] + names).skip(1) =~= names);
    assert((seq![name] + names)[0] == name);
}

/// Followed roots that are not the root of a volume are marked and passed over.
pub proof fn law_strays_are_marked_and_passed_over(
    index: IndexView,
    name: Seq<char>,
    names: Seq<Seq<char>>,
    reports: Seq<ReportView>,
    now: i64,
)
    requires
        name.len() != 3 || name[1] != ':' || name[2] != '/',
    ensures
        index.at_next_volume(VolumesSyncView { names: seq![name] + names, reports }, now)
            == index.marked(name, now).at_next_volume(VolumesSyncView { names, reports }, now),
{
    assert((seq![name] + names).skip(1) =~= names);
    assert((seq![name] + names)[0] == name);
}

/// Changes of a root that is not there are refused where one of them could not be placed in an
/// empty root, and else fail because there is no such root.
pub proof fn law_changes_need_their_root(
    index: IndexView,
    name: Seq<char>,
    journal_id: u64,
    next_usn: i64,
    record: RecordView,
    now: i64,
)
    requires
        !index.roots.contains_key(name),
    ensures
        ({
            let none = index.after_delta(name, journal_id, next_usn, Seq::empty(), now);
            let one = index.after_delta(name, journal_id, next_usn, seq![record], now);
            let missing = Err::<bool, SearchErrorView>(
                SearchErrorView::Database("FOREIGN KEY constraint failed"@),
            );
            let refused = record.file_reference_number != 5 && !record.is_deleted() && (
            record.parent_file_reference_number != 5 || !crate::paths::valid_component(
                record.name,
            ));
            &&& none.0.roots == index.roots
            &&& none.1 == missing
            &&& one.0.roots == index.roots
            &&& one.1 == (if refused {
                Ok::<bool, SearchErrorView>(false)
            } else {
                missing
            })
        }),
{
    let records = seq![record];
    assert(records.drop_last() =~= Seq::<RecordView>::empty());
    assert(crate::delta::by_usn(Seq::empty()) =~= Seq::<RecordView>::empty());
    assert(crate::delta::by_usn(records) =~= records);
    assert(records.skip(1) =~= Seq::<RecordView>::empty());
    assert(!crate::sync::rejected_without_nodes(Seq::empty()));
    let tree = crate::sync::no_tree();
    if record.parent_file_reference_number == 5 && crate::paths::valid_component(record.name) {
        assert(!record.name.contains('/'));
        crate::path_laws::law_path_is_good_piece_by_piece(record.name, record.name);
    }
    assert(!crate::tables::has_node(tree.nodes, record.parent_file_reference_number));
}

// ---------------------------------------------------------------------------
// What has to be written
// ---------------------------------------------------------------------------

/// An entry has to be written exactly if it is new or differs in anything but its generation.
pub proof fn law_which_entries_are_written(
    before: Map<Seq<char>, EntryView>,
    after: Map<Seq<char>, EntryView>,
    path: Seq<char>,
)
    ensures
        crate::refresh::to_write(before, after, path) <==> after.contains_key(path) && (
        !before.contains_key(path) || ({
            let a = before[path];
            let b = after[path];
            ||| a.relative_path != b.relative_path
            ||| a.name != b.name
            ||| a.normalized_name != b.normalized_name
            ||| a.normalized_path != b.normalized_path
            ||| a.is_directory != b.is_directory
            ||| a.size_bytes != b.size_bytes
            ||| a.modified_unix_ms != b.modified_unix_ms
            ||| a.file_reference_number != b.file_reference_number
        })),
{
}

/// The counts of a walk are those of its files, its directories and what was skipped.
pub proof fn law_counts_are_those_of_the_walk(
    walk: Seq<WalkView>,
    counts: crate::root::WalkCounts,
)
    requires
        crate::root::counts_of(walk, counts),
    ensures
        counts.files + counts.directories + counts.skipped == walk.len(),
        counts.files == crate::root::found_in(walk, false),
        counts.directories == crate::root::found_in(walk, true),
        counts.skipped == 0 <==> reads_all(walk),
{
    lemma_counts_add_up(walk);
    lemma_reads_all(walk);
}

/// Roots are listed by their names in order, each once and none left out, so that there is one such
/// list.
pub proof fn law_roots_are_listed_in_order(
    names: Seq<Seq<char>>,
    others: Seq<Seq<char>>,
    all: Set<Seq<char>>,
    i: int,
    j: int,
)
    requires
        crate::overview::names_in_order(names, all),
        crate::overview::names_in_order(others, all),
        0 <= i < j < names.len(),
    ensures
        crate::text::precedes(names[i], names[j]),
        names[i] != names[j],
        forall|name: Seq<char>| all.contains(name) <==> #[trigger] names.contains(name),
        forall|name: Seq<char>| names.contains(name) <==> #[trigger] others.contains(name),
{
    crate::text::lemma_precedes_irreflexive(names[i]);
    assert forall|name: Seq<char>| all.contains(name) <==> #[trigger] names.contains(name) by {
        if names.contains(name) {
            let k = choose|k: int| 0 <= k < names.len() && names[k] == name;
            assert(all.contains(names[k]));
        }
    }
    assert forall|name: Seq<char>| names.contains(name) <==> #[trigger] others.contains(name) by {
        if others.contains(name) {
            let k = choose|k: int| 0 <= k < others.len() && others[k] == name;
            assert(all.contains(others[k]));
        }
    }
}

// ---------------------------------------------------------------------------
// What a synchronisation tells
// ---------------------------------------------------------------------------

/// Changes that were applied are reported by what the root then holds; changes that were refused
/// call for a snapshot, which in the background is only noted; a failure is told as it is.
pub proof fn law_sync_tells_what_it_applied(
    index: IndexView,
    volume: char,
    delta: DeltaView,
    allow_full_snapshot: bool,
    now: i64,
    elapsed_ms: u128,
)
    requires
        delta.records.len() > 0,
    ensures
        ({
            let name = seq![volume, ':', '/'];
            let (changed, applied) = index.after_delta(
                name,
                delta.journal.journal_id,
                delta.next_usn,
                delta.records,
                now,
            );
            let (after, step) = index.after_sync(
                volume,
                allow_full_snapshot,
                SyncEventView::Journal(Ok(delta)),
                now,
                elapsed_ms,
            );
            &&& applied == Ok::<bool, SearchErrorView>(true) ==> after == changed && step
                == SyncStepView::Done(
                Ok(Some(crate::index::report_of(name, changed.roots[name], elapsed_ms))),
            )
            &&& applied == Ok::<bool, SearchErrorView>(false) && !allow_full_snapshot ==> after
                == changed.marked(name, now) && step == SyncStepView::Done(Ok(None))
            &&& applied matches Err(error) ==> after == changed && step == SyncStepView::Done(
                Err(error),
            )
        }),
{
    assert(crate::paths::volume_root(volume) == seq![volume, ':', '/']);
}

/// Without a position the background only notes that a snapshot is needed, and so it does where the
/// journal was made anew.
pub proof fn law_background_sync_notes_what_is_needed(
    index: IndexView,
    volume: char,
    now: i64,
    elapsed_ms: u128,
)
    ensures
        ({
            let name = seq![volume, ':', '/'];
            let noted = (index.marked(name, now), SyncStepView::Done(Ok(None)));
            let reset = SyncEventView::Journal(Err(JournalErrorView::Reset));
            &&& index.position(name) is None ==> index.after_sync(
                volume,
                false,
                SyncEventView::Start,
                now,
                elapsed_ms,
            ) == noted
            &&& index.after_sync(volume, false, reset, now, elapsed_ms) == noted
        }),
{
    assert(crate::paths::volume_root(volume) == seq![volume, ':', '/']);
}

/// A snapshot that was taken is recorded and reported; one that could not be taken is told, and
/// changes nothing.
pub proof fn law_snapshot_is_reported(
    index: IndexView,
    volume: char,
    snapshot: SnapshotView,
    error: crate::errors::IoErrorView,
    allow_full_snapshot: bool,
    now: i64,
    elapsed_ms: u128,
)
    requires
        forall|i: int|
            0 <= i < snapshot.records.len() ==> (#[trigger] snapshot.records[i]).file_reference_number
                != 5,
    ensures
        ({
            let name = seq![snapshot.volume, ':', '/'];
            &&& index.after_sync(
                volume,
                allow_full_snapshot,
                SyncEventView::Snapshot(Ok(snapshot)),
                now,
                elapsed_ms,
            ) == (
                index.after_snapshot(
                    name,
                    snapshot.records,
                    snapshot.journal_id,
                    snapshot.next_usn,
                    now,
                ),
                SyncStepView::Done(
                    Ok(Some(crate::index::snapshot_report(name, snapshot.records, elapsed_ms))),
                ),
            )
            &&& index.after_sync(
                volume,
                allow_full_snapshot,
                SyncEventView::Snapshot(Err(error)),
                now,
                elapsed_ms,
            ) == (
                index,
                SyncStepView::Done(
                    Err(SearchErrorView::Io { path: seq![volume, ':'], source: error.message }),
                ),
            )
        }),
{
    law_volume_is_scanned_under_its_root(index, volume, snapshot, error, now, elapsed_ms);
}

/// Only of a root that is there a report can be given, and of one that is not the error names it.
pub proof fn law_only_known_roots_are_reported(
    index: IndexView,
    name: Seq<char>,
    elapsed_ms: u128,
)
    ensures
        index.roots.contains_key(name) ==> index.report(name, elapsed_ms) == Ok::<
            ReportView,
            SearchErrorView,
        >(crate::index::report_of(name, index.roots[name], elapsed_ms)),
        !index.roots.contains_key(name) ==> (index.report(name, elapsed_ms) matches Err(
            SearchErrorView::Io { path, source },
        ) && path == name),
{
}

/// The turns begin with the first followed root and without a report.
pub proof fn law_turns_begin_with_the_first_followed_root(
    index: IndexView,
    names: Seq<Seq<char>>,
    now: i64,
)
    ensures
        index.at_first_volume(names, now) == index.at_next_volume(
            VolumesSyncView {
                names: crate::sync::followed_roots(names, index.roots),
                reports: Seq::empty(),
            },
            now,
        ),
        (forall|i: int| 0 <= i < names.len() ==> index.roots[#[trigger] names[i]].cursor is None)
            ==> index.at_first_volume(names, now) == (
            index,
            VolumesStepView::Done(Ok(Seq::empty())),
        ),
{
    if forall|i: int| 0 <= i < names.len() ==> index.roots[#[trigger] names[i]].cursor is None {
        lemma_none_followed(names, index.roots);
    }
}

/// Without a position no root is followed.
proof fn lemma_none_followed(names: Seq<Seq<char>>, roots: Map<Seq<char>, RootView>)
    requires
        forall|i: int| 0 <= i < names.len() ==> roots[#[trigger] names[i]].cursor is None,
    ensures
        crate::sync::followed_roots(names, roots).len() == 0,
    decreases names.len(),
{
    if names.len() > 0 {
        let front = names.drop_last();
        assert forall|i: int| 0 <= i < front.len() implies roots[#[trigger] front[i]].cursor
            is None by {
            assert(front[i] == names[i]);
        }
        lemma_none_followed(front, roots);
        assert(roots[names[names.len() - 1]].cursor is None);
    }
}

/// A node has to be written exactly if it is new or differs in anything.
pub proof fn law_which_nodes_are_written(
    before: Seq<crate::tables::NodeView>,
    after: Seq<crate::tables::NodeView>,
    i: int,
    j: int,
)
    requires
        crate::tables::distinct_nodes(before),
        crate::tables::distinct_nodes(after),
        0 <= i < after.len(),
    ensures
        ({
            let number = after[i].file_reference_number;
            let written = crate::refresh::node_to_write(before, after, number);
            &&& 0 <= j < before.len() && before[j].file_reference_number == number ==> (written
                <==> before[j] != after[i])
            &&& (forall|k: int|
                0 <= k < before.len() ==> (#[trigger] before[k]).file_reference_number != number)
                ==> written
        }),
{
    let number = after[i].file_reference_number;
    assert(crate::tables::node_at(after, number, i));
    crate::tables::lemma_node_position(after, number, i);
    if 0 <= j < before.len() && before[j].file_reference_number == number {
        assert(crate::tables::node_at(before, number, j));
        crate::tables::lemma_node_position(before, number, j);
    }
}

/// A refresh of the index keeps what was found, with what was said of it, takes away what is gone,
/// and touches no other root; without such a root nothing changes.
pub proof fn law_refresh_touches_one_root(
    index: IndexView,
    name: Seq<char>,
    changed: Seq<Seq<char>>,
    walk: Seq<WalkView>,
    now: i64,
    path: Seq<char>,
    other: Seq<char>,
)
    requires
        index.generations_bounded(),
        index.last_generation < i64::MAX,
        index.roots.contains_key(name) && index.roots[name].tree.entries.contains_key(path)
            ==> index.roots[name].tree.entries[path].relative_path == path,
        !crate::laws::walked(walk, path),
    ensures
        ({
            let after = index.after_refresh(name, changed, walk, now);
            let below = exists|i: int|
                0 <= i < changed.len() && ((#[trigger] changed[i]).len() == 0
                    || crate::paths::in_subtree(path, changed[i]));
            &&& !index.roots.contains_key(name) ==> after == index
            &&& index.roots.contains_key(name) ==> {
                let before = index.roots[name];
                let root = after.roots[name];
                &&& root.tree.entries.contains_key(path) <==> before.tree.entries.contains_key(path)
                    && !(below && reads_all(walk))
                &&& root.complete <==> before.complete && reads_all(walk)
                &&& root.last_scan_unix_ms == now
                &&& root.cursor == before.cursor
            }
            &&& other != name ==> {
                &&& after.roots.contains_key(other) <==> index.roots.contains_key(other)
                &&& after.roots[other] == index.roots[other]
            }
        }),
{
    if index.roots.contains_key(name) {
        let generation = index.with_next_generation(now).last_generation;
        if index.roots[name].tree.entries.contains_key(path) {
            crate::laws::law_next_generation_is_fresh(index, now, name, path);
        }
        law_refresh_takes_what_is_gone(index.roots[name], changed, walk, generation, now, path);
    }
}

} // verus!

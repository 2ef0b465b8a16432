//! What the views say of the values that they are views of.
use crate::errors::{IoError, IoErrorView, SearchError, SearchErrorView};
use crate::index::ScanReport;
use crate::ntfs::UsnRecord;
use crate::overview::{AutoVolumeState, IndexedRoot};
use crate::root::{FoundEntry, RootTable, StoredCursor, WalkItem, WalkView};
use crate::search::{SearchItem, SearchRequest};
use crate::tables::{Entry, NtfsNode};
use crate::volume::{JournalDelta, MftSnapshot};
use vstd::prelude::*;

verus! {

/// A request is seen with its words, its limit and its boundary.
pub proof fn law_view_of_a_request(request: SearchRequest)
    ensures
        request@.query == request.query@,
        request@.limit == request.limit,
        request.root is None ==> request@.root is None,
        request.root matches Some(root) ==> request@.root == Some(root@),
{
}

/// A result is seen with its path, its name, its kind, its whole size and its time.
pub proof fn law_view_of_a_result(item: SearchItem)
    ensures
        item@.path == item.path@,
        item@.name == item.name@,
        item@.is_directory == item.is_directory,
        item@.size_bytes == item.size_bytes,
        item@.modified_unix_ms == item.modified_unix_ms,
{
}

/// An entry is seen with all that it has.
pub proof fn law_view_of_an_entry(entry: Entry)
    ensures
        entry@.relative_path == entry.relative_path@,
        entry@.name == entry.name@,
        entry@.normalized_name == entry.normalized_name@,
        entry@.normalized_path == entry.normalized_path@,
        entry@.is_directory == entry.is_directory,
        entry@.size_bytes == entry.size_bytes,
        entry@.modified_unix_ms == entry.modified_unix_ms,
        entry@.generation == entry.generation,
        entry@.file_reference_number == entry.file_reference_number,
{
}

/// A node is seen with all that it has.
pub proof fn law_view_of_a_node(node: NtfsNode)
    ensures
        node@.file_reference_number == node.file_reference_number,
        node@.parent_file_reference_number == node.parent_file_reference_number,
        node@.relative_path == node.relative_path@,
        node@.name == node.name@,
        node@.is_directory == node.is_directory,
        node@.modified_unix_ms == node.modified_unix_ms,
{
}

/// A record is seen with all that it has.
pub proof fn law_view_of_a_record(record: UsnRecord)
    ensures
        record@.file_reference_number == record.file_reference_number,
        record@.parent_file_reference_number == record.parent_file_reference_number,
        record@.usn == record.usn,
        record@.timestamp_filetime == record.timestamp_filetime,
        record@.reason == record.reason,
        record@.file_attributes == record.file_attributes,
        record@.name == record.name@,
{
}

/// What was found is seen with its path, its name, its kind, its size and its time; what was
/// skipped is seen as skipped.
pub proof fn law_view_of_a_walk(found: FoundEntry)
    ensures
        found@.relative_path == found.relative_path@,
        found@.name == found.name@,
        found@.is_directory == found.is_directory,
        found@.size_bytes == found.size_bytes,
        found@.modified_ms == found.modified_ms,
        WalkItem::Found(found)@ == WalkView::Found(found@),
        WalkItem::Skipped@ is Skipped,
{
}

/// A root is seen with its time, its completeness, its position and its record.
pub proof fn law_view_of_a_root(root: RootTable, cursor: StoredCursor)
    ensures
        root@.last_scan_unix_ms == root.last_scan_unix_ms,
        root@.complete == root.complete,
        root@.skipped_entries == root.skipped_entries,
        root@.auto_record == root.auto_record,
        root@.tree.nodes == root.tree.nodes@,
        root@.tree.entries == root.tree.entries@,
        (root@.cursor is Some) == (root.cursor is Some),
        root.cursor == Some(cursor) ==> root@.cursor == Some(cursor@),
        cursor@.journal_id == cursor.journal_id@,
        cursor@.next_usn == cursor.next_usn@,
{
}

/// A listed root and the state of a volume are seen with all that they have.
pub proof fn law_view_of_a_listed_root(listed: IndexedRoot, state: AutoVolumeState)
    ensures
        listed@.root == listed.root@,
        listed@.last_scan_unix_ms == listed.last_scan_unix_ms,
        listed@.complete == listed.complete,
        listed@.skipped_entries == listed.skipped_entries,
        listed@.uses_ntfs_usn == listed.uses_ntfs_usn,
        state@.root == state.root@,
        state@.record.last_reconcile_unix_ms == state.last_reconcile_unix_ms,
        state@.record.uses_ntfs_usn == state.uses_ntfs_usn,
{
}

/// A report is seen with all that it counts.
pub proof fn law_view_of_a_report(report: ScanReport)
    ensures
        report@.root == report.root@,
        report@.indexed_files == report.indexed_files,
        report@.indexed_directories == report.indexed_directories,
        report@.skipped_entries == report.skipped_entries,
        report@.complete == report.complete,
        report@.elapsed_ms == report.elapsed_ms,
{
}

/// What a volume gave is seen with its journal, its position and its records in their order.
pub proof fn law_view_of_what_a_volume_gave(snapshot: MftSnapshot, delta: JournalDelta, i: int)
    ensures
        snapshot@.volume == snapshot.volume,
        snapshot@.journal_id == snapshot.journal_id,
        snapshot@.next_usn == snapshot.next_usn,
        snapshot@.records.len() == snapshot.records@.len(),
        0 <= i < snapshot.records@.len() ==> snapshot@.records[i] == snapshot.records@[i]@,
        delta@.journal == delta.journal,
        delta@.next_usn == delta.next_usn,
        delta@.records.len() == delta.records@.len(),
        0 <= i < delta.records@.len() ==> delta@.records[i] == delta.records@[i]@,
{
}

/// An error is seen with what it is and what it says.
pub proof fn law_view_of_an_error(error: SearchError, io: IoError)
    ensures
        match error {
            SearchError::Database(detail) => error@ == SearchErrorView::Database(detail@),
            SearchError::Io { path, source } => error@ == (SearchErrorView::Io {
                path: path@,
                source: source@,
            }),
            SearchError::NotDirectory(path) => error@ == SearchErrorView::NotDirectory(path@),
            SearchError::EmptyQuery => error@ is EmptyQuery,
            SearchError::QueryTooLong => error@ is QueryTooLong,
            SearchError::TooManyTerms => error@ is TooManyTerms,
        },
        io@.kind == io.kind,
        io@.code == io.code,
        io@.message == io.message@,
{
}

/// A list is seen item by item, none left out and in the same order.
pub proof fn law_views_of_lists(
    items: Seq<SearchItem>,
    records: Seq<UsnRecord>,
    walk: Seq<WalkItem>,
    listed: Seq<IndexedRoot>,
    states: Seq<AutoVolumeState>,
    reports: Seq<ScanReport>,
    texts: Seq<String>,
    i: int,
)
    ensures
        crate::search::item_views(items).len() == items.len(),
        0 <= i < items.len() ==> crate::search::item_views(items)[i] == items[i]@,
        crate::ntfs::record_views(records).len() == records.len(),
        0 <= i < records.len() ==> crate::ntfs::record_views(records)[i] == records[i]@,
        crate::root::walk_views(walk).len() == walk.len(),
        0 <= i < walk.len() ==> crate::root::walk_views(walk)[i] == walk[i]@,
        crate::overview::listed_views(listed).len() == listed.len(),
        0 <= i < listed.len() ==> crate::overview::listed_views(listed)[i] == listed[i]@,
        crate::overview::auto_views(states).len() == states.len(),
        0 <= i < states.len() ==> crate::overview::auto_views(states)[i] == states[i]@,
        crate::json::report_views(reports).len() == reports.len(),
        0 <= i < reports.len() ==> crate::json::report_views(reports)[i] == reports[i]@,
        crate::text::views(texts).len() == texts.len(),
        0 <= i < texts.len() ==> crate::text::views(texts)[i] == texts[i]@,
{
}

/// A success is seen as a success and a failure as a failure, each with what it holds.
pub proof fn law_views_of_outcomes(
    text: String,
    error: SearchError,
    problem: String,
    items: Vec<SearchItem>,
    report: ScanReport,
    io: IoError,
    bytes: Vec<u8>,
)
    ensures
        crate::json::text_option(Some(text)) == Some(text@),
        crate::json::text_option(None) is None,
        crate::json::text_result(Ok(text)) == Ok::<Seq<char>, Seq<char>>(text@),
        crate::json::text_result(Err(problem)) == Err::<Seq<char>, Seq<char>>(problem@),
        crate::json::written_result(Ok(text)) == Ok::<Seq<char>, SearchErrorView>(text@),
        crate::json::written_result(Err(error)) == Err::<Seq<char>, SearchErrorView>(error@),
        crate::search::items_result(Ok(items)) == Ok::<
            Seq<crate::search::ItemView>,
            SearchErrorView,
        >(crate::search::item_views(items@)),
        crate::search::items_result(Err(error)) == Err::<
            Seq<crate::search::ItemView>,
            SearchErrorView,
        >(error@),
        crate::index::report_result(Ok(report)) == Ok::<crate::index::ReportView, SearchErrorView>(
            report@,
        ),
        crate::index::report_result(Err(error)) == Err::<crate::index::ReportView, SearchErrorView>(
            error@,
        ),
        crate::volume::reply_view(Ok(bytes)) == Ok::<Seq<u8>, IoErrorView>(bytes@),
        crate::volume::reply_view(Err(io)) == Err::<Seq<u8>, IoErrorView>(io@),
        crate::volume::io_view::<bool>(Ok(true)) == Ok::<bool, IoErrorView>(true),
        crate::volume::io_view::<bool>(Err(io)) == Err::<bool, IoErrorView>(io@),
        crate::sync::search_view::<bool>(Ok(true)) == Ok::<bool, SearchErrorView>(true),
        crate::sync::search_view::<bool>(Err(error)) == Err::<bool, SearchErrorView>(error@),
        crate::pipe::message_result(Ok(bytes)) == Ok::<Seq<u8>, IoErrorView>(bytes@),
        crate::pipe::message_result(Err(io)) == Err::<Seq<u8>, IoErrorView>(io@),
        crate::startup::path_result(Ok(text)) == Ok::<Seq<char>, IoErrorView>(text@),
        crate::startup::path_result(Err(io)) == Err::<Seq<char>, IoErrorView>(io@),
{
}

} // verus!

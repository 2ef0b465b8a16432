//! Following the changes of indexed volumes.
use crate::delta::{sort_by_usn, Tree, TreeView};
use crate::errors::{IoError, IoErrorView, SearchError, SearchErrorView};
use crate::index::{missing_root_error, IndexView, ReportView, ScanReport, SearchIndex};
use crate::ntfs::{is_deleted, RecordView, UsnRecord, ROOT_FILE_REFERENCE};
use crate::paths::{name_of_volume, root_of_volume, volume_from_ntfs_root};
use crate::root::{RootView, StoredCursor};
use crate::tables::{EntryTable, NodeTable};
use crate::text::to_ascii_upper;
use crate::volume::{
    DeltaView, JournalDelta, JournalErrorView, JournalInfo, JournalReadError, MftSnapshot,
    SnapshotView,
};
use vstd::prelude::*;

verus! {

/// The tree of a root that does not exist.
pub open spec fn no_tree() -> TreeView {
    TreeView { nodes: Seq::empty(), entries: Map::empty() }
}

/// Whether the first change that would have to be stored cannot be placed in a tree without nodes.
pub open spec fn rejected_without_nodes(records: Seq<RecordView>) -> bool
    decreases records.len(),
{
    if records.len() == 0 {
        false
    } else if records[0].file_reference_number == ROOT_FILE_REFERENCE || records[0].is_deleted() {
        rejected_without_nodes(records.skip(1))
    } else {
        no_tree().target_path(records[0]) is None
    }
}

impl IndexView {
    /// The index after a list of changes of a volume, and whether they were applied. Changes of
    /// which one cannot be placed leave the roots as they are; so do those of an unknown root.
    pub open spec fn after_delta(
        self,
        name: Seq<char>,
        journal_id: u64,
        next_usn: i64,
        records: Seq<RecordView>,
        now: i64,
    ) -> (IndexView, Result<bool, SearchErrorView>) {
        let advanced = self.with_next_generation(now);
        if self.roots.contains_key(name) {
            match self.roots[name].after_delta(
                journal_id,
                next_usn,
                records,
                advanced.last_generation,
                now,
            ) {
                Some(root) => (advanced.with_root(name, root), Ok(true)),
                None => (advanced, Ok(false)),
            }
        } else if rejected_without_nodes(crate::delta::by_usn(records)) {
            (advanced, Ok(false))
        } else {
            (advanced, Err(crate::index::missing_root()))
        }
    }

    /// The index with a new position of the journal for a root.
    pub open spec fn with_cursor(self, name: Seq<char>, journal_id: u64, next_usn: i64) -> (
        IndexView,
        Result<(), SearchErrorView>,
    ) {
        if self.roots.contains_key(name) {
            (
                self.with_root(
                    name,
                    RootView {
                        cursor: Some(crate::root::cursor_at(journal_id, next_usn)),
                        ..self.roots[name]
                    },
                ),
                Ok(()),
            )
        } else {
            (self, Err(crate::index::missing_root()))
        }
    }

    /// The index with a root marked as one whose changes can no longer be followed.
    pub open spec fn marked(self, name: Seq<char>, now: i64) -> IndexView {
        if self.roots.contains_key(name) {
            self.with_root(name, self.roots[name].needing_snapshot(now))
        } else {
            self
        }
    }
}

/// The view of a result whose value is plain.
pub open spec fn search_view<T>(result: Result<T, SearchError>) -> Result<T, SearchErrorView> {
    match result {
        Ok(value) => Ok(value),
        Err(error) => Err(error@),
    }
}

/// Whether the first change that would have to be stored cannot be placed in a tree without nodes.
fn is_rejected_without_nodes(records: &Vec<UsnRecord>) -> (rejected: bool)
    ensures
        rejected == rejected_without_nodes(crate::ntfs::record_views(records@)),
{
    let ghost views = crate::ntfs::record_views(records@);
    let tree = Tree { nodes: NodeTable::new(), entries: EntryTable::new() };
    let mut i: usize = 0;
    assert(views.skip(0) =~= views);
    while i < records.len()
        invariant
            i <= records.len(),
            views == crate::ntfs::record_views(records@),
            tree.wf(),
            tree@ == no_tree(),
            rejected_without_nodes(views) == rejected_without_nodes(views.skip(i as int)),
        decreases records.len() - i,
    {
        let ghost rest = views.skip(i as int);
        assert(rest[0] == records@[i as int]@);
        assert(rest.skip(1) =~= views.skip(i + 1));
        if records[i].file_reference_number != ROOT_FILE_REFERENCE && !is_deleted(&records[i]) {
            return tree.place(&records[i]).is_none();
        }
        i += 1;
    }
    false
}

impl SearchIndex {
    /// Applies the changes of a volume in the order of the journal, all or none. `false` says that
    /// the parent, the path or the target of one of them is in doubt; a snapshot then has to bring
    /// the root into line.
    pub fn apply_ntfs_delta(
        &mut self,
        root: &str,
        journal: JournalInfo,
        next_usn: i64,
        records: Vec<UsnRecord>,
        now: i64,
    ) -> (applied: Result<bool, SearchError>)
        requires
            old(self).wf(),
        ensures
            final(self).wf(),
            final(self).path() == old(self).path(),
            (final(self)@, search_view(applied)) == old(self)@.after_delta(
                root@,
                journal.journal_id,
                next_usn,
                crate::ntfs::record_views(records@),
                now,
            ),
    {
        let ghost before = self@;
        let generation: i64 = self.advance(now);
        if self.root(root).is_none() {
            let mut records = records;
            sort_by_usn(&mut records);
            if is_rejected_without_nodes(&records) {
                return Ok(false);
            }
            return Err(missing_root_error());
        }
        let ghost advanced = self@;
        let mut table = self.take_root(root, now);
        let applied: bool = table.take_delta(
            journal.journal_id,
            next_usn,
            records,
            generation,
            now,
        );
        self.put_root(table);
        proof {
            if applied {
                assert(self@.roots =~= advanced.roots.insert(root@, table@));
            } else {
                assert(self@.roots =~= advanced.roots);
            }
        }
        Ok(applied)
    }

    /// Stores a new position of the journal for a root.
    pub fn update_ntfs_cursor(&mut self, root: &str, journal_id: u64, next_usn: i64) -> (result:
        Result<(), SearchError>)
        requires
            old(self).wf(),
        ensures
            final(self).wf(),
            final(self).path() == old(self).path(),
            (final(self)@, search_view(result)) == old(self)@.with_cursor(
                root@,
                journal_id,
                next_usn,
            ),
    {
        let ghost before = self@;
        if self.root(root).is_none() {
            return Err(missing_root_error());
        }
        let mut table = self.take_root(root, 0);
        table.cursor = Some(StoredCursor::new(journal_id, next_usn));
        self.put_root(table);
        assert(self@.roots =~= before.roots.insert(root@, table@));
        Ok(())
    }

    /// Marks a root as one whose changes can no longer be followed.
    pub fn mark_ntfs_requires_snapshot(&mut self, root: &str, now: i64)
        requires
            old(self).wf(),
        ensures
            final(self).wf(),
            final(self).path() == old(self).path(),
            final(self)@ == old(self)@.marked(root@, now),
    {
        let ghost before = self@;
        if self.root(root).is_none() {
            return;
        }
        let mut table = self.take_root(root, now);
        table.require_snapshot(now);
        self.put_root(table);
        assert(self@.roots =~= before.roots.insert(root@, table@));
    }
}

// ---------------------------------------------------------------------------
// One synchronisation
// ---------------------------------------------------------------------------

/// What a synchronisation learns.
#[derive(Debug)]
pub enum SyncEvent {
    /// It begins.
    Start,
    /// The journal was read from the asked position.
    Journal(Result<JournalDelta, JournalReadError>),
    /// The whole volume was read.
    Snapshot(Result<MftSnapshot, IoError>),
}

/// What a [`SyncEvent`] says.
pub enum SyncEventView {
    Start,
    Journal(Result<DeltaView, JournalErrorView>),
    Snapshot(Result<SnapshotView, IoErrorView>),
}

impl View for SyncEvent {
    type V = SyncEventView;

    open spec fn view(&self) -> SyncEventView {
        match *self {
            SyncEvent::Start => SyncEventView::Start,
            SyncEvent::Journal(Ok(delta)) => SyncEventView::Journal(Ok(delta@)),
            SyncEvent::Journal(Err(error)) => SyncEventView::Journal(Err(error@)),
            SyncEvent::Snapshot(result) => SyncEventView::Snapshot(
                crate::index::snapshot_result(result),
            ),
        }
    }
}

/// What a synchronisation does next.
#[derive(Debug)]
pub enum SyncStep {
    /// The journal of a volume is to be read from a position.
    ReadJournal { volume: char, journal_id: u64, next_usn: i64 },
    /// The whole volume is to be read.
    TakeSnapshot { volume: char },
    /// It is over. There is no report where the root was only marked.
    Done(Result<Option<ScanReport>, SearchError>),
}

/// What a [`SyncStep`] says.
pub enum SyncStepView {
    ReadJournal { volume: char, journal_id: u64, next_usn: i64 },
    TakeSnapshot { volume: char },
    Done(Result<Option<ReportView>, SearchErrorView>),
}

impl View for SyncStep {
    type V = SyncStepView;

    open spec fn view(&self) -> SyncStepView {
        match *self {
            SyncStep::ReadJournal { volume, journal_id, next_usn } => SyncStepView::ReadJournal {
                volume,
                journal_id,
                next_usn,
            },
            SyncStep::TakeSnapshot { volume } => SyncStepView::TakeSnapshot { volume },
            SyncStep::Done(Ok(Some(report))) => SyncStepView::Done(Ok(Some(report@))),
            SyncStep::Done(Ok(None)) => SyncStepView::Done(Ok(None)),
            SyncStep::Done(Err(error)) => SyncStepView::Done(Err(error@)),
        }
    }
}

/// The end of a synchronisation with a report or an error.
pub open spec fn reported(report: Result<ReportView, SearchErrorView>) -> SyncStepView {
    SyncStepView::Done(
        match report {
            Ok(report) => Ok(Some(report)),
            Err(error) => Err(error),
        },
    )
}

impl IndexView {
    /// What follows where changes do not lead to the present state: a snapshot where one may be
    /// taken, and otherwise a mark.
    pub open spec fn snapshot_required(
        self,
        volume: char,
        allow_full_snapshot: bool,
        now: i64,
    ) -> (IndexView, SyncStepView) {
        if allow_full_snapshot {
            (self, SyncStepView::TakeSnapshot { volume })
        } else {
            (
                self.marked(crate::paths::volume_root(volume), now),
                SyncStepView::Done(Ok(None)),
            )
        }
    }

    /// The position from which the journal of a root is to be read.
    pub open spec fn position(self, name: Seq<char>) -> Option<(u64, i64)> {
        if self.roots.contains_key(name) {
            match self.roots[name].cursor {
                Some(cursor) => cursor.position(),
                None => None,
            }
        } else {
            None
        }
    }

    /// One step of a synchronisation of a volume, whose letter is in upper case.
    pub open spec fn after_sync(
        self,
        volume: char,
        allow_full_snapshot: bool,
        event: SyncEventView,
        now: i64,
        elapsed_ms: u128,
    ) -> (IndexView, SyncStepView) {
        let name = crate::paths::volume_root(volume);
        match event {
            SyncEventView::Start => match self.position(name) {
                Some((journal_id, next_usn)) => (
                    self,
                    SyncStepView::ReadJournal { volume, journal_id, next_usn },
                ),
                None => self.snapshot_required(volume, allow_full_snapshot, now),
            },
            SyncEventView::Journal(Err(JournalErrorView::Reset)) => self.snapshot_required(
                volume,
                allow_full_snapshot,
                now,
            ),
            SyncEventView::Journal(Err(JournalErrorView::Io(error))) => (
                self,
                SyncStepView::Done(Err(crate::index::volume_error(volume, error.message))),
            ),
            SyncEventView::Journal(Err(JournalErrorView::Parse(error))) => (
                self,
                SyncStepView::Done(Err(crate::index::volume_error(volume, error.wording()))),
            ),
            SyncEventView::Journal(Ok(delta)) => {
                if delta.records.len() == 0 {
                    let (index, result) = self.with_cursor(
                        name,
                        delta.journal.journal_id,
                        delta.next_usn,
                    );
                    match result {
                        Err(error) => (index, SyncStepView::Done(Err(error))),
                        Ok(_) => (index, reported(index.report(name, elapsed_ms))),
                    }
                } else {
                    let (index, result) = self.after_delta(
                        name,
                        delta.journal.journal_id,
                        delta.next_usn,
                        delta.records,
                        now,
                    );
                    match result {
                        Err(error) => (index, SyncStepView::Done(Err(error))),
                        Ok(true) => (index, reported(index.report(name, elapsed_ms))),
                        Ok(false) => index.snapshot_required(volume, allow_full_snapshot, now),
                    }
                }
            },
            SyncEventView::Snapshot(snapshot) => {
                let (index, report) = self.after_volume_scan(volume, snapshot, now, elapsed_ms);
                (index, reported(report))
            },
        }
    }
}

/// The end of a synchronisation with a report or an error.
fn done(report: Result<ScanReport, SearchError>) -> (step: SyncStep)
    ensures
        step@ == reported(crate::index::report_result(report)),
{
    match report {
        Ok(report) => SyncStep::Done(Ok(Some(report))),
        Err(error) => SyncStep::Done(Err(error)),
    }
}

impl SearchIndex {
    /// What follows where changes do not lead to the present state.
    fn handle_ntfs_snapshot_required(
        &mut self,
        volume: char,
        allow_full_snapshot: bool,
        now: i64,
    ) -> (step: SyncStep)
        requires
            old(self).wf(),
        ensures
            final(self).wf(),
            final(self).path() == old(self).path(),
            (final(self)@, step@) == old(self)@.snapshot_required(
                volume,
                allow_full_snapshot,
                now,
            ),
    {
        if allow_full_snapshot {
            SyncStep::TakeSnapshot { volume }
        } else {
            self.mark_ntfs_requires_snapshot(root_of_volume(volume).as_str(), now);
            SyncStep::Done(Ok(None))
        }
    }

    /// Takes one step of a synchronisation of a volume: what to do next, given what was learnt.
    /// Where the journal was replaced or cut off, or a change cannot be placed, the whole volume is
    /// read again if that is allowed; otherwise its root is marked and nothing is guessed.
    pub fn sync_ntfs_volume(
        &mut self,
        volume: char,
        allow_full_snapshot: bool,
        event: SyncEvent,
        now: i64,
        elapsed_ms: u128,
    ) -> (step: SyncStep)
        requires
            old(self).wf(),
        ensures
            final(self).wf(),
            final(self).path() == old(self).path(),
            (final(self)@, step@) == old(self)@.after_sync(
                crate::text::ascii_upper(volume),
                allow_full_snapshot,
                event@,
                now,
                elapsed_ms,
            ),
    {
        let volume: char = to_ascii_upper(volume);
        let root = root_of_volume(volume);
        match event {
            SyncEvent::Start => {
                let position: Option<(u64, i64)> = match self.root(root.as_str()) {
                    None => None,
                    Some(table) => match &table.cursor {
                        None => None,
                        Some(cursor) => cursor.position(),
                    },
                };
                match position {
                    Some((journal_id, next_usn)) => SyncStep::ReadJournal {
                        volume,
                        journal_id,
                        next_usn,
                    },
                    None => self.handle_ntfs_snapshot_required(volume, allow_full_snapshot, now),
                }
            },
            SyncEvent::Journal(Err(JournalReadError::Reset)) => {
                self.handle_ntfs_snapshot_required(volume, allow_full_snapshot, now)
            },
            SyncEvent::Journal(Err(JournalReadError::Io(error))) => SyncStep::Done(
                Err(SearchError::Io { path: name_of_volume(volume), source: error.message }),
            ),
            SyncEvent::Journal(Err(JournalReadError::Parse(error))) => SyncStep::Done(
                Err(SearchError::Io { path: name_of_volume(volume), source: error.message() }),
            ),
            SyncEvent::Journal(Ok(delta)) => {
                if delta.records.len() == 0 {
                    return match self.update_ntfs_cursor(
                        root.as_str(),
                        delta.journal.journal_id,
                        delta.next_usn,
                    ) {
                        Err(error) => SyncStep::Done(Err(error)),
                        Ok(_) => done(self.report_for_root(root.as_str(), elapsed_ms)),
                    };
                }
                match self.apply_ntfs_delta(
                    root.as_str(),
                    delta.journal,
                    delta.next_usn,
                    delta.records,
                    now,
                ) {
                    Err(error) => SyncStep::Done(Err(error)),
                    Ok(true) => done(self.report_for_root(root.as_str(), elapsed_ms)),
                    Ok(false) => {
                        self.handle_ntfs_snapshot_required(volume, allow_full_snapshot, now)
                    },
                }
            },
            SyncEvent::Snapshot(snapshot) => done(
                self.scan_ntfs_volume(volume, snapshot, now, elapsed_ms),
            ),
        }
    }
}

// ---------------------------------------------------------------------------
// The synchronisation of all volumes
// ---------------------------------------------------------------------------

/// How far a synchronisation of all followed volumes has come.
#[derive(Debug)]
pub struct VolumesSync {
    /// The names of the followed roots whose turn is still to come.
    names: Vec<String>,
    /// What was reported so far.
    reports: Vec<ScanReport>,
}

/// What a [`VolumesSync`] says.
pub struct VolumesSyncView {
    pub names: Seq<Seq<char>>,
    pub reports: Seq<ReportView>,
}

impl View for VolumesSync {
    type V = VolumesSyncView;

    closed spec fn view(&self) -> VolumesSyncView {
        VolumesSyncView {
            names: crate::text::views(self.names@),
            reports: crate::json::report_views(self.reports@),
        }
    }
}

/// What a synchronisation of all followed volumes learns.
#[derive(Debug)]
pub enum VolumesEvent {
    /// It begins.
    Start,
    /// The synchronisation of a volume is over.
    Synchronised { progress: VolumesSync, result: Result<Option<ScanReport>, SearchError> },
}

/// What a [`VolumesEvent`] says.
pub enum VolumesEventView {
    Start,
    Synchronised {
        progress: VolumesSyncView,
        result: Result<Option<ReportView>, SearchErrorView>,
    },
}

impl View for VolumesEvent {
    type V = VolumesEventView;

    open spec fn view(&self) -> VolumesEventView {
        match *self {
            VolumesEvent::Start => VolumesEventView::Start,
            VolumesEvent::Synchronised { progress, result } => VolumesEventView::Synchronised {
                progress: progress@,
                result: match result {
                    Ok(Some(report)) => Ok(Some(report@)),
                    Ok(None) => Ok(None),
                    Err(error) => Err(error@),
                },
            },
        }
    }
}

/// What a synchronisation of all followed volumes does next.
#[derive(Debug)]
pub enum VolumesStep {
    /// A volume is to be synchronised, without a snapshot.
    Synchronise { volume: char, progress: VolumesSync },
    /// It is over.
    Done(Result<Vec<ScanReport>, SearchError>),
}

/// What a [`VolumesStep`] says.
pub enum VolumesStepView {
    Synchronise { volume: char, progress: VolumesSyncView },
    Done(Result<Seq<ReportView>, SearchErrorView>),
}

impl View for VolumesStep {
    type V = VolumesStepView;

    open spec fn view(&self) -> VolumesStepView {
        match *self {
            VolumesStep::Synchronise { volume, progress } => VolumesStepView::Synchronise {
                volume,
                progress: progress@,
            },
            VolumesStep::Done(Ok(reports)) => VolumesStepView::Done(
                Ok(crate::json::report_views(reports@)),
            ),
            VolumesStep::Done(Err(error)) => VolumesStepView::Done(Err(error@)),
        }
    }
}

/// Those of the named roots whose changes are followed.
pub open spec fn followed_roots(
    names: Seq<Seq<char>>,
    roots: Map<Seq<char>, RootView>,
) -> Seq<Seq<char>>
    decreases names.len(),
{
    if names.len() == 0 {
        Seq::empty()
    } else {
        let front = followed_roots(names.drop_last(), roots);
        if roots[names.last()].cursor is Some {
            front.push(names.last())
        } else {
            front
        }
    }
}

impl IndexView {
    /// The index when the next volume has its turn. A root that stands for no volume is marked when
    /// its turn comes.
    pub open spec fn at_next_volume(self, progress: VolumesSyncView, now: i64) -> (
        IndexView,
        VolumesStepView,
    )
        decreases progress.names.len(),
    {
        let rest = VolumesSyncView {
            names: progress.names.skip(1),
            reports: progress.reports,
        };
        if progress.names.len() == 0 {
            (self, VolumesStepView::Done(Ok(progress.reports)))
        } else {
            match crate::paths::root_letter(progress.names[0]) {
                Some(volume) => (
                    self,
                    VolumesStepView::Synchronise { volume, progress: rest },
                ),
                None => self.marked(progress.names[0], now).at_next_volume(rest, now),
            }
        }
    }

    /// The index when a volume was synchronised. An error ends the synchronisation of all volumes,
    /// and the roots whose turn is still to come stay as they are.
    pub open spec fn after_volume(
        self,
        progress: VolumesSyncView,
        result: Result<Option<ReportView>, SearchErrorView>,
        now: i64,
    ) -> (IndexView, VolumesStepView) {
        match result {
            Err(error) => (self, VolumesStepView::Done(Err(error))),
            Ok(None) => self.at_next_volume(progress, now),
            Ok(Some(report)) => self.at_next_volume(
                VolumesSyncView { names: progress.names, reports: progress.reports.push(report) },
                now,
            ),
        }
    }

    /// The index when the synchronisation of all followed volumes begins, given the names of all
    /// roots in their order.
    pub open spec fn at_first_volume(self, names: Seq<Seq<char>>, now: i64) -> (
        IndexView,
        VolumesStepView,
    ) {
        self.at_next_volume(
            VolumesSyncView {
                names: followed_roots(names, self.roots),
                reports: Seq::empty(),
            },
            now,
        )
    }
}

impl SearchIndex {
    /// The names of the roots whose changes are followed, in their order.
    fn names_of_followed_roots(&self) -> (names: Vec<String>)
        requires
            self.wf(),
        ensures
            exists|all: Seq<Seq<char>>| #[trigger]
                crate::overview::names_in_order(all, self@.roots.dom()) && crate::text::views(
                    names@,
                ) == followed_roots(all, self@.roots),
    {
        let all = self.root_names();
        let ghost order = crate::text::views(all@);
        let mut names: Vec<String> = Vec::new();
        let mut i: usize = 0;
        assert(crate::text::views(names@) =~= Seq::empty());
        while i < all.len()
            invariant
                i <= all.len(),
                order == crate::text::views(all@),
                self.wf(),
                crate::overview::names_in_order(order, self@.roots.dom()),
                crate::text::views(names@) == followed_roots(order.take(i as int), self@.roots),
            decreases all.len() - i,
        {
            let ghost before = names@;
            assert(order[i as int] == all@[i as int]@);
            assert(self@.roots.dom().contains(order[i as int]));
            assert(order.take(i + 1).drop_last() =~= order.take(i as int));
            let followed: bool = match self.root(all[i].as_str()) {
                Some(table) => table.cursor.is_some(),
                None => false,
            };
            if followed {
                names.push(all[i].clone());
                assert(crate::text::views(names@) =~= crate::text::views(before).push(
                    order[i as int],
                ));
            }
            i += 1;
        }
        assert(order.take(i as int) =~= order);
        names
    }

    /// Goes on to the next volume.
    fn go_to_next_volume(&mut self, progress: VolumesSync, now: i64) -> (step: VolumesStep)
        requires
            old(self).wf(),
        ensures
            final(self).wf(),
            final(self).path() == old(self).path(),
            (final(self)@, step@) == old(self)@.at_next_volume(progress@, now),
    {
        let ghost start = progress@;
        let mut progress = progress;
        #[verifier::loop_isolation(false)]
        while progress.names.len() > 0
            invariant
                self.wf(),
                self.path() == old(self).path(),
                self@.at_next_volume(progress@, now) == old(self)@.at_next_volume(
                    start,
                    now,
                ),
            decreases progress.names@.len(),
        {
            let ghost before = progress@;
            let name = progress.names.remove(0);
            assert(progress@.names =~= before.names.skip(1));
            assert(name@ == before.names[0]);
            match volume_from_ntfs_root(name.as_str()) {
                Some(volume) => {
                    return VolumesStep::Synchronise { volume, progress };
                },
                None => {
                    self.mark_ntfs_requires_snapshot(name.as_str(), now);
                },
            }
        }
        VolumesStep::Done(Ok(progress.reports))
    }

    /// One step of a synchronisation of all followed volumes from their journals alone, in the
    /// order of the names of their roots. A followed root that stands for no volume is marked when
    /// its turn comes.
    pub fn sync_indexed_ntfs_volumes(&mut self, event: VolumesEvent, now: i64) -> (step:
        VolumesStep)
        requires
            old(self).wf(),
        ensures
            final(self).wf(),
            final(self).path() == old(self).path(),
            match event@ {
                VolumesEventView::Start => exists|names: Seq<Seq<char>>| #[trigger]
                    crate::overview::names_in_order(names, old(self)@.roots.dom()) && (
                    final(self)@,
                    step@,
                ) == old(self)@.at_first_volume(names, now),
                VolumesEventView::Synchronised { progress, result } => (final(self)@, step@)
                    == old(self)@.after_volume(progress, result, now),
            },
    {
        match event {
            VolumesEvent::Start => {
                let names = self.names_of_followed_roots();
                let progress = VolumesSync { names, reports: Vec::new() };
                assert(progress@.reports =~= Seq::empty());
                self.go_to_next_volume(progress, now)
            },
            VolumesEvent::Synchronised { progress, result } => {
                let mut progress = progress;
                match result {
                    Err(error) => VolumesStep::Done(Err(error)),
                    Ok(None) => self.go_to_next_volume(progress, now),
                    Ok(Some(report)) => {
                        let ghost before = progress@;
                        progress.reports.push(report);
                        assert(progress@.reports =~= before.reports.push(report@));
                        assert(progress@.names == before.names);
                        self.go_to_next_volume(progress, now)
                    },
                }
            },
        }
    }
}

} // verus!

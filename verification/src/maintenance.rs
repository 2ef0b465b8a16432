//! Keeping the index in line with the disks by itself: what to do for each volume, and what follows
//! from changes that the file system reports.
use crate::errors::SearchError;
use crate::index::{ScanReport, SearchIndex};
use crate::overview::{AutoStateView, AutoVolumeState, IndexedRoot, ListedView};
use crate::paths::{path_to_compare, root_of_volume};
use crate::refresh::changed_below;
use crate::root::{AutoRecord, RootView};
use crate::text::{same_text, to_ascii_upper};
use vstd::hash_set::StringHashSet;
use vstd::prelude::*;

verus! {

/// The time between two reads of the journals, in milliseconds.
pub const USN_SYNC_INTERVAL_MS: u64 = 15_000;

/// The time after which a volume without a journal is brought into line, in milliseconds.
pub const FULL_RECONCILE_INTERVAL_MS: i64 = 21_600_000;

/// How long reported changes are collected, in milliseconds.
pub const EVENT_DEBOUNCE_MS: u64 = 750;

/// The most paths that are collected before everything is brought into line instead.
pub const MAX_PENDING_PATHS: usize = 20_000;

/// The most reported changes that wait to be collected.
pub const EVENT_QUEUE_CAPACITY: usize = 20_000;

/// The longest time between two looks at the clock, in milliseconds.
pub const MAX_WAIT_MS: u64 = 1_000;

// ---------------------------------------------------------------------------
// Planning
// ---------------------------------------------------------------------------

/// What is done for a volume.
#[derive(Debug, Clone, Copy, PartialEq, Eq, Structural)]
pub enum VolumeAction {
    /// It is read as a whole.
    FullSnapshot(char),
    /// The changes in its journal are followed.
    SyncUsn(char),
    /// Only what the file system reports is followed.
    WatchOnly(char),
}

/// What is listed last about a root with the given name.
pub open spec fn listed_last(roots: Seq<ListedView>, name: Seq<char>) -> Option<ListedView>
    decreases roots.len(),
{
    if roots.len() == 0 {
        None
    } else if roots.last().root == name {
        Some(roots.last())
    } else {
        listed_last(roots.drop_last(), name)
    }
}

/// The last state of a volume with the given root.
pub open spec fn state_last(states: Seq<AutoStateView>, name: Seq<char>) -> Option<AutoStateView>
    decreases states.len(),
{
    if states.len() == 0 {
        None
    } else if states.last().root == name {
        Some(states.last())
    } else {
        state_last(states.drop_last(), name)
    }
}

/// Before this point in time, what was brought into line is out of date.
pub open spec fn stale_before(now: i64) -> int {
    if now - FULL_RECONCILE_INTERVAL_MS < i64::MIN {
        i64::MIN as int
    } else {
        now - FULL_RECONCILE_INTERVAL_MS
    }
}

/// What is done for a volume: one that is followed by its journal is synchronised; one without a
/// journal that was brought into line not long ago is watched; every other one is read as a whole.
pub open spec fn action_for(
    volume: char,
    root: Option<ListedView>,
    state: Option<AutoStateView>,
    now: i64,
    force_non_usn: bool,
) -> VolumeAction {
    match (root, state) {
        (Some(root), Some(state)) => {
            if root.uses_ntfs_usn {
                VolumeAction::SyncUsn(volume)
            } else if !force_non_usn && !state.record.uses_ntfs_usn
                && state.record.last_reconcile_unix_ms > stale_before(now) {
                VolumeAction::WatchOnly(volume)
            } else {
                VolumeAction::FullSnapshot(volume)
            }
        },
        _ => VolumeAction::FullSnapshot(volume),
    }
}

fn find_root<'a>(roots: &'a [IndexedRoot], name: &str) -> (root: Option<&'a IndexedRoot>)
    ensures
        match root {
            Some(found) => listed_last(crate::overview::listed_views(roots@), name@) == Some(
                found@,
            ),
            None => listed_last(crate::overview::listed_views(roots@), name@) is None,
        },
{
    let ghost views = crate::overview::listed_views(roots@);
    let mut left: usize = roots.len();
    assert(views.take(left as int) =~= views);
    while left > 0
        invariant
            left <= roots.len(),
            views == crate::overview::listed_views(roots@),
            listed_last(views, name@) == listed_last(views.take(left as int), name@),
        decreases left,
    {
        let ghost here = views.take(left as int);
        assert(here.last() == roots@[left - 1]@);
        assert(here.drop_last() =~= views.take(left - 1));
        if same_text(roots[left - 1].root.as_str(), name) {
            return Some(&roots[left - 1]);
        }
        left -= 1;
    }
    None
}

fn find_state<'a>(states: &'a [AutoVolumeState], name: &str) -> (state: Option<
    &'a AutoVolumeState,
>)
    ensures
        match state {
            Some(found) => state_last(crate::overview::auto_views(states@), name@) == Some(found@),
            None => state_last(crate::overview::auto_views(states@), name@) is None,
        },
{
    let ghost views = crate::overview::auto_views(states@);
    let mut left: usize = states.len();
    assert(views.take(left as int) =~= views);
    while left > 0
        invariant
            left <= states.len(),
            views == crate::overview::auto_views(states@),
            state_last(views, name@) == state_last(views.take(left as int), name@),
        decreases left,
    {
        let ghost here = views.take(left as int);
        assert(here.last() == states@[left - 1]@);
        assert(here.drop_last() =~= views.take(left - 1));
        if same_text(states[left - 1].root.as_str(), name) {
            return Some(&states[left - 1]);
        }
        left -= 1;
    }
    None
}

/// What is done for each volume.
pub open spec fn planned(
    volumes: Seq<char>,
    roots: Seq<ListedView>,
    states: Seq<AutoStateView>,
    now: i64,
    force_non_usn: bool,
) -> Seq<VolumeAction> {
    Seq::new(
        volumes.len(),
        |i: int|
            {
                let volume = crate::text::ascii_upper(volumes[i]);
                let name = crate::paths::volume_root(volume);
                action_for(
                    volume,
                    listed_last(roots, name),
                    state_last(states, name),
                    now,
                    force_non_usn,
                )
            },
    )
}

/// What is done for each volume.
pub fn plan_actions(
    volumes: &[char],
    roots: &[IndexedRoot],
    states: &[AutoVolumeState],
    now_ms: i64,
    force_non_usn: bool,
) -> (actions: Vec<VolumeAction>)
    ensures
        actions@ == planned(
            volumes@,
            crate::overview::listed_views(roots@),
            crate::overview::auto_views(states@),
            now_ms,
            force_non_usn,
        ),
{
    let stale: i64 = if now_ms < i64::MIN + FULL_RECONCILE_INTERVAL_MS {
        i64::MIN
    } else {
        now_ms - FULL_RECONCILE_INTERVAL_MS
    };
    let mut actions: Vec<VolumeAction> = Vec::new();
    let mut i: usize = 0;
    while i < volumes.len()
        invariant
            i <= volumes.len(),
            stale == stale_before(now_ms),
            actions@ == planned(
                volumes@,
                crate::overview::listed_views(roots@),
                crate::overview::auto_views(states@),
                now_ms,
                force_non_usn,
            ).take(i as int),
        decreases volumes.len() - i,
    {
        let volume: char = to_ascii_upper(volumes[i]);
        let name = root_of_volume(volume);
        let action = match (find_root(roots, name.as_str()), find_state(states, name.as_str())) {
            (Some(root), Some(state)) => {
                if root.uses_ntfs_usn {
                    VolumeAction::SyncUsn(volume)
                } else if !force_non_usn && !state.uses_ntfs_usn && state.last_reconcile_unix_ms
                    > stale {
                    VolumeAction::WatchOnly(volume)
                } else {
                    VolumeAction::FullSnapshot(volume)
                }
            },
            _ => VolumeAction::FullSnapshot(volume),
        };
        actions.push(action);
        i += 1;
    }
    actions
}

/// On a first start every volume is read as a whole, whatever is forced.
pub proof fn law_first_start_reads_every_volume(
    volumes: Seq<char>,
    now: i64,
    force_non_usn: bool,
    i: int,
)
    requires
        0 <= i < volumes.len(),
    ensures
        planned(volumes, Seq::empty(), Seq::empty(), now, force_non_usn)[i]
            == VolumeAction::FullSnapshot(crate::text::ascii_upper(volumes[i])),
{
}

/// Where changes may have been missed, no volume is left to be watched alone.
pub proof fn law_forced_plan_watches_none(
    volumes: Seq<char>,
    roots: Seq<ListedView>,
    states: Seq<AutoStateView>,
    now: i64,
    i: int,
)
    requires
        0 <= i < volumes.len(),
    ensures
        !(planned(volumes, roots, states, now, true)[i] is WatchOnly),
{
}

/// What a volume without a journal holds is never out of date by more than the interval: where it
/// is only watched, it was brought into line within it.
pub proof fn law_watched_volume_is_recent(
    volume: char,
    root: Option<ListedView>,
    state: Option<AutoStateView>,
    now: i64,
    force_non_usn: bool,
)
    requires
        action_for(volume, root, state, now, force_non_usn) is WatchOnly,
    ensures
        state is Some,
        now - state->0.record.last_reconcile_unix_ms < 6 * 60 * 60 * 1000,
{
}

/// What happens to a volume that is read as a whole.
#[derive(Debug)]
pub enum ScanEvent {
    /// Its file table was read, or could not be read.
    Table(Result<ScanReport, SearchError>),
    /// It was walked through, or could not be, after its file table could not be read.
    Walk { table_error: SearchError, result: Result<ScanReport, SearchError> },
}

/// What is done next about a volume that is read as a whole.
#[derive(Debug)]
pub enum ScanStep {
    /// It is walked through.
    Walk { table_error: SearchError },
    /// That it was read is stored.
    Record(ScanReport),
    /// It could not be read, and nothing is stored.
    Done { table_error: SearchError, walk_error: SearchError },
}

/// What is done next about a volume that is read as a whole. Where its file table cannot be read,
/// it is walked through; that it was read is stored only where one of the two succeeded.
pub fn full_scan_step(event: ScanEvent) -> (step: ScanStep)
    ensures
        match event {
            ScanEvent::Table(Ok(report)) => step == ScanStep::Record(report),
            ScanEvent::Table(Err(error)) => step == (ScanStep::Walk { table_error: error }),
            ScanEvent::Walk { result: Ok(report), .. } => step == ScanStep::Record(report),
            ScanEvent::Walk { table_error, result: Err(error) } => step == (ScanStep::Done {
                table_error,
                walk_error: error,
            }),
        },
{
    match event {
        ScanEvent::Table(Ok(report)) => ScanStep::Record(report),
        ScanEvent::Table(Err(error)) => ScanStep::Walk { table_error: error },
        ScanEvent::Walk { result: Ok(report), .. } => ScanStep::Record(report),
        ScanEvent::Walk { table_error, result: Err(error) } => ScanStep::Done {
            table_error,
            walk_error: error,
        },
    }
}

/// Stores that a volume was read as a whole, and whether its journal is followed since.
pub fn record_full_scan(index: &mut SearchIndex, volume: char, now: i64) -> (result: Result<
    (),
    SearchError,
>)
    requires
        old(index).wf(),
    ensures
        final(index).wf(),
        final(index).path() == old(index).path(),
        ({
            let name = crate::paths::volume_root(volume);
            if old(index)@.roots.contains_key(name) {
                result is Ok && final(index)@ == old(index)@.with_root(
                    name,
                    RootView {
                        auto_record: Some(
                            AutoRecord {
                                last_reconcile_unix_ms: now,
                                uses_ntfs_usn: old(index)@.roots[name].cursor is Some,
                            },
                        ),
                        ..old(index)@.roots[name]
                    },
                )
            } else {
                final(index)@ == old(index)@ && (result matches Err(error) && error@
                    == crate::index::missing_root())
            }
        }),
        final(index)@ == old(index)@.with_auto_state(
            crate::paths::volume_root(volume),
            old(index)@.roots[crate::paths::volume_root(volume)].cursor is Some,
            now,
        ),
{
    let name = root_of_volume(volume);
    let uses_usn: bool = match index.root(name.as_str()) {
        Some(table) => table.cursor.is_some(),
        None => false,
    };
    index.record_auto_volume_state(name.as_str(), uses_usn, now)
}

// ---------------------------------------------------------------------------
// Reported changes
// ---------------------------------------------------------------------------

/// A change that the file system reports.
#[derive(Debug)]
pub struct ChangeEvent {
    /// Whether reports were lost.
    pub needs_rescan: bool,
    /// Whether something was only looked at.
    pub is_access: bool,
    pub paths: Vec<String>,
}

/// The forms in which paths are compared.
pub open spec fn compared_paths(paths: Seq<Seq<char>>) -> Seq<Seq<char>> {
    Seq::new(paths.len(), |i: int| crate::paths::compared_path(paths[i]))
}

/// Paths with further ones added, each once. Paths are compared name by name.
pub open spec fn with_paths(paths: Seq<Seq<char>>, more: Seq<Seq<char>>) -> Seq<Seq<char>>
    decreases more.len(),
{
    if more.len() == 0 {
        paths
    } else {
        let front = with_paths(paths, more.drop_last());
        if compared_paths(front).contains(crate::paths::compared_path(more.last())) {
            front
        } else {
            front.push(more.last())
        }
    }
}

/// The changes that were collected.
pub struct EventBatch {
    paths: Vec<String>,
    seen: StringHashSet,
    force_reconcile: bool,
}

/// What an [`EventBatch`] holds: the changed paths, each once, and whether changes were missed.
pub struct BatchView {
    pub paths: Seq<Seq<char>>,
    pub force_reconcile: bool,
}

impl View for EventBatch {
    type V = BatchView;

    closed spec fn view(&self) -> BatchView {
        BatchView {
            paths: crate::text::views(self.paths@),
            force_reconcile: self.force_reconcile,
        }
    }
}

impl BatchView {
    /// The batch after a change was reported. Where reports were lost, everything has to be brought
    /// into line; what was only looked at does not count.
    pub open spec fn after(self, event: ChangeEvent) -> BatchView {
        if event.needs_rescan {
            BatchView { force_reconcile: true, ..self }
        } else if event.is_access {
            self
        } else {
            BatchView {
                paths: with_paths(self.paths, crate::text::views(event.paths@)),
                ..self
            }
        }
    }
}

/// What is done about collected changes.
#[derive(Debug)]
pub enum BatchOutcome {
    /// Everything is brought into line.
    Reconcile,
    /// The changed paths are.
    Refresh(Vec<String>),
}

impl EventBatch {
    /// What was seen is what is listed, in the form in which paths are compared.
    pub closed spec fn wf(&self) -> bool {
        forall|path: Seq<char>| #[trigger]
            self.seen@.contains(path) <==> compared_paths(crate::text::views(self.paths@)).contains(
                path,
            )
    }

    pub fn new() -> (batch: EventBatch)
        ensures
            batch.wf(),
            batch@ == (BatchView { paths: Seq::empty(), force_reconcile: false }),
    {
        let batch = EventBatch {
            paths: Vec::new(),
            seen: StringHashSet::new(),
            force_reconcile: false,
        };
        assert(crate::text::views(batch.paths@) =~= Seq::<Seq<char>>::empty());
        assert(compared_paths(crate::text::views(batch.paths@)) =~= Seq::<Seq<char>>::empty());
        batch
    }

    /// Takes in a reported change.
    pub fn collect_event(&mut self, event: ChangeEvent)
        requires
            old(self).wf(),
        ensures
            final(self).wf(),
            final(self)@ == old(self)@.after(event),
    {
        if event.needs_rescan {
            self.force_reconcile = true;
            return;
        }
        if event.is_access {
            return;
        }
        let ghost before = self@;
        let ghost more = crate::text::views(event.paths@);
        let mut i: usize = 0;
        while i < event.paths.len()
            invariant
                i <= event.paths.len(),
                more == crate::text::views(event.paths@),
                self.wf(),
                self@.force_reconcile == before.force_reconcile,
                self@.paths == with_paths(before.paths, more.take(i as int)),
            decreases event.paths.len() - i,
        {
            let ghost here = more.take(i + 1);
            let ghost path = event.paths@[i as int]@;
            assert(here.drop_last() =~= more.take(i as int));
            assert(here.last() == path);
            let key = path_to_compare(event.paths[i].as_str());
            if !self.seen.contains(key.as_str()) {
                let ghost listed = crate::text::views(self.paths@);
                let ghost keys = compared_paths(listed);
                let ghost added = key@;
                self.seen.insert(key);
                self.paths.push(event.paths[i].clone());
                proof {
                    let now_listed = crate::text::views(self.paths@);
                    let now_keys = compared_paths(now_listed);
                    assert(now_listed =~= listed.push(path));
                    assert(now_keys =~= keys.push(added));
                    assert forall|other: Seq<char>| #[trigger]
                        self.seen@.contains(other) <==> now_keys.contains(other) by {
                        if keys.contains(other) {
                            let k = choose|k: int| 0 <= k < keys.len() && keys[k] == other;
                            assert(now_keys[k] == other);
                        }
                        if other == added {
                            assert(now_keys[keys.len() as int] == other);
                        }
                        if now_keys.contains(other) && other != added {
                            let k = choose|k: int| 0 <= k < now_keys.len() && now_keys[k] == other;
                            assert(keys[k] == other);
                        }
                    }
                }
            }
            i += 1;
        }
        assert(more.take(i as int) =~= more);
    }

    /// Takes in that a report could not be read.
    pub fn collect_failure(&mut self)
        requires
            old(self).wf(),
        ensures
            final(self).wf(),
            final(self)@ == (BatchView { force_reconcile: true, ..old(self)@ }),
    {
        self.force_reconcile = true;
    }

    /// Whether more changes are collected.
    pub fn has_room(&self) -> (room: bool)
        ensures
            room == (self@.paths.len() < MAX_PENDING_PATHS),
    {
        self.paths.len() < MAX_PENDING_PATHS
    }

    /// What is done about the collected changes.
    pub fn finish(self) -> (outcome: BatchOutcome)
        ensures
            match outcome {
                BatchOutcome::Reconcile => self@.force_reconcile || self@.paths.len()
                    >= MAX_PENDING_PATHS,
                BatchOutcome::Refresh(paths) => !self@.force_reconcile && self@.paths.len()
                    < MAX_PENDING_PATHS && crate::text::views(paths@) == self@.paths,
            },
    {
        if self.force_reconcile || self.paths.len() >= MAX_PENDING_PATHS {
            BatchOutcome::Reconcile
        } else {
            BatchOutcome::Refresh(self.paths)
        }
    }
}

/// What of the changed paths belongs to a root.
#[derive(Debug)]
pub struct RootRefresh {
    pub root: String,
    /// The changed paths below the root.
    pub changed: Vec<String>,
}

/// The roots that are followed by reported changes alone and have some, with their changed paths.
pub open spec fn refreshed_roots(
    roots: Seq<ListedView>,
    paths: Seq<Seq<char>>,
) -> Seq<(Seq<char>, Seq<Seq<char>>)>
    decreases roots.len(),
{
    if roots.len() == 0 {
        Seq::empty()
    } else {
        let front = refreshed_roots(roots.drop_last(), paths);
        let root = roots.last();
        let changed = crate::refresh::parts_below(root.root, paths);
        if !root.uses_ntfs_usn && changed.len() > 0 {
            front.push((root.root, changed))
        } else {
            front
        }
    }
}

/// The views of a list of refreshes.
pub open spec fn refresh_views(refreshes: Seq<RootRefresh>) -> Seq<(Seq<char>, Seq<Seq<char>>)> {
    Seq::new(
        refreshes.len(),
        |i: int| (refreshes[i].root@, crate::text::views(refreshes[i].changed@)),
    )
}

/// The roots that are followed by reported changes alone and have some, with their changed paths.
pub fn process_event_batch(roots: &Vec<IndexedRoot>, paths: &Vec<String>) -> (refreshes: Vec<
    RootRefresh,
>)
    ensures
        refresh_views(refreshes@) == refreshed_roots(
            crate::overview::listed_views(roots@),
            crate::text::views(paths@),
        ),
{
    let ghost all = crate::overview::listed_views(roots@);
    let ghost changes = crate::text::views(paths@);
    let mut refreshes: Vec<RootRefresh> = Vec::new();
    let mut i: usize = 0;
    assert(refresh_views(refreshes@) =~= refreshed_roots(all.take(0), changes));
    while i < roots.len()
        invariant
            i <= roots.len(),
            all == crate::overview::listed_views(roots@),
            changes == crate::text::views(paths@),
            refresh_views(refreshes@) == refreshed_roots(all.take(i as int), changes),
        decreases roots.len() - i,
    {
        assert(all.take(i + 1).drop_last() =~= all.take(i as int));
        assert(all.take(i + 1).last() == roots@[i as int]@);
        if !roots[i].uses_ntfs_usn {
            let changed = changed_below(roots[i].root.as_str(), paths);
            assert(crate::text::views(changed@).len() == changed@.len());
            if changed.len() > 0 {
                let ghost before = refreshes@;
                let refresh = RootRefresh { root: roots[i].root.clone(), changed };
                let ghost view = (refresh.root@, crate::text::views(refresh.changed@));
                refreshes.push(refresh);
                assert(refresh_views(refreshes@) =~= refresh_views(before).push(view));
            }
        }
        i += 1;
    }
    assert(all.take(i as int) =~= all);
    refreshes
}

// ---------------------------------------------------------------------------
// Watching
// ---------------------------------------------------------------------------

/// What happens while the disks are watched.
#[derive(Clone, Copy, Debug, PartialEq, Eq, Structural)]
pub enum WatchEvent {
    /// The program has started.
    Started,
    /// All volumes are to be looked at once more.
    ReconcileDue,
    /// There was no room for all reports.
    QueueOverflowed,
    /// A change was reported.
    Reported,
    /// A report could not be read.
    ReportFailed,
    /// Nothing was reported for a while.
    Quiet,
    /// Nothing will be reported any more.
    Disconnected,
    /// Among the collected changes some were missed, or there were too many.
    ChangesMissed,
    /// The changed paths of a root were brought into line.
    Refreshed,
    /// The changed paths of a root could not be brought into line.
    RefreshFailed,
}

/// What is done next while the disks are watched.
#[derive(Clone, Copy, Debug, PartialEq, Eq, Structural)]
pub enum WatchStep {
    /// All volumes are brought into line, those that are watched alone only where forced.
    Reconcile { force_non_usn: bool },
    /// The changes of a moment are collected.
    Collect,
    GoOn,
    Stop,
}

/// Whether an event means that changes may have been missed.
pub open spec fn misses_changes(event: WatchEvent) -> bool {
    event is QueueOverflowed || event is ReportFailed || event is ChangesMissed
        || event is RefreshFailed
}

/// What is done next while the disks are watched. Where changes may have been missed, all volumes
/// are brought into line by force.
pub fn watch_step(event: WatchEvent) -> (step: WatchStep)
    ensures
        step == (WatchStep::Reconcile { force_non_usn: true }) <==> misses_changes(event),
        step == (WatchStep::Reconcile { force_non_usn: false }) <==> (event is Started
            || event is ReconcileDue),
        (step is Collect) == (event is Reported),
        (step is GoOn) == (event is Quiet || event is Refreshed),
        (step is Stop) == (event is Disconnected),
{
    match event {
        WatchEvent::Started => WatchStep::Reconcile { force_non_usn: false },
        WatchEvent::ReconcileDue => WatchStep::Reconcile { force_non_usn: false },
        WatchEvent::QueueOverflowed => WatchStep::Reconcile { force_non_usn: true },
        WatchEvent::Reported => WatchStep::Collect,
        WatchEvent::ReportFailed => WatchStep::Reconcile { force_non_usn: true },
        WatchEvent::Quiet => WatchStep::GoOn,
        WatchEvent::Disconnected => WatchStep::Stop,
        WatchEvent::ChangesMissed => WatchStep::Reconcile { force_non_usn: true },
        WatchEvent::Refreshed => WatchStep::GoOn,
        WatchEvent::RefreshFailed => WatchStep::Reconcile { force_non_usn: true },
    }
}

// ---------------------------------------------------------------------------
// Time
// ---------------------------------------------------------------------------

/// When the journals are read next, and when all volumes are looked at next, in milliseconds of one
/// clock.
#[derive(Clone, Copy, Debug, PartialEq, Eq)]
pub struct Schedule {
    pub next_usn_sync: u64,
    pub next_full_reconcile: u64,
}

/// A point in time with a duration added.
pub open spec fn later(now: u64, duration: int) -> u64 {
    if now + duration > u64::MAX {
        u64::MAX
    } else {
        (now + duration) as u64
    }
}

fn later_by(now: u64, duration: u64) -> (time: u64)
    ensures
        time == later(now, duration as int),
{
    if now > u64::MAX - duration {
        u64::MAX
    } else {
        now + duration
    }
}

impl Schedule {
    pub fn new(now: u64) -> (schedule: Schedule)
        ensures
            schedule.next_usn_sync == later(now, 15_000),
            schedule.next_full_reconcile == later(now, 21_600_000),
    {
        Schedule {
            next_usn_sync: later_by(now, USN_SYNC_INTERVAL_MS),
            next_full_reconcile: later_by(now, 21_600_000),
        }
    }

    /// Whether the journals are to be read.
    pub fn usn_sync_due(&self, now: u64) -> (due: bool)
        ensures
            due == (now >= self.next_usn_sync),
    {
        now >= self.next_usn_sync
    }

    /// Whether all volumes are to be looked at.
    pub fn full_reconcile_due(&self, now: u64) -> (due: bool)
        ensures
            due == (now >= self.next_full_reconcile),
    {
        now >= self.next_full_reconcile
    }

    /// Takes in that the journals were read.
    pub fn usn_synced(&mut self, now: u64)
        ensures
            *final(self) == (Schedule { next_usn_sync: later(now, 15_000), ..*old(self) }),
    {
        self.next_usn_sync = later_by(now, USN_SYNC_INTERVAL_MS);
    }

    /// Takes in that all volumes were looked at.
    pub fn reconciled(&mut self, now: u64)
        ensures
            *final(self) == (Schedule {
                next_full_reconcile: later(now, 21_600_000),
                ..*old(self)
            }),
    {
        self.next_full_reconcile = later_by(now, 21_600_000);
    }

    /// How long to wait for a reported change: until something is due, and no longer than a second.
    pub fn wait_ms(&self, now: u64) -> (wait: u64)
        ensures
            wait <= 1_000,
            now + wait <= self.next_usn_sync || wait == 0,
            now + wait <= self.next_full_reconcile || wait == 0,
            wait < 1_000 ==> now + wait == self.next_usn_sync || now + wait
                == self.next_full_reconcile || (wait == 0 && (now >= self.next_usn_sync || now
                >= self.next_full_reconcile)),
    {
        let next: u64 = if self.next_usn_sync < self.next_full_reconcile {
            self.next_usn_sync
        } else {
            self.next_full_reconcile
        };
        if next <= now {
            0
        } else if next - now < MAX_WAIT_MS {
            next - now
        } else {
            MAX_WAIT_MS
        }
    }
}

} // verus!

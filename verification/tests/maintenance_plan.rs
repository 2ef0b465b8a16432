use jinfu_search::maintenance::{
    full_scan_step, plan_actions, process_event_batch, record_full_scan, watch_step, BatchOutcome,
    ChangeEvent, EventBatch, ScanEvent, ScanStep, Schedule, VolumeAction, WatchEvent, WatchStep,
    FULL_RECONCILE_INTERVAL_MS, MAX_PENDING_PATHS,
};
use jinfu_search::ntfs::UsnRecord;
use jinfu_search::root::{FoundEntry, WalkItem};
use jinfu_search::{
    AutoVolumeState, IndexedRoot, ScanReport, SearchError, SearchIndex, SearchRequest,
};

fn root(name: &str, uses_ntfs_usn: bool) -> IndexedRoot {
    IndexedRoot {
        root: name.to_owned(),
        last_scan_unix_ms: 0,
        complete: true,
        skipped_entries: 0,
        uses_ntfs_usn,
    }
}

fn state(name: &str, age_ms: i64, uses_ntfs_usn: bool) -> AutoVolumeState {
    AutoVolumeState {
        root: name.to_owned(),
        last_reconcile_unix_ms: age_ms,
        uses_ntfs_usn,
    }
}

fn texts(values: &[&str]) -> Vec<String> {
    values.iter().map(|value| value.to_string()).collect()
}

fn found(path: &str, name: &str) -> WalkItem {
    WalkItem::Found(FoundEntry {
        relative_path: path.to_owned(),
        name: name.to_owned(),
        is_directory: false,
        size_bytes: 1,
        modified_ms: None,
    })
}

#[test]
fn first_start_scans_every_fixed_volume_without_manual_input() {
    assert_eq!(
        plan_actions(&['C', 'D'], &[], &[], 1_000, false),
        vec![
            VolumeAction::FullSnapshot('C'),
            VolumeAction::FullSnapshot('D')
        ]
    );
}

#[test]
fn usn_volumes_sync_while_recent_no_journal_volumes_use_events() {
    let now = FULL_RECONCILE_INTERVAL_MS + 10_000;
    let actions = plan_actions(
        &['C', 'E'],
        &[root("C:/", true), root("E:/", false)],
        &[state("C:/", now, true), state("E:/", now, false)],
        now,
        false,
    );
    assert_eq!(
        actions,
        vec![VolumeAction::SyncUsn('C'), VolumeAction::WatchOnly('E')]
    );
}

#[test]
fn stale_or_overflowed_no_journal_volume_gets_a_full_reconciliation() {
    let now = FULL_RECONCILE_INTERVAL_MS + 10_000;
    let roots = [root("E:/", false)];
    let states = [state("E:/", 1, false)];
    assert_eq!(
        plan_actions(&['E'], &roots, &states, now, false),
        vec![VolumeAction::FullSnapshot('E')]
    );
    assert_eq!(
        plan_actions(&['E'], &roots, &[state("E:/", now, false)], now, true),
        vec![VolumeAction::FullSnapshot('E')]
    );
}

#[test]
fn six_hours_are_the_interval_of_full_reconciliation() {
    assert_eq!(FULL_RECONCILE_INTERVAL_MS, 6 * 60 * 60 * 1_000);
    let now = 100_000_000;
    let roots = [root("E:/", false)];
    let limit = now - FULL_RECONCILE_INTERVAL_MS;
    assert_eq!(
        plan_actions(&['e'], &roots, &[state("E:/", limit, false)], now, false),
        vec![VolumeAction::FullSnapshot('E')]
    );
    assert_eq!(
        plan_actions(&['e'], &roots, &[state("E:/", limit + 1, false)], now, false),
        vec![VolumeAction::WatchOnly('E')]
    );
}

#[test]
fn a_volume_that_lost_its_journal_is_read_as_a_whole() {
    assert_eq!(
        plan_actions(
            &['C'],
            &[root("C:/", false)],
            &[state("C:/", 1_000, true)],
            1_000,
            false
        ),
        vec![VolumeAction::FullSnapshot('C')]
    );
}

#[test]
fn collected_paths_are_listed_once_and_looks_do_not_count() {
    let mut batch = EventBatch::new();
    batch.collect_event(ChangeEvent {
        needs_rescan: false,
        is_access: false,
        paths: texts(&["D:\\a", "D:\\b"]),
    });
    batch.collect_event(ChangeEvent {
        needs_rescan: false,
        is_access: true,
        paths: texts(&["D:\\c"]),
    });
    batch.collect_event(ChangeEvent {
        needs_rescan: false,
        is_access: false,
        paths: texts(&["D:\\a", "D:\\d"]),
    });
    assert!(batch.has_room());
    match batch.finish() {
        BatchOutcome::Refresh(paths) => assert_eq!(paths, texts(&["D:\\a", "D:\\b", "D:\\d"])),
        BatchOutcome::Reconcile => panic!("nothing was missed"),
    }
}

#[test]
fn paths_that_differ_in_the_case_of_the_drive_are_one() {
    let mut batch = EventBatch::new();
    batch.collect_event(ChangeEvent {
        needs_rescan: false,
        is_access: false,
        paths: texts(&["C:\\data\\x", "c:\\data\\x", "C:\\data\\\\x\\", "C:\\data\\X"]),
    });
    let paths = match batch.finish() {
        BatchOutcome::Refresh(paths) => paths,
        other => panic!("{other:?}"),
    };
    assert_eq!(paths, texts(&["C:\\data\\x", "C:\\data\\X"]));
    let refreshes = process_event_batch(&vec![root("c:/data", false)], &paths);
    assert_eq!(refreshes.len(), 1);
    assert_eq!(refreshes[0].root, "c:/data");
    assert_eq!(refreshes[0].changed, texts(&["x", "X"]));
}

#[test]
fn a_volume_whose_table_cannot_be_read_is_walked_through() {
    let report = || ScanReport {
        root: "C:/".to_owned(),
        indexed_files: 1,
        indexed_directories: 2,
        skipped_entries: 0,
        complete: true,
        elapsed_ms: 3,
    };
    let error = |text: &str| SearchError::Database(text.to_owned());
    match full_scan_step(ScanEvent::Table(Ok(report()))) {
        ScanStep::Record(read) => assert_eq!(read, report()),
        other => panic!("{other:?}"),
    }
    let table_error = match full_scan_step(ScanEvent::Table(Err(error("table")))) {
        ScanStep::Walk { table_error } => table_error,
        other => panic!("{other:?}"),
    };
    assert!(matches!(
        full_scan_step(ScanEvent::Walk {
            table_error: error("table"),
            result: Ok(report()),
        }),
        ScanStep::Record(_)
    ));
    match full_scan_step(ScanEvent::Walk {
        table_error,
        result: Err(error("walk")),
    }) {
        ScanStep::Done {
            table_error: SearchError::Database(table),
            walk_error: SearchError::Database(walk),
        } => assert_eq!((table.as_str(), walk.as_str()), ("table", "walk")),
        other => panic!("{other:?}"),
    }
}

#[test]
fn what_may_have_been_missed_is_brought_into_line_by_force() {
    for event in [
        WatchEvent::QueueOverflowed,
        WatchEvent::ReportFailed,
        WatchEvent::ChangesMissed,
        WatchEvent::RefreshFailed,
    ] {
        assert_eq!(
            watch_step(event),
            WatchStep::Reconcile {
                force_non_usn: true
            }
        );
    }
    for event in [WatchEvent::Started, WatchEvent::ReconcileDue] {
        assert_eq!(
            watch_step(event),
            WatchStep::Reconcile {
                force_non_usn: false
            }
        );
    }
    assert_eq!(watch_step(WatchEvent::Reported), WatchStep::Collect);
    assert_eq!(watch_step(WatchEvent::Quiet), WatchStep::GoOn);
    assert_eq!(watch_step(WatchEvent::Refreshed), WatchStep::GoOn);
    assert_eq!(watch_step(WatchEvent::Disconnected), WatchStep::Stop);
}

#[test]
fn missed_changes_lead_to_a_full_reconciliation() {
    let mut rescan = EventBatch::new();
    rescan.collect_event(ChangeEvent {
        needs_rescan: true,
        is_access: false,
        paths: vec![],
    });
    assert!(matches!(rescan.finish(), BatchOutcome::Reconcile));

    let mut failed = EventBatch::new();
    failed.collect_failure();
    assert!(matches!(failed.finish(), BatchOutcome::Reconcile));

    let mut full = EventBatch::new();
    full.collect_event(ChangeEvent {
        needs_rescan: false,
        is_access: false,
        paths: (0..MAX_PENDING_PATHS).map(|i| format!("D:\\{i}")).collect(),
    });
    assert!(!full.has_room());
    assert!(matches!(full.finish(), BatchOutcome::Reconcile));
}

#[test]
fn only_roots_without_a_journal_are_refreshed() {
    let roots = vec![root("C:/", true), root("D:/资料", false), root("E:/", false)];
    let paths = texts(&["C:\\x", "D:\\资料\\报告.txt", "D:\\资料夹\\y", "D:\\资料"]);
    let refreshes = process_event_batch(&roots, &paths);
    assert_eq!(refreshes.len(), 1);
    assert_eq!(refreshes[0].root, "D:/资料");
    assert_eq!(refreshes[0].changed, texts(&["报告.txt", ""]));
}

#[test]
fn a_refresh_replaces_what_it_covers_and_nothing_else() {
    let mut index = SearchIndex::open("index.db");
    index.scan_root(
        "D:\\资料",
        &vec![found("旧\\甲.txt", "甲.txt"), found("旧\\乙.txt", "乙.txt"), found("丙.txt", "丙.txt")],
        1_000,
        0,
    );
    index
        .refresh_changed_paths(
            "D:/资料",
            &texts(&["旧"]),
            &vec![found("旧\\乙.txt", "乙.txt"), found("旧\\丁.txt", "丁.txt")],
            2_000,
        )
        .unwrap();
    let hits = |query: &str| index.search(&SearchRequest::new(query)).unwrap().len();
    assert_eq!(hits("甲.txt"), 0);
    assert_eq!(hits("乙.txt"), 1);
    assert_eq!(hits("丁.txt"), 1);
    assert_eq!(hits("丙.txt"), 1);
    assert_eq!(index.indexed_roots()[0].last_scan_unix_ms, 2_000);

    let error = index
        .refresh_changed_paths("E:/", &vec![], &vec![], 3_000)
        .unwrap_err();
    assert_eq!(error.message(), "数据库错误：FOREIGN KEY constraint failed");
}

#[test]
fn a_full_scan_is_recorded_with_whether_it_is_followed() {
    let mut index = SearchIndex::open("index.db");
    assert!(record_full_scan(&mut index, 'C', 5).is_err());
    index.persist_ntfs_records(
        "C:/".to_owned(),
        vec![UsnRecord {
            file_reference_number: 10,
            parent_file_reference_number: 5,
            usn: 1,
            timestamp_filetime: 0,
            reason: 0,
            file_attributes: 0,
            name: "a".to_owned(),
        }],
        7,
        3,
        1,
        0,
    );
    index.scan_root("D:\\", &vec![], 2, 0);
    record_full_scan(&mut index, 'C', 5).unwrap();
    record_full_scan(&mut index, 'D', 6).unwrap();
    assert_eq!(
        index.auto_volume_states(),
        vec![state("C:/", 5, true), state("D:/", 6, false)]
    );
}

#[test]
fn the_schedule_waits_for_what_is_due_next() {
    let mut schedule = Schedule::new(1_000);
    assert!(!schedule.usn_sync_due(15_999));
    assert!(schedule.usn_sync_due(16_000));
    assert!(!schedule.full_reconcile_due(21_600_999));
    assert!(schedule.full_reconcile_due(21_601_000));
    assert_eq!(schedule.wait_ms(1_000), 1_000);
    assert_eq!(schedule.wait_ms(15_400), 600);
    assert_eq!(schedule.wait_ms(17_000), 0);
    schedule.usn_synced(17_000);
    assert_eq!(schedule.next_usn_sync, 32_000);
    schedule.reconciled(17_000);
    assert_eq!(schedule.next_full_reconcile, 21_617_000);
}

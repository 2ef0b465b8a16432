use jinfu_search::errors::{IoError, IoKind};
use jinfu_search::ntfs::{JournalInfo, UsnRecord, ROOT_FILE_REFERENCE, USN_REASON_FILE_DELETE};
use jinfu_search::root::{FoundEntry, WalkItem};
use jinfu_search::sync::{SyncEvent, SyncStep, VolumesEvent, VolumesStep};
use jinfu_search::volume::{JournalDelta, JournalReadError, MftSnapshot};
use jinfu_search::{IndexStatus, ScanReport, SearchError, SearchIndex, SearchItem, SearchRequest};

fn record(
    file_reference_number: u64,
    parent_file_reference_number: u64,
    usn: i64,
    is_directory: bool,
    name: &str,
) -> UsnRecord {
    UsnRecord {
        file_reference_number,
        parent_file_reference_number,
        usn,
        timestamp_filetime: 116_444_736_000_000_000,
        reason: 0,
        file_attributes: if is_directory { 0x10 } else { 0 },
        name: name.to_owned(),
    }
}

fn deleted(record: UsnRecord) -> UsnRecord {
    UsnRecord {
        reason: USN_REASON_FILE_DELETE,
        ..record
    }
}

fn journal(journal_id: u64, next_usn: i64) -> JournalInfo {
    JournalInfo {
        journal_id,
        first_usn: 0,
        next_usn,
    }
}

fn found(path: &str, is_directory: bool) -> WalkItem {
    let name = path.rsplit('\\').next().unwrap();
    WalkItem::Found(FoundEntry {
        relative_path: path.to_owned(),
        name: name.to_owned(),
        is_directory,
        size_bytes: 6,
        modified_ms: Some(1_700_000_000_000),
    })
}

fn paths(index: &SearchIndex, query: &str) -> Vec<String> {
    index
        .search(&SearchRequest::new(query))
        .unwrap()
        .into_iter()
        .map(|item| item.path)
        .collect()
}

#[test]
fn ntfs_delta_renames_descendants_and_deletes_a_subtree() {
    let mut index = SearchIndex::open("index.db");
    let root = "C:/".to_owned();
    index.persist_ntfs_records(
        root.clone(),
        vec![
            record(10, ROOT_FILE_REFERENCE, 1, true, "资料"),
            record(11, 10, 2, false, "同步验证.txt"),
        ],
        7,
        3,
        1_000,
        0,
    );

    let applied = index
        .apply_ntfs_delta(
            &root,
            JournalInfo {
                journal_id: 7,
                first_usn: 0,
                next_usn: 4,
            },
            4,
            vec![record(10, ROOT_FILE_REFERENCE, 3, true, "归档")],
            2_000,
        )
        .expect("应用重命名变更");
    assert!(applied, "父节点完整时不应退回全量快照");

    let matches = index
        .search(&SearchRequest::new("归档/同步验证"))
        .expect("搜索重命名后的路径");
    assert_eq!(matches.len(), 1);
    assert_eq!(matches[0].path, "C:/归档/同步验证.txt");

    let applied = index
        .apply_ntfs_delta(
            &root,
            JournalInfo {
                journal_id: 7,
                first_usn: 0,
                next_usn: 5,
            },
            5,
            vec![UsnRecord {
                reason: USN_REASON_FILE_DELETE,
                ..record(10, ROOT_FILE_REFERENCE, 4, true, "归档")
            }],
            3_000,
        )
        .expect("应用删除变更");
    assert!(applied);
    assert!(index
        .search(&SearchRequest::new("同步验证"))
        .expect("搜索删除后的路径")
        .is_empty());
}

#[test]
fn incomplete_ntfs_snapshot_still_exposes_resolved_files() {
    let mut index = SearchIndex::open("index.db");
    let report = index.persist_ntfs_records(
        "C:/".to_owned(),
        vec![
            record(10, ROOT_FILE_REFERENCE, 1, true, "资料"),
            record(11, 10, 2, false, "金福验收.pdf"),
            record(99, 98, 3, false, "孤立记录.tmp"),
        ],
        7,
        4,
        1_000,
        0,
    );

    assert!(!report.complete);
    assert_eq!(report.skipped_entries, 1);
    let matches = index.search(&SearchRequest::new("pdf 金福")).unwrap();
    assert_eq!(matches.len(), 1);
    assert_eq!(matches[0].path, "C:/资料/金福验收.pdf");
    assert!(!index.indexed_roots()[0].uses_ntfs_usn);
}

#[test]
fn snapshot_without_an_active_journal_stays_searchable_without_a_sync_cursor() {
    let mut index = SearchIndex::open("index.db");
    let report = index.persist_ntfs_records(
        "E:/".to_owned(),
        vec![record(11, ROOT_FILE_REFERENCE, 0, false, "无日志快照.pdf")],
        0,
        0,
        1_000,
        0,
    );

    assert!(report.complete);
    let roots = index.indexed_roots();
    assert_eq!(roots.len(), 1);
    assert!(roots[0].complete);
    assert!(!roots[0].uses_ntfs_usn);
    assert_eq!(
        index.search(&SearchRequest::new("pdf")).unwrap()[0].path,
        "E:/无日志快照.pdf"
    );
}

#[test]
fn scan_replaces_a_root_snapshot_and_searches_unicode_names() {
    let mut index = SearchIndex::open("index.db");
    let root = "D:\\资料";
    let initial = index.scan_root(
        root,
        &vec![
            found("2026", true),
            found("2026\\季度报告.TXT", false),
            found("README.md", false),
        ],
        1_000,
        3,
    );
    assert_eq!(initial.indexed_files, 2);
    assert_eq!(
        initial,
        ScanReport {
            root: "D:/资料".to_owned(),
            indexed_files: 2,
            indexed_directories: 1,
            skipped_entries: 0,
            complete: true,
            elapsed_ms: 3,
        }
    );

    let results = index.search(&SearchRequest::new("季度报告")).unwrap();
    assert_eq!(results.len(), 1);
    assert!(results[0].path.ends_with("季度报告.TXT"));
    assert_eq!(
        results[0],
        SearchItem {
            path: "D:/资料/2026/季度报告.TXT".to_owned(),
            name: "季度报告.TXT".to_owned(),
            is_directory: false,
            size_bytes: 6,
            modified_unix_ms: Some(1_700_000_000_000),
        }
    );

    let refreshed = index.scan_root(
        root,
        &vec![
            found("2026", true),
            found("2026\\季度报告.TXT", false),
            found("2026\\发票.pdf", false),
            found("pdf-发票资料", true),
            found("pdf-发票资料\\无关.txt", false),
        ],
        2_000,
        0,
    );
    assert_eq!(refreshed.indexed_files, 3);

    let removed = index.search(&SearchRequest::new("readme")).unwrap();
    assert!(removed.is_empty());
    let added = index.search(&SearchRequest::new("发票")).unwrap();
    assert_eq!(added.len(), 3);
    assert!(added[0].path.ends_with("发票.pdf"));

    let by_type_and_related_words = index.search(&SearchRequest::new("pdf 发票")).unwrap();
    assert_eq!(by_type_and_related_words.len(), 3);
    assert!(by_type_and_related_words[0].path.ends_with("发票.pdf"));

    let by_type = index.search(&SearchRequest::new("pdf")).unwrap();
    assert!(by_type[0].path.ends_with("发票.pdf"));
}

#[test]
fn an_incomplete_scan_keeps_what_was_indexed() {
    let mut index = SearchIndex::open("index.db");
    index.scan_root("D:\\", &vec![found("a.txt", false)], 1_000, 0);
    let report = index.scan_root(
        "D:\\",
        &vec![found("b.txt", false), WalkItem::Skipped],
        2_000,
        0,
    );
    assert!(!report.complete);
    assert_eq!(report.skipped_entries, 1);
    assert_eq!(paths(&index, "txt"), vec!["D:/a.txt", "D:/b.txt"]);
    let root = &index.indexed_roots()[0];
    assert!(!root.complete);
    assert_eq!(root.skipped_entries, 1);
}

#[test]
fn two_scans_at_the_same_moment_are_told_apart() {
    let mut index = SearchIndex::open("index.db");
    index.scan_root("D:\\", &vec![found("a.txt", false)], 1_000, 0);
    index.scan_root("D:\\", &vec![found("b.txt", false)], 1_000, 0);
    assert_eq!(paths(&index, "txt"), vec!["D:/b.txt"]);
}

#[test]
fn results_come_in_the_documented_order() {
    let mut index = SearchIndex::open("index.db");
    index.scan_root(
        "D:\\",
        &vec![
            found("pdf", true),
            found("z.pdf", false),
            found("B.PDF", false),
            found("pdf-notes", true),
            found("pdf-list.txt", false),
            found("pdf\\other.txt", false),
        ],
        1_000,
        0,
    );
    assert_eq!(
        paths(&index, "pdf"),
        vec![
            "D:/B.PDF",
            "D:/z.pdf",
            "D:/pdf",
            "D:/pdf-list.txt",
            "D:/pdf-notes",
            "D:/pdf/other.txt",
        ]
    );
    assert_eq!(paths(&index, ".pdf"), vec!["D:/B.PDF", "D:/z.pdf"]);
}

#[test]
fn pattern_characters_stand_for_themselves() {
    let mut index = SearchIndex::open("index.db");
    index.scan_root(
        "D:\\",
        &vec![found("100%.txt", false), found("100x.txt", false), found("a_b.txt", false)],
        1_000,
        0,
    );
    assert_eq!(paths(&index, "100%"), vec!["D:/100%.txt"]);
    assert_eq!(paths(&index, "a_b"), vec!["D:/a_b.txt"]);
    assert!(paths(&index, "a%b").is_empty());
}

#[test]
fn names_are_compared_in_their_normal_form() {
    let mut index = SearchIndex::open("index.db");
    index.scan_root(
        "D:\\",
        &vec![found("cafe\u{301}.TXT", false), found("ÄRGER.txt", false)],
        1_000,
        0,
    );
    assert_eq!(paths(&index, "CAF\u{e9}").len(), 1);
    assert_eq!(paths(&index, "ärger").len(), 1);
}

#[test]
fn the_limit_is_kept_between_one_and_a_thousand() {
    let mut index = SearchIndex::open("index.db");
    let walk: Vec<WalkItem> = (0..1_200)
        .map(|i| found(&format!("f{i:04}.txt"), false))
        .collect();
    index.scan_root("D:\\", &walk, 1_000, 0);
    let count = |limit: usize| {
        let mut request = SearchRequest::new("txt");
        request.limit = limit;
        let items = index.search(&request).unwrap();
        assert_eq!(items[0].name, "f0000.txt");
        items.len()
    };
    assert_eq!(count(0), 1);
    assert_eq!(count(7), 7);
    assert_eq!(count(5_000), 1_000);
    assert_eq!(SearchRequest::new("x").limit, 50);
}

#[test]
fn a_search_within_a_path_keeps_to_it() {
    let mut index = SearchIndex::open("index.db");
    index.scan_root(
        "C:\\",
        &vec![
            found("Users\\a\\x.txt", false),
            found("Users\\ab\\x.txt", false),
            found("x.txt", false),
        ],
        1_000,
        0,
    );
    index.scan_root("D:\\", &vec![found("x.txt", false)], 1_000, 0);
    let within = |root: &str| {
        let mut request = SearchRequest::new("x.txt");
        request.root = Some(root.to_owned());
        let found: Vec<String> = index
            .search(&request)
            .unwrap()
            .into_iter()
            .map(|item| item.path)
            .collect();
        found
    };
    assert_eq!(within("C:\\Users\\a"), vec!["C:/Users/a/x.txt"]);
    assert_eq!(within("C:\\").len(), 3);
    assert_eq!(within("D:\\"), vec!["D:/x.txt"]);
    assert!(within("E:\\").is_empty());
}

#[test]
fn refused_queries_say_why() {
    let index = SearchIndex::open("index.db");
    let refusal = |query: &str| index.search(&SearchRequest::new(query)).unwrap_err();
    assert!(matches!(refusal(""), SearchError::EmptyQuery));
    assert_eq!(refusal(" \t ").message(), "搜索词不能为空");
    assert!(matches!(
        refusal(&"长".repeat(513)),
        SearchError::QueryTooLong
    ));
    assert!(index.search(&SearchRequest::new(&"长".repeat(512))).is_ok());
    assert!(matches!(
        refusal(&"a ".repeat(17)),
        SearchError::TooManyTerms
    ));
    assert!(index.search(&SearchRequest::new(&"a ".repeat(16))).is_ok());
}

#[test]
fn errors_are_worded() {
    assert_eq!(
        SearchError::NotDirectory("D:/a.txt".to_owned()).message(),
        "索引根目录不是目录：D:/a.txt"
    );
    assert_eq!(
        SearchError::Io {
            path: "C:".to_owned(),
            source: "denied".to_owned()
        }
        .message(),
        "无法访问路径 C:: denied"
    );
    assert_eq!(
        SearchError::Database("locked".to_owned()).message(),
        "数据库错误：locked"
    );
    assert_eq!(SearchError::QueryTooLong.message(), "搜索词不能超过 512 个字符");
    assert_eq!(SearchError::TooManyTerms.message(), "搜索词不能超过 16 个");
}

#[test]
fn status_counts_all_roots() {
    let mut index = SearchIndex::open("somewhere/index.db");
    assert_eq!(index.database_path(), "somewhere/index.db");
    assert_eq!(
        index.status(),
        IndexStatus {
            indexed_files: 0,
            indexed_directories: 0,
            roots: 0,
            incomplete_roots: 0
        }
    );
    index.scan_root("D:\\", &vec![found("a", true), found("a\\x", false)], 1, 0);
    index.scan_root("C:\\", &vec![found("a", false), WalkItem::Skipped], 1, 0);
    assert_eq!(
        index.status(),
        IndexStatus {
            indexed_files: 2,
            indexed_directories: 1,
            roots: 2,
            incomplete_roots: 1
        }
    );
    let names: Vec<String> = index.indexed_roots().into_iter().map(|root| root.root).collect();
    assert_eq!(names, vec!["C:/", "D:/"]);
}

#[test]
fn a_removed_root_takes_its_entries_along() {
    let mut index = SearchIndex::open("index.db");
    index.scan_root("D:\\", &vec![found("a.txt", false)], 1, 0);
    index.scan_root("E:\\", &vec![found("a.txt", false)], 1, 0);
    assert!(index.remove_root("D:\\"));
    assert!(!index.remove_root("D:\\"));
    assert_eq!(paths(&index, "a.txt"), vec!["E:/a.txt"]);
    assert_eq!(index.root_names(), vec!["E:/"]);
}

#[test]
fn unplaceable_changes_leave_the_index_as_it_was() {
    let mut index = SearchIndex::open("index.db");
    index.persist_ntfs_records(
        "C:/".to_owned(),
        vec![
            record(10, ROOT_FILE_REFERENCE, 1, true, "a"),
            record(11, 10, 2, false, "x.txt"),
            record(12, ROOT_FILE_REFERENCE, 2, false, "y.txt"),
        ],
        7,
        3,
        1_000,
        0,
    );
    let attempts = vec![
        vec![record(13, 99, 4, false, "z.txt")],
        vec![record(13, 12, 4, false, "z.txt")],
        vec![record(13, 10, 4, false, "..")],
        vec![record(13, 10, 4, false, "x.txt")],
        // The first change alone could be applied; the second cannot.
        vec![
            deleted(record(11, 10, 4, false, "x.txt")),
            record(13, 99, 5, false, "z.txt"),
        ],
    ];
    for attempt in attempts {
        assert!(!index
            .apply_ntfs_delta("C:/", journal(7, 9), 9, attempt, 2_000)
            .unwrap());
        assert_eq!(paths(&index, "txt"), vec!["C:/a/x.txt", "C:/y.txt"]);
        assert_eq!(index.indexed_roots()[0].last_scan_unix_ms, 1_000);
    }
    assert!(index
        .apply_ntfs_delta(
            "C:/",
            journal(7, 9),
            9,
            vec![
                record(13, 14, 5, false, "z.txt"),
                record(14, ROOT_FILE_REFERENCE, 4, true, "b"),
                record(ROOT_FILE_REFERENCE, ROOT_FILE_REFERENCE, 6, true, "."),
            ],
            2_000,
        )
        .unwrap());
    assert_eq!(paths(&index, "z.txt"), vec!["C:/b/z.txt"]);
    assert_eq!(index.indexed_roots()[0].last_scan_unix_ms, 2_000);
}

#[test]
fn changes_of_an_unknown_root_are_refused() {
    let mut index = SearchIndex::open("index.db");
    assert_eq!(
        index
            .apply_ntfs_delta(
                "C:/",
                journal(7, 9),
                9,
                vec![record(13, ROOT_FILE_REFERENCE, 4, false, "z.txt")],
                1,
            )
            .unwrap_err()
            .message(),
        "数据库错误：FOREIGN KEY constraint failed"
    );
    assert!(!index
        .apply_ntfs_delta("C:/", journal(7, 9), 9, vec![record(13, 99, 4, false, "z")], 1)
        .unwrap());
    assert!(index.update_ntfs_cursor("C:/", 1, 2).is_err());
    assert_eq!(
        index.report_for_root("C:/", 0).unwrap_err().message(),
        "无法访问路径 C:/: NTFS 索引根不存在，无法更新 USN 游标"
    );
}

#[test]
fn a_volume_is_scanned_without_its_own_root_record() {
    let mut index = SearchIndex::open("index.db");
    let report = index
        .scan_ntfs_volume(
            'c',
            Ok(MftSnapshot {
                volume: 'C',
                journal_id: 7,
                next_usn: 3,
                records: vec![
                    record(ROOT_FILE_REFERENCE, ROOT_FILE_REFERENCE, 0, true, "."),
                    record(10, ROOT_FILE_REFERENCE, 1, false, "a.txt"),
                ],
            }),
            1_000,
            8,
        )
        .unwrap();
    assert_eq!(
        report,
        ScanReport {
            root: "C:/".to_owned(),
            indexed_files: 1,
            indexed_directories: 0,
            skipped_entries: 0,
            complete: true,
            elapsed_ms: 8,
        }
    );
    let error = index
        .scan_ntfs_volume('d', Err(IoError::new(IoKind::Other, "拒绝访问")), 1_000, 0)
        .unwrap_err();
    assert_eq!(error.message(), "无法访问路径 d:: 拒绝访问");
    assert_eq!(index.root_names(), vec!["C:/"]);
}

#[test]
fn a_synchronisation_follows_the_stored_position() {
    let mut index = SearchIndex::open("index.db");
    index.persist_ntfs_records(
        "C:/".to_owned(),
        vec![record(10, ROOT_FILE_REFERENCE, 1, false, "a.txt")],
        7,
        -3,
        1_000,
        0,
    );
    let step = index.sync_ntfs_volume('c', true, SyncEvent::Start, 2_000, 0);
    assert!(matches!(
        step,
        SyncStep::ReadJournal {
            volume: 'C',
            journal_id: 7,
            next_usn: -3
        }
    ));
    let step = index.sync_ntfs_volume(
        'c',
        true,
        SyncEvent::Journal(Ok(JournalDelta {
            journal: journal(7, 20),
            next_usn: 12,
            records: vec![],
        })),
        2_000,
        5,
    );
    match step {
        SyncStep::Done(Ok(Some(report))) => {
            assert_eq!(report.indexed_files, 1);
            assert_eq!(report.elapsed_ms, 5);
        }
        other => panic!("{other:?}"),
    }
    let step = index.sync_ntfs_volume('C', false, SyncEvent::Start, 2_000, 0);
    assert!(matches!(step, SyncStep::ReadJournal { next_usn: 12, .. }));
    let step = index.sync_ntfs_volume(
        'C',
        false,
        SyncEvent::Journal(Ok(JournalDelta {
            journal: journal(7, 20),
            next_usn: 20,
            records: vec![record(11, ROOT_FILE_REFERENCE, 15, false, "b.txt")],
        })),
        3_000,
        0,
    );
    assert!(matches!(step, SyncStep::Done(Ok(Some(_)))));
    assert_eq!(paths(&index, "txt"), vec!["C:/a.txt", "C:/b.txt"]);
    assert!(matches!(
        index.sync_indexed_ntfs_volumes(VolumesEvent::Start, 4_000),
        VolumesStep::Synchronise { volume: 'C', .. }
    ));
}

#[test]
fn a_lost_position_leads_to_a_snapshot_or_a_mark() {
    let mut index = SearchIndex::open("index.db");
    index.persist_ntfs_records(
        "C:/".to_owned(),
        vec![record(10, ROOT_FILE_REFERENCE, 1, false, "a.txt")],
        7,
        3,
        1_000,
        0,
    );
    let reset = || SyncEvent::Journal(Err(JournalReadError::Reset));
    assert!(matches!(
        index.sync_ntfs_volume('C', true, reset(), 2_000, 0),
        SyncStep::TakeSnapshot { volume: 'C' }
    ));
    assert!(index.indexed_roots()[0].complete);
    assert!(matches!(
        index.sync_ntfs_volume('C', false, reset(), 2_000, 0),
        SyncStep::Done(Ok(None))
    ));
    let root = &index.indexed_roots()[0];
    assert!(!root.complete);
    assert!(!root.uses_ntfs_usn);
    assert_eq!(root.skipped_entries, 1);
    assert_eq!(paths(&index, "a.txt"), vec!["C:/a.txt"]);
    match index.sync_indexed_ntfs_volumes(VolumesEvent::Start, 3_000) {
        VolumesStep::Done(Ok(reports)) => assert!(reports.is_empty()),
        other => panic!("{other:?}"),
    }
    assert!(matches!(
        index.sync_ntfs_volume('C', true, SyncEvent::Start, 2_000, 0),
        SyncStep::TakeSnapshot { volume: 'C' }
    ));
    let step = index.sync_ntfs_volume(
        'C',
        true,
        SyncEvent::Snapshot(Ok(MftSnapshot {
            volume: 'C',
            journal_id: 8,
            next_usn: 1,
            records: vec![record(10, ROOT_FILE_REFERENCE, 1, false, "c.txt")],
        })),
        3_000,
        0,
    );
    assert!(matches!(step, SyncStep::Done(Ok(Some(_)))));
    assert_eq!(paths(&index, "txt"), vec!["C:/c.txt"]);
}

#[test]
fn failures_of_a_volume_end_its_synchronisation() {
    let mut index = SearchIndex::open("index.db");
    let step = index.sync_ntfs_volume(
        'd',
        true,
        SyncEvent::Journal(Err(JournalReadError::Io(IoError::new(IoKind::Other, "忙")))),
        1,
        0,
    );
    match step {
        SyncStep::Done(Err(error)) => assert_eq!(error.message(), "无法访问路径 D:: 忙"),
        other => panic!("{other:?}"),
    }
    let step = index.sync_ntfs_volume(
        'd',
        true,
        SyncEvent::Journal(Err(JournalReadError::Parse(
            jinfu_search::ntfs::NtfsError::UnsupportedVersion(4),
        ))),
        1,
        0,
    );
    match step {
        SyncStep::Done(Err(error)) => {
            assert_eq!(error.message(), "无法访问路径 D:: 不支持的 USN 主版本：4")
        }
        other => panic!("{other:?}"),
    }
}

#[test]
fn a_term_ends_at_a_nul_and_then_stands_at_the_end() {
    let mut index = SearchIndex::open("index.db");
    index.scan_root(
        "D:\\",
        &vec![found("report.pdf", false), found("pdf-report.txt", false)],
        1,
        0,
    );
    assert_eq!(paths(&index, "pdf").len(), 2);
    assert_eq!(paths(&index, "PDF\0x"), vec!["D:/report.pdf"]);
    assert_eq!(paths(&index, "report\0"), Vec::<String>::new());
    assert_eq!(paths(&index, "\0").len(), 2);
    assert_eq!(paths(&index, "report t\0"), vec!["D:/pdf-report.txt"]);
    assert_eq!(paths(&index, "txt\0y"), vec!["D:/pdf-report.txt"]);
}

#[test]
fn a_path_with_a_drive_of_its_own_stands_for_itself() {
    let mut index = SearchIndex::open("index.db");
    index.persist_ntfs_records(
        "C:/".to_owned(),
        vec![
            record(10, ROOT_FILE_REFERENCE, 1, true, "D:x"),
            record(11, 10, 2, false, "inner.txt"),
        ],
        7,
        3,
        1_000,
        0,
    );
    assert_eq!(paths(&index, "inner"), vec!["D:x/inner.txt"]);
    let mut request = SearchRequest::new("inner");
    request.root = Some("C:\\".to_owned());
    assert_eq!(index.search(&request).unwrap().len(), 1);
    request.root = Some("D:\\".to_owned());
    assert!(index.search(&request).unwrap().is_empty());
}

#[test]
fn a_followed_root_that_is_no_volume_is_marked() {
    let mut index = SearchIndex::open("index.db");
    index.persist_ntfs_records(
        "//server/share".to_owned(),
        vec![record(10, ROOT_FILE_REFERENCE, 1, false, "a.txt")],
        7,
        3,
        1_000,
        0,
    );
    assert!(index.indexed_roots()[0].uses_ntfs_usn);
    match index.sync_indexed_ntfs_volumes(VolumesEvent::Start, 2_000) {
        VolumesStep::Done(Ok(reports)) => assert!(reports.is_empty()),
        other => panic!("{other:?}"),
    }
    assert!(!index.indexed_roots()[0].uses_ntfs_usn);
    assert!(!index.indexed_roots()[0].complete);
}

#[test]
fn a_file_may_take_the_place_of_one_that_was_moved_away() {
    let mut index = SearchIndex::open("index.db");
    index.persist_ntfs_records(
        "C:/".to_owned(),
        vec![
            record(10, ROOT_FILE_REFERENCE, 1, true, "old"),
            record(11, 10, 2, false, "x.txt"),
            record(12, ROOT_FILE_REFERENCE, 2, true, "new"),
        ],
        7,
        3,
        1_000,
        0,
    );
    assert!(index
        .apply_ntfs_delta(
            "C:/",
            journal(7, 9),
            9,
            vec![
                record(12, ROOT_FILE_REFERENCE, 4, true, "newer"),
                record(10, 12, 5, true, "inner"),
                record(13, ROOT_FILE_REFERENCE, 6, true, "old"),
                record(14, 13, 7, false, "x.txt"),
            ],
            2_000,
        )
        .unwrap());
    assert_eq!(
        paths(&index, "x.txt"),
        vec!["C:/newer/inner/x.txt", "C:/old/x.txt"]
    );
}

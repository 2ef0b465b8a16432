use jinfu_search::bytes::{get_le32, put_le};
use jinfu_search::json::{list_text, optional_text_text};
use jinfu_search::maintenance::record_full_scan;
use jinfu_search::normalize::normalize_for_search;
use jinfu_search::ntfs::{JournalInfo, UsnRecord, ROOT_FILE_REFERENCE};
use jinfu_search::pipe::{MAX_ACTIVE_PIPE_CONNECTIONS, MAX_PIPE_INSTANCES};
use jinfu_search::refresh::node_changes;
use jinfu_search::root::{FoundEntry, WalkItem};
use jinfu_search::rpc::{route, RpcCall, SearchParams};
use jinfu_search::sync::{SyncEvent, SyncStep, VolumesEvent, VolumesStep};
use jinfu_search::tables::NodeTable;
use jinfu_search::volume::{JournalDelta, JournalReadError};
use jinfu_search::{handle_rpc, ScanReport, SearchError, SearchIndex, SearchRequest};

fn found(path: &str, is_directory: bool) -> WalkItem {
    WalkItem::Found(FoundEntry {
        relative_path: path.to_owned(),
        name: path.rsplit('/').next().unwrap().to_owned(),
        is_directory,
        size_bytes: 1,
        modified_ms: None,
    })
}

fn record(number: u64, parent: u64, usn: i64, is_directory: bool, name: &str) -> UsnRecord {
    UsnRecord {
        file_reference_number: number,
        parent_file_reference_number: parent,
        usn,
        timestamp_filetime: 116_444_736_000_000_000,
        reason: 0,
        file_attributes: if is_directory { 0x10 } else { 0 },
        name: name.to_owned(),
    }
}

fn paths(index: &SearchIndex, query: &str) -> Vec<String> {
    index
        .search(&SearchRequest::new(query))
        .unwrap()
        .into_iter()
        .map(|item| item.path)
        .collect()
}

fn texts(values: &[&str]) -> Vec<String> {
    values.iter().map(|value| value.to_string()).collect()
}

#[test]
fn a_refresh_leaves_alone_what_it_does_not_cover() {
    let mut index = SearchIndex::open("index.db");
    index.scan_root(
        "E:/",
        &vec![
            found("a", true),
            found("a/x.txt", false),
            found("a/y.txt", false),
            found("ab.txt", false),
        ],
        1_000,
        0,
    );
    index
        .refresh_changed_paths(
            "E:/",
            &texts(&["a"]),
            &vec![found("a", true), found("a/y.txt", false), found("a/z.txt", false)],
            2_000,
        )
        .unwrap();
    assert_eq!(paths(&index, "txt"), texts(&["E:/ab.txt", "E:/a/y.txt", "E:/a/z.txt"]));
    assert!(index.indexed_roots()[0].complete);
    assert_eq!(index.indexed_roots()[0].last_scan_unix_ms, 2_000);

    index
        .refresh_changed_paths("E:/", &texts(&["a"]), &vec![WalkItem::Skipped], 3_000)
        .unwrap();
    assert_eq!(paths(&index, "txt").len(), 3);
    assert!(!index.indexed_roots()[0].complete);
    assert_eq!(index.indexed_roots()[0].skipped_entries, 1);

    index
        .refresh_changed_paths("E:/", &texts(&[""]), &vec![], 4_000)
        .unwrap();
    assert!(paths(&index, "txt").is_empty());
    assert!(index
        .refresh_changed_paths("F:/", &texts(&["a"]), &vec![], 4_000)
        .is_err());
}

#[test]
fn a_file_is_found_by_any_part_of_its_name() {
    let mut index = SearchIndex::open("index.db");
    index.scan_root("D:/", &vec![found("2026/季度 报告 Final.TXT", false)], 1, 0);
    let path = texts(&["D:/2026/季度 报告 Final.TXT"]);
    for query in ["季度 报告 Final.TXT", "报告", "FINAL", "告 fin", "inal.t", "报告 2026", "季"] {
        assert_eq!(paths(&index, query), path, "{query}");
    }
    assert!(paths(&index, "季度报告").is_empty());
    assert!(paths(&index, "报告 2027").is_empty());

    let mut index = SearchIndex::open("index.db");
    index.persist_ntfs_records(
        "C:/".to_owned(),
        vec![
            record(10, ROOT_FILE_REFERENCE, 1, true, "资料"),
            record(11, 10, 2, false, "Über.PDF"),
            record(12, 99, 3, false, "lost.pdf"),
        ],
        7,
        4,
        1,
        0,
    );
    assert_eq!(paths(&index, "ÜBER.pdf"), texts(&["C:/资料/Über.PDF"]));
    assert!(paths(&index, "lost").is_empty());
}

#[test]
fn a_higher_limit_keeps_the_first_results() {
    let mut index = SearchIndex::open("index.db");
    let walk: Vec<WalkItem> = ["b.txt", "a.txt", "c", "txt", "d-txt.md"]
        .into_iter()
        .map(|name| found(name, name == "c"))
        .collect();
    index.scan_root("D:/", &walk, 1, 0);
    let of = |limit: usize| {
        let mut request = SearchRequest::new("txt");
        request.limit = limit;
        index.search(&request).unwrap()
    };
    let all = of(10);
    let names: Vec<&str> = all.iter().map(|item| item.name.as_str()).collect();
    assert_eq!(names, vec!["a.txt", "b.txt", "txt", "d-txt.md"]);
    for limit in 1..=4 {
        assert_eq!(of(limit), all[..limit]);
    }
}

#[test]
fn reading_changes_nothing() {
    let mut index = SearchIndex::open("index.db");
    index.scan_root("D:/", &vec![found("a.txt", false)], 1, 0);
    let before = (index.status(), index.indexed_roots(), paths(&index, "a"));
    for (method, call) in [
        ("status.get", RpcCall::Status),
        ("index.list_roots", RpcCall::ListRoots),
        (
            "search.query",
            RpcCall::Search(Ok(SearchParams {
                query: "a".to_owned(),
                limit: None,
                root: None,
            })),
        ),
    ] {
        let request = format!("{{\"jsonrpc\":\"2.0\",\"id\":0,\"method\":\"{method}\"}}");
        let task = route(request.as_bytes()).unwrap();
        let response = handle_rpc(&mut index, task, call);
        assert!(response.contains("\"result\":"), "{response}");
        assert_eq!(before, (index.status(), index.indexed_roots(), paths(&index, "a")));
    }
}

#[test]
fn walks_that_say_the_same_give_the_same_results_at_any_time() {
    let walk = vec![
        found("notes", true),
        found("notes/a.md", false),
        found("notes/b.md", false),
        WalkItem::Skipped,
    ];
    let mut early = SearchIndex::open("early.db");
    let mut late = SearchIndex::open("late.db");
    let first = early.scan_root("D:/", &walk, 1_000, 3);
    let second = late.scan_root("D:/", &walk, 9_000_000, 3);
    assert_eq!(first, second);
    for query in ["md", "notes", "a", "B.MD", "x"] {
        let request = SearchRequest::new(query);
        assert_eq!(
            early.search(&request).unwrap(),
            late.search(&request).unwrap()
        );
    }
}

#[test]
fn a_further_term_only_narrows_and_terms_have_no_order() {
    let mut index = SearchIndex::open("index.db");
    index.scan_root(
        "D:/",
        &vec![
            found("资料", true),
            found("资料/季度报告.txt", false),
            found("资料/notes.txt", false),
            found("Report Notes.md", false),
        ],
        1,
        0,
    );
    let sorted = |query: &str| {
        let mut paths = paths(&index, query);
        paths.sort();
        paths
    };
    for (query, term) in [("txt", "资料"), ("notes", "REPORT"), ("notes txt", "d"), ("md", "txt")] {
        let all = sorted(query);
        let behind = sorted(&format!("{query} {term}"));
        assert!(behind.iter().all(|path| all.contains(path)));
        assert_eq!(behind, sorted(&format!("{term} {query}")));
    }
    assert_eq!(sorted("notes report"), vec!["D:/Report Notes.md"]);
    assert_eq!(sorted("txt 资料").len(), 2);
}

#[test]
fn the_order_of_reported_changes_does_not_matter() {
    let start = |now: i64| {
        let mut index = SearchIndex::open("index.db");
        index.persist_ntfs_records(
            "C:/".to_owned(),
            vec![
                record(10, ROOT_FILE_REFERENCE, 1, true, "old"),
                record(11, 10, 2, false, "x.txt"),
            ],
            7,
            3,
            now,
            0,
        );
        index
    };
    let change = |usn: i64| match usn {
        4 => record(12, ROOT_FILE_REFERENCE, 4, true, "new"),
        5 => record(10, 12, 5, true, "moved"),
        _ => record(13, 10, 6, false, "y.txt"),
    };
    let mut outcomes = Vec::new();
    for (order, now) in [([4, 5, 6], 1_000), ([6, 4, 5], 2_000), ([5, 6, 4], 3_000)] {
        let mut index = start(1);
        let changes = order.iter().map(|usn| change(*usn)).collect();
        let journal = JournalInfo {
            journal_id: 7,
            first_usn: 0,
            next_usn: 9,
        };
        assert!(index.apply_ntfs_delta("C:/", journal, 9, changes, now).unwrap());
        outcomes.push(paths(&index, "txt"));
    }
    assert_eq!(outcomes[0], vec!["C:/new/moved/x.txt", "C:/new/moved/y.txt"]);
    assert_eq!(outcomes[0], outcomes[1]);
    assert_eq!(outcomes[0], outcomes[2]);
}

#[test]
fn volumes_have_their_turns_and_an_error_ends_them() {
    let mut index = SearchIndex::open("index.db");
    for root in ["//server/a", "C:/", "D:/", "Z:/share"] {
        index.persist_ntfs_records(
            root.to_owned(),
            vec![record(10, ROOT_FILE_REFERENCE, 1, false, "a.txt")],
            7,
            3,
            1_000,
            0,
        );
    }
    let followed = |index: &SearchIndex| -> Vec<bool> {
        index
            .indexed_roots()
            .iter()
            .map(|root| root.uses_ntfs_usn)
            .collect()
    };
    assert_eq!(followed(&index), vec![true, true, true, true]);
    let progress = match index.sync_indexed_ntfs_volumes(VolumesEvent::Start, 2_000) {
        VolumesStep::Synchronise { volume: 'C', progress } => progress,
        other => panic!("{other:?}"),
    };
    assert_eq!(followed(&index), vec![false, true, true, true]);
    let report = ScanReport {
        root: "C:/".to_owned(),
        indexed_files: 1,
        indexed_directories: 0,
        skipped_entries: 0,
        complete: true,
        elapsed_ms: 1,
    };
    let event = VolumesEvent::Synchronised {
        progress,
        result: Ok(Some(report.clone())),
    };
    let progress = match index.sync_indexed_ntfs_volumes(event, 3_000) {
        VolumesStep::Synchronise { volume: 'D', progress } => progress,
        other => panic!("{other:?}"),
    };
    let event = VolumesEvent::Synchronised {
        progress,
        result: Err(SearchError::EmptyQuery),
    };
    assert!(matches!(
        index.sync_indexed_ntfs_volumes(event, 4_000),
        VolumesStep::Done(Err(SearchError::EmptyQuery))
    ));
    assert_eq!(followed(&index), vec![false, true, true, true]);

    let mut step = index.sync_indexed_ntfs_volumes(VolumesEvent::Start, 5_000);
    let mut turns = Vec::new();
    let reports = loop {
        step = match step {
            VolumesStep::Synchronise { volume, progress } => {
                turns.push(volume);
                let result = if volume == 'C' {
                    Ok(Some(report.clone()))
                } else {
                    Ok(None)
                };
                let event = VolumesEvent::Synchronised { progress, result };
                index.sync_indexed_ntfs_volumes(event, 6_000)
            }
            VolumesStep::Done(result) => break result.unwrap(),
        };
    };
    assert_eq!(turns, vec!['C', 'D']);
    assert_eq!(reports, vec![report]);
    assert_eq!(followed(&index), vec![false, true, true, false]);
}

#[test]
fn a_synchronisation_touches_one_root() {
    let mut index = SearchIndex::open("index.db");
    for root in ["C:/", "D:/"] {
        index.persist_ntfs_records(
            root.to_owned(),
            vec![record(10, ROOT_FILE_REFERENCE, 1, false, "a.txt")],
            7,
            3,
            1_000,
            0,
        );
    }
    let step = index.sync_ntfs_volume(
        'C',
        true,
        SyncEvent::Journal(Ok(JournalDelta {
            journal: JournalInfo {
                journal_id: 7,
                first_usn: 0,
                next_usn: 9,
            },
            next_usn: 9,
            records: vec![record(10, ROOT_FILE_REFERENCE, 4, false, "b.txt")],
        })),
        2_000,
        0,
    );
    assert!(matches!(step, SyncStep::Done(Ok(Some(_)))));
    assert_eq!(paths(&index, "txt"), texts(&["D:/a.txt", "C:/b.txt"]));
    let reset = SyncEvent::Journal(Err(JournalReadError::Reset));
    let step = index.sync_ntfs_volume('C', false, reset, 3_000, 0);
    assert!(matches!(step, SyncStep::Done(Ok(None))));
    let roots = index.indexed_roots();
    assert!(!roots[0].complete);
    assert!(roots[1].complete);
    assert_eq!(roots[1].last_scan_unix_ms, 1_000);
}

#[test]
fn a_volume_that_was_read_is_remembered() {
    let mut index = SearchIndex::open("index.db");
    assert!(record_full_scan(&mut index, 'E', 5).is_err());
    index.scan_root("E:/", &vec![], 1, 0);
    record_full_scan(&mut index, 'E', 5).unwrap();
    let states = index.auto_volume_states();
    assert_eq!(states.len(), 1);
    assert_eq!(states[0].root, "E:/");
    assert_eq!(states[0].last_reconcile_unix_ms, 5);
    assert!(!states[0].uses_ntfs_usn);
}

#[test]
fn unchanged_nodes_are_not_stored_again() {
    let mut index = SearchIndex::open("index.db");
    let first = vec![
        record(10, ROOT_FILE_REFERENCE, 1, true, "a"),
        record(11, 10, 2, false, "x.txt"),
        record(12, ROOT_FILE_REFERENCE, 2, false, "y.txt"),
    ];
    index.persist_ntfs_records("C:/".to_owned(), first, 7, 3, 1, 0);
    let before = index.root("C:/").unwrap().tree.copy();
    let second = vec![
        record(10, ROOT_FILE_REFERENCE, 1, true, "b"),
        record(11, 10, 2, false, "x.txt"),
        record(13, ROOT_FILE_REFERENCE, 2, false, "z.txt"),
    ];
    index.persist_ntfs_records("C:/".to_owned(), second, 7, 3, 1, 0);
    let after = &index.root("C:/").unwrap().tree;
    let changes = node_changes(&before.nodes, &after.nodes);
    assert_eq!(changes.removed, vec![12]);
    let written: Vec<(u64, &str)> = changes
        .written
        .iter()
        .map(|node| (node.file_reference_number, node.relative_path.as_str()))
        .collect();
    assert_eq!(written, vec![(10, "b"), (11, "b/x.txt"), (13, "z.txt")]);
    assert!(node_changes(&after.nodes, &after.nodes).written.is_empty());
    assert_eq!(node_changes(&NodeTable::new(), &after.nodes).written.len(), 3);
}

#[test]
fn written_numbers_are_read_and_an_instance_is_left() {
    let mut bytes = vec![9];
    put_le(&mut bytes, 0x0102_0304, 4);
    put_le(&mut bytes, 7, 2);
    assert_eq!(bytes, vec![9, 4, 3, 2, 1, 7, 0]);
    assert_eq!(get_le32(&bytes, 1), 0x0102_0304);
    assert!(MAX_ACTIVE_PIPE_CONNECTIONS < MAX_PIPE_INSTANCES);
}

#[test]
fn texts_are_quoted_and_brought_into_their_normal_form() {
    let quoted = |text: &str| optional_text_text(&Some(text.to_owned()));
    assert_eq!(quoted("a\"b\\c/资"), "\"a\\\"b\\\\c/资\"");
    assert_eq!(quoted("\u{1}\u{8}\t\n\u{b}\u{c}\r\u{1f}\u{7f}"), "\"\\u0001\\b\\t\\n\\u000b\\f\\r\\u001f\u{7f}\"");
    assert_eq!(optional_text_text(&None), "null");
    assert_eq!(list_text(&texts(&["1", "null"])), "[1,null]");
    assert_eq!(normalize_for_search("Cafe\u{301} İX"), "caf\u{e9} i\u{307}x");
    assert_eq!(normalize_for_search("README.Md"), "readme.md");
}

#[test]
fn equal_normal_forms_have_equal_results() {
    let mut index = SearchIndex::open("index.db");
    index.scan_root("D:/", &vec![found("Cafe\u{301}.txt", false)], 1, 0);
    assert_eq!(paths(&index, "CAF\u{c9}").len(), 1);
    assert_eq!(paths(&index, "CAF\u{c9}"), paths(&index, "cafe\u{301}"));
}

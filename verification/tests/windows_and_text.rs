use jinfu_search::bytes::{get_le32, get_le64, to_signed64, to_unsigned64};
use jinfu_search::clock::{
    current_unix_ms, filetime_to_unix_ms, next_generation, system_time_to_ms,
};
use jinfu_search::delta::sort_by_usn;
use jinfu_search::errors::{IoError, IoKind};
use jinfu_search::like::{ending_pattern, escape_like, ntfs_path_prefix_pattern, term_pattern};
use jinfu_search::ntfs::UsnRecord;
use jinfu_search::paths::{
    is_in_subtree, is_within, join_storage, move_path, path_to_compare, valid_ntfs_component,
    valid_ntfs_relative_path, volume_from_ntfs_root,
};
use jinfu_search::refresh::{changed_below, entry_changes};
use jinfu_search::root::{FoundEntry, StoredCursor, WalkItem};
use jinfu_search::search_ui::{
    decode_command, explorer_arguments, horizontal_extent, idle_hint, layout,
    machine_index_summary, panel_of, selected_path, volume_failure, OpenStep, PanelCommand, Place,
    SearchPanelModel, SearchWindowLifecycle,
};
use jinfu_search::startup::{
    absolute_root, gui_start, json_error, outcome_step, pipe_error, root_for_lookup, tray_error,
    tray_failure, GuiStart, OutcomeStep,
};
use jinfu_search::text::{parse_signed, parse_unsigned, split_words, to_signed_decimal, trim};
use jinfu_search::tray::{index_finished_label, status_icon, status_label};
use jinfu_search::utf16::{decode, encode, wide_null};
use jinfu_search::volume::{
    probe_request, probe_volume, query_journal, read_journal_since, snapshot_volume,
    volume_device_path, JournalInfo, JournalReadError, JournalStep, SnapshotStep,
};
use jinfu_search::{
    local_fixed_volumes, IndexStatus, ScanReport, SearchError, SearchIndex,
};

fn texts(values: &[&str]) -> Vec<String> {
    values.iter().map(|value| value.to_string()).collect()
}

fn found(path: &str) -> WalkItem {
    WalkItem::Found(FoundEntry {
        relative_path: path.to_owned(),
        name: path.to_owned(),
        is_directory: false,
        size_bytes: 1,
        modified_ms: None,
    })
}

fn status(files: u64, roots: u64, incomplete: u64) -> IndexStatus {
    IndexStatus {
        indexed_files: files,
        indexed_directories: 2,
        roots,
        incomplete_roots: incomplete,
    }
}

fn report(files: u64, directories: u64) -> ScanReport {
    ScanReport {
        root: "C:/".to_owned(),
        indexed_files: files,
        indexed_directories: directories,
        skipped_entries: 0,
        complete: true,
        elapsed_ms: 0,
    }
}

#[test]
fn no_arguments_are_accepted_for_default_tray_startup() {
    assert_eq!(
        gui_start(&texts(&["jinfu-search-cli"])),
        GuiStart::Window,
        "无参数应启动托盘而非报错退出"
    );
}

#[test]
fn the_program_starts_silently_for_the_adapter_and_is_no_command_line() {
    assert_eq!(
        gui_start(&texts(&["jinfu-search", "--background"])),
        GuiStart::Background
    );
    assert_eq!(gui_start(&texts(&["jinfu-search", "status"])), GuiStart::Usage);
    assert_eq!(
        gui_start(&texts(&["jinfu-search", "--background", "x"])),
        GuiStart::Usage
    );
    assert_eq!(outcome_step(true, true, true), OutcomeStep::Quiet);
    assert_eq!(outcome_step(false, true, true), OutcomeStep::ShowDialog);
    assert_eq!(outcome_step(true, true, false), OutcomeStep::Print);
    assert_eq!(outcome_step(false, false, true), OutcomeStep::PrintError);
    assert!(tray_failure("原因").contains("\n\n原因\n\n"));
    assert_eq!(
        pipe_error(IoError::new(IoKind::TimedOut, "忙")).message(),
        "无法访问路径 <named pipe>: 忙"
    );
    assert_eq!(
        tray_error("忙".to_owned()).message(),
        "无法访问路径 <system tray>: 忙"
    );
    let unwritable = SearchError::Io {
        path: "x".to_owned(),
        source: "number out of range".to_owned(),
    };
    assert_eq!(
        json_error(unwritable).message(),
        "无法访问路径 <json output>: number out of range"
    );
}

#[test]
fn empty_index_explains_that_the_user_must_create_an_index() {
    let index = SearchIndex::open("index.db");

    let view = SearchPanelModel::new(index).search("合同");

    assert!(view.rows.is_empty());
    assert!(view.hint.contains("建立/更新本机索引"));
}

#[test]
fn search_view_shows_a_full_path_for_each_indexed_match() {
    let mut index = SearchIndex::open("index.db");
    index.scan_root("D:\\资料", &vec![found("季度合同.pdf")], 1, 0);

    let model = SearchPanelModel::new(index);
    let view = model.search("合同");

    assert_eq!(view.rows.len(), 1);
    assert!(view.rows[0].contains("季度合同.pdf"));
    assert!(view.rows[0].contains("资料"));
    assert_eq!(view.rows[0], "季度合同.pdf  —  D:/资料/季度合同.pdf");
    assert_eq!(view.paths, texts(&["D:/资料/季度合同.pdf"]));
    assert_eq!(view.hint, "找到 1 项；双击结果可在资源管理器中定位。");
    assert_eq!(
        model.search("  ").hint,
        "已索引 1 个文件、0 个目录；输入关键词后点击“搜索”。"
    );
    assert_eq!(
        model.search(" 没有 ").hint,
        "没有找到“没有”；可换个名称关键词或扩展名。"
    );
    assert_eq!(
        model.search(&"a ".repeat(20)).hint,
        "搜索失败：搜索词不能超过 16 个"
    );
}

#[test]
fn hints_say_that_the_status_cannot_be_read() {
    let failed = || Err(SearchError::Database("locked".to_owned()));
    assert_eq!(
        idle_hint(&failed()),
        "暂时无法读取索引状态：数据库错误：locked"
    );
    assert_eq!(
        panel_of("x", Ok(vec![]), &failed()).hint,
        "没有找到“x”；索引状态读取失败：数据库错误：locked"
    );
}

#[test]
fn explorer_select_uses_a_separate_switch_and_native_windows_path() {
    let arguments = explorer_arguments("C:/中文 folder/验收 file.txt", true, Some("C:/中文 folder"));
    assert_eq!(arguments.len(), 2);
    assert_eq!(arguments[0], "/select,");
    assert_eq!(arguments[1], "C:\\中文 folder\\验收 file.txt");
    assert_eq!(
        explorer_arguments("C:/a/b", false, Some("C:/a")),
        texts(&["C:\\a"])
    );
    assert_eq!(explorer_arguments("C:/", false, None), texts(&["C:\\"]));
}

#[test]
fn there_is_one_search_window_at_a_time() {
    let mut window = SearchWindowLifecycle::new();
    let first = match window.open() {
        OpenStep::Launch(generation) => generation,
        other => panic!("{other:?}"),
    };
    assert_eq!(window.open(), OpenStep::Wait);
    window.mark_search_window_created(first + 1, 99);
    assert_eq!(window.open(), OpenStep::Wait);
    window.mark_search_window_created(first, 42);
    assert_eq!(window.open(), OpenStep::Focus(42));
    window.clear_window_launch_if_current(first);
    assert_eq!(window.open(), OpenStep::Focus(42));
    window.mark_search_window_destroying(7);
    assert_eq!(window.open(), OpenStep::Focus(42));
    window.mark_search_window_destroying(42);
    assert_eq!(window.open(), OpenStep::Launch(first + 1));
    window.clear_window_launch_if_current(first + 1);
    assert_eq!(window.open(), OpenStep::Launch(first + 2));
    window.mark_search_window_created(first + 2, 43);
    window.forget_search_window_if_matches(43);
    assert_eq!(window.hwnd, 0);
}

#[test]
fn the_parts_of_the_window_have_their_places() {
    let wide = layout(820, 560);
    assert_eq!(wide.input, Place { x: 14, y: 30, width: 504, height: 30 });
    assert_eq!(wide.button, Place { x: 532, y: 30, width: 90, height: 30 });
    assert_eq!(wide.index_button, Place { x: 636, y: 30, width: 170, height: 30 });
    assert_eq!(wide.status, Place { x: 14, y: 72, width: 792, height: 38 });
    assert_eq!(wide.results, Place { x: 14, y: 116, width: 792, height: 430 });
    let small = layout(-5, 0);
    assert_eq!(small.input.width, 120);
    assert_eq!(small.results, Place { x: 14, y: 116, width: 272, height: 50 });
    assert_eq!(horizontal_extent(&texts(&["ab", "资料😀", ""])), 32);
}

#[test]
fn commands_of_the_window_are_decoded() {
    assert_eq!(decode_command(2), PanelCommand::Search);
    assert_eq!(decode_command(5), PanelCommand::StartIndex);
    assert_eq!(decode_command(3 + (2 << 16)), PanelCommand::Reveal);
    assert_eq!(decode_command(3), PanelCommand::Nothing);
    assert_eq!(decode_command(2 + (1 << 16)), PanelCommand::Nothing);
    let paths = texts(&["a", "b"]);
    assert_eq!(selected_path(&paths, 1), Some(&"b".to_owned()));
    assert_eq!(selected_path(&paths, -1), None);
    assert_eq!(selected_path(&paths, 2), None);
}

#[test]
fn indexing_the_machine_is_summed_up() {
    assert_eq!(
        machine_index_summary(&vec![report(2, 1), report(3, 4)], &vec![]),
        "索引完成：5 个文件、5 个目录；现在可以搜索名称、扩展名或多个关键词。"
    );
    assert_eq!(
        machine_index_summary(&vec![report(2, 1)], &texts(&["甲", "乙"])),
        "部分索引完成：2 个文件、1 个目录；甲；乙"
    );
    assert_eq!(
        machine_index_summary(&vec![], &texts(&["甲", "乙"])),
        "索引失败：甲；乙"
    );
    assert_eq!(
        volume_failure('D', &SearchError::EmptyQuery, &SearchError::QueryTooLong),
        "D: MFT 索引失败（搜索词不能为空）；目录扫描也失败（搜索词不能超过 512 个字符）"
    );
}

#[test]
fn the_tray_says_how_the_index_stands() {
    assert_eq!(status_label(&Ok(status(7, 3, 0))), "待命：7 文件，2 目录，3 根目录");
    assert_eq!(
        status_label(&Ok(status(7, 3, 1))),
        "待命：7 文件，2 目录，3 根目录；1 根需重建"
    );
    assert_eq!(
        status_label(&Err(SearchError::EmptyQuery)),
        "待命：暂时无法读取索引状态"
    );
    assert_eq!(
        index_finished_label(&Ok(report(4, 5))),
        "C: 索引完成：4 文件，5 目录"
    );
    assert_eq!(index_finished_label(&Err("x".to_owned())), "C: 索引失败：x");
    let icon = status_icon();
    assert_eq!(icon.len(), 1024);
    assert_eq!(&icon[..4], &[17, 110, 158, 255]);
    let inner = (16 + 1) * 4;
    assert_eq!(&icon[inner..inner + 4], &[12, 155, 214, 255]);
    assert_eq!(&icon[1020..], &[17, 110, 158, 255]);
}

#[test]
fn roots_are_made_absolute() {
    let nowhere = || Err(IoError::new(IoKind::Other, "no directory"));
    assert_eq!(root_for_lookup("D:\\x", true, nowhere()).unwrap(), "D:\\x");
    assert_eq!(
        root_for_lookup("x", false, Ok("C:\\here\\x".to_owned())).unwrap(),
        "C:\\here\\x"
    );
    assert_eq!(
        root_for_lookup("x", false, nowhere()).unwrap_err().message(),
        "无法访问路径 x: no directory"
    );
    assert_eq!(
        absolute_root("f.txt", Ok(false), true, nowhere())
            .unwrap_err()
            .message(),
        "索引根目录不是目录：f.txt"
    );
    assert_eq!(
        absolute_root("gone", Err(IoError::new(IoKind::NotFound, "missing")), true, nowhere())
            .unwrap_err()
            .message(),
        "无法访问路径 gone: missing"
    );
    assert_eq!(absolute_root("D:\\", Ok(true), true, nowhere()).unwrap(), "D:\\");
}

#[test]
fn only_fixed_disks_are_listed() {
    let mut kinds = vec![1_u32; 26];
    kinds[2] = 3;
    kinds[3] = 3;
    kinds[4] = 2;
    kinds[25] = 3;
    let mask = (1 << 2) | (1 << 4) | (1 << 25);
    assert_eq!(local_fixed_volumes(mask, &kinds), vec!['C', 'Z']);
}

#[test]
fn an_enumeration_goes_on_until_the_volume_has_ended() {
    let info = JournalInfo { journal_id: 9, first_usn: 1, next_usn: 50 };
    let scan = snapshot_volume('c', Ok(info)).unwrap();
    assert_eq!(scan.request(), [[0_u8; 8], [0; 8], 50_u64.to_le_bytes()].concat());
    let mut batch = 77_u64.to_le_bytes().to_vec();
    let mut record = vec![0_u8; 62];
    record[0] = 62;
    record[4] = 2;
    record[8] = 10;
    record[16] = 5;
    record[56] = 2;
    record[58] = 60;
    record[60] = b'a';
    batch.extend(record.clone());
    let scan = match scan.step(Ok(batch.clone())) {
        SnapshotStep::Continue(scan) => scan,
        other => panic!("{other:?}"),
    };
    assert_eq!(&scan.request()[..8], &77_u64.to_le_bytes());
    match scan.step(Err(IoError { kind: IoKind::Other, code: Some(38), message: String::new() })) {
        SnapshotStep::Done(snapshot) => {
            assert_eq!(snapshot.volume, 'C');
            assert_eq!(snapshot.journal_id, 9);
            assert_eq!(snapshot.next_usn, 50);
            assert_eq!(snapshot.records.len(), 1);
        }
        other => panic!("{other:?}"),
    }
    let stuck = snapshot_volume('c', Ok(info)).unwrap();
    let mut same = 0_u64.to_le_bytes().to_vec();
    same.extend(record);
    match stuck.step(Ok(same)) {
        SnapshotStep::Failed(error) => {
            assert_eq!(error.message, "FSCTL_ENUM_USN_DATA 未推进文件引用号")
        }
        other => panic!("{other:?}"),
    }
    let inactive = IoError { kind: IoKind::Other, code: Some(1179), message: String::new() };
    let scan = snapshot_volume('D', Err(inactive)).unwrap();
    assert_eq!(&scan.request()[16..], &i64::MAX.to_le_bytes());
    assert!(snapshot_volume('1', Ok(info)).is_err());
    assert!(snapshot_volume('D', Err(IoError::new(IoKind::Other, "x"))).is_err());
}

#[test]
fn the_journal_is_read_from_the_asked_position() {
    let info = JournalInfo { journal_id: 9, first_usn: 10, next_usn: 50 };
    assert!(matches!(
        read_journal_since('C', 8, 20, Ok(info)),
        Err(JournalReadError::Reset)
    ));
    assert!(matches!(
        read_journal_since('C', 9, 9, Ok(info)),
        Err(JournalReadError::Reset)
    ));
    let scan = read_journal_since('C', 9, 20, Ok(info)).unwrap();
    let request = scan.request();
    assert_eq!(request.len(), 40);
    assert_eq!(&request[..8], &20_i64.to_le_bytes());
    assert_eq!(&request[8..12], &0x3300_u32.to_le_bytes());
    assert_eq!(&request[12..16], &1_u32.to_le_bytes());
    assert_eq!(&request[32..], &9_u64.to_le_bytes());
    let scan = match scan.step(Ok(30_i64.to_le_bytes().to_vec())) {
        JournalStep::Continue(scan) => scan,
        other => panic!("{other:?}"),
    };
    match scan.step(Ok(50_i64.to_le_bytes().to_vec())) {
        JournalStep::Done(delta) => {
            assert_eq!(delta.next_usn, 50);
            assert!(delta.records.is_empty());
        }
        other => panic!("{other:?}"),
    }
    let mut scan = read_journal_since('C', 9, 11, Ok(info)).unwrap();
    for batch in 0..127_i64 {
        scan = match scan.step(Ok((batch % 2 + 12).to_le_bytes().to_vec())) {
            JournalStep::Continue(scan) => scan,
            other => panic!("{other:?}"),
        };
    }
    assert!(matches!(
        scan.step(Ok(14_i64.to_le_bytes().to_vec())),
        JournalStep::Done(_)
    ));
    let scan = read_journal_since('C', 9, 20, Ok(info)).unwrap();
    assert!(matches!(
        scan.step(Ok(vec![1, 2])),
        JournalStep::Failed(JournalReadError::Io(_))
    ));
    let scan = read_journal_since('C', 9, 20, Ok(info)).unwrap();
    assert!(matches!(
        scan.step(Ok(vec![0; 20])),
        JournalStep::Failed(JournalReadError::Parse(_))
    ));
}

#[test]
fn a_volume_is_looked_at_without_being_read() {
    let mut reply = vec![0_u8; 56];
    reply[0] = 9;
    reply[8] = 1;
    reply[16] = 50;
    let info = query_journal(Ok(reply)).unwrap();
    assert_eq!(info, JournalInfo { journal_id: 9, first_usn: 1, next_usn: 50 });
    assert_eq!(
        query_journal(Ok(vec![0; 55])).unwrap_err().message,
        "FSCTL_QUERY_USN_JOURNAL 返回的数据不完整"
    );
    assert_eq!(&probe_request(&info)[16..], &50_i64.to_le_bytes());
    let probe = probe_volume('d', Ok(info), Ok(vec![0; 8])).unwrap();
    assert_eq!(probe.volume, 'D');
    assert_eq!(probe.first_batch_records, 0);
    assert_eq!(
        probe_volume('?', Ok(info), Ok(vec![0; 8])).unwrap_err().message,
        "卷标必须是单个英文字母，例如 C"
    );
    assert_eq!(
        probe_volume('D', Ok(info), Ok(vec![0; 7])).unwrap_err().message,
        "FSCTL_ENUM_USN_DATA 返回的缓冲区不足 8 字节"
    );
    assert_eq!(volume_device_path('C'), r"\\.\C:");
}

#[test]
fn paths_are_taken_apart() {
    assert!(valid_ntfs_component("a.b"));
    for name in ["", ".", "..", "a/b", "a\\b", "a\0"] {
        assert!(!valid_ntfs_component(name));
    }
    assert!(valid_ntfs_relative_path("a/b"));
    for path in ["", "/a", "a/", "a//b", "a/../b"] {
        assert!(!valid_ntfs_relative_path(path));
    }
    assert_eq!(volume_from_ntfs_root("c:/"), Some('C'));
    for root in ["C:", "C:/x", "1:/", "C;/"] {
        assert_eq!(volume_from_ntfs_root(root), None);
    }
    assert!(is_within("C:/a/b", "C:/a"));
    assert!(is_within("C:/a", "C:/a"));
    assert!(!is_within("C:/ab", "C:/a"));
    assert!(is_in_subtree("A/x", "a"));
    assert!(!is_in_subtree("A", "a"));
    assert!(!is_in_subtree("a-b", "a"));
    assert_eq!(move_path("a/x/y", "a/x", "b"), "b/y");
    assert_eq!(
        changed_below("C:/", &texts(&["C:\\a\\b", "D:\\c"])),
        texts(&["a/b"])
    );
}

#[test]
fn paths_are_joined_as_the_system_joins_them() {
    assert_eq!(join_storage("C:/", "a/b"), "C:/a/b");
    assert_eq!(join_storage("C:/data", "a"), "C:/data/a");
    assert_eq!(join_storage("C:\\data", "a\\b"), "C:/data/a/b");
    assert_eq!(join_storage("C:/data", ""), "C:/data/");
    assert_eq!(join_storage("C:", "a"), "C:a");
    assert_eq!(join_storage("", "a"), "a");
    assert_eq!(join_storage("C:/data", "D:x"), "D:x");
    assert_eq!(join_storage("C:/data", "/x"), "C:/x");
    assert_eq!(join_storage("//server/share/sub", "/x"), "//server/share/x");
    assert_eq!(join_storage("//server", "/x"), "/x");
    assert_eq!(join_storage("C:/data", "//server/share/x"), "//server/share/x");
    assert_eq!(join_storage("C:/data", "//server"), "C://server");
    assert_eq!(join_storage("//server/share", "a"), "//server/share/a");
}

#[test]
fn paths_are_compared_name_by_name() {
    for path in ["C:\\data\\x", "c:/data/x", "C:/data//x/", "C:/./data/x/."] {
        assert_eq!(path_to_compare(path), "C:/data/x");
    }
    assert_eq!(path_to_compare("c:\\"), "C:/");
    assert_eq!(path_to_compare("c:"), "C:");
    assert_eq!(path_to_compare("C:/Data/X"), "C:/Data/X");
    assert_eq!(path_to_compare("\\\\server\\share\\\\a"), "//server/share/a");
    assert_eq!(path_to_compare("/a/../b"), "/a/../b");
    assert_eq!(path_to_compare("./a/./b"), "./a/b");
    assert_eq!(path_to_compare("1:/a"), "1:/a");
    assert_eq!(
        changed_below("c:/data", &texts(&["C:\\data\\x", "C:\\Data\\x", "C:\\data", "C:\\database"])),
        texts(&["x", ""])
    );
    assert_eq!(
        changed_below("C:/data", &texts(&["c:\\data\\x"])),
        texts(&["x"])
    );
}

#[test]
fn patterns_escape_what_has_a_meaning() {
    assert_eq!(escape_like("a%b_c\\d"), "a\\%b\\_c\\\\d");
    assert_eq!(term_pattern("10%"), "%10\\%%");
    assert_eq!(ending_pattern("pdf"), "%.pdf");
    assert_eq!(ntfs_path_prefix_pattern("a_b"), "a\\_b/%");
}

#[test]
fn numbers_are_written_and_read() {
    assert_eq!(to_signed_decimal(i64::MIN), "-9223372036854775808");
    assert_eq!(parse_signed("-9223372036854775808"), Some(i64::MIN));
    assert_eq!(parse_signed("9223372036854775808"), None);
    assert_eq!(parse_signed("+5"), Some(5));
    assert_eq!(parse_unsigned("18446744073709551615"), Some(u64::MAX));
    assert_eq!(parse_unsigned("18446744073709551616"), None);
    for text in ["", "-", "+", "1x", "-1", " 1"] {
        assert_eq!(parse_unsigned(text), None);
    }
    let cursor = StoredCursor::new(u64::MAX, -4);
    assert_eq!(cursor.position(), Some((u64::MAX, -4)));
    let damaged = StoredCursor { journal_id: "x".to_owned(), next_usn: "1".to_owned() };
    assert_eq!(damaged.position(), None);
    let bytes = [1, 2, 3, 4, 5, 6, 7, 0x88];
    assert_eq!(get_le32(&bytes, 1), 0x0504_0302);
    assert_eq!(get_le64(&bytes, 0), u64::from_le_bytes(bytes));
    assert_eq!(to_signed64(get_le64(&bytes, 0)), i64::from_le_bytes(bytes));
    assert_eq!(to_unsigned64(-1), u64::MAX);
}

#[test]
fn texts_are_split_and_encoded() {
    assert_eq!(split_words(" 季度\u{3000}报告\tx "), texts(&["季度", "报告", "x"]));
    assert_eq!(trim("\u{a0} a b \n"), "a b");
    let text = "a资😀";
    assert_eq!(encode(text), text.encode_utf16().collect::<Vec<u16>>());
    assert_eq!(decode(&encode(text)), text);
    assert_eq!(wide_null("a"), vec![97, 0]);
}

#[test]
fn times_are_converted() {
    assert_eq!(filetime_to_unix_ms(116_444_736_000_000_000), Some(0));
    assert_eq!(filetime_to_unix_ms(116_444_736_000_019_999), Some(1));
    assert_eq!(filetime_to_unix_ms(116_444_735_999_980_001), Some(-1));
    assert_eq!(system_time_to_ms(5), Some(5));
    assert_eq!(system_time_to_ms(u128::MAX), None);
    assert_eq!(current_unix_ms(None), 0);
    assert_eq!(current_unix_ms(Some(7)), 7);
    assert_eq!(next_generation(10, 5), 11);
    assert_eq!(next_generation(10, 50), 50);
    assert_eq!(next_generation(i64::MAX, 0), i64::MAX);
}

#[test]
fn changes_are_put_in_the_order_of_the_journal() {
    let record = |frn: u64, usn: i64| UsnRecord {
        file_reference_number: frn,
        parent_file_reference_number: 5,
        usn,
        timestamp_filetime: 0,
        reason: 0,
        file_attributes: 0,
        name: "x".to_owned(),
    };
    let mut records = vec![record(1, 3), record(2, 1), record(3, 3), record(4, 2)];
    sort_by_usn(&mut records);
    let order: Vec<u64> = records.iter().map(|record| record.file_reference_number).collect();
    assert_eq!(order, vec![2, 4, 1, 3]);
}

#[test]
fn unchanged_entries_are_not_stored_again() {
    let mut before = SearchIndex::open("index.db");
    before.scan_root("D:\\", &vec![found("a"), found("b"), found("c")], 1, 0);
    let mut after = SearchIndex::open("index.db");
    after.scan_root("D:\\", &vec![found("a"), found("c"), found("d")], 9, 0);
    let changes = entry_changes(
        &before.root("D:/").unwrap().tree.entries,
        &after.root("D:/").unwrap().tree.entries,
    );
    assert_eq!(changes.removed, texts(&["b"]));
    assert_eq!(changes.written.len(), 1);
    assert_eq!(changes.written[0].relative_path, "d");
}

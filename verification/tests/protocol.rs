use jinfu_search::errors::{IoError, IoKind};
use jinfu_search::json::{printed, probe_text, read_argument};
use jinfu_search::mcp::{
    extract_result, host_failure, host_to_start, render_result, rpc_request, rpc_step,
    search_files, HostEvent, HostStage, HostStep, SearchFilesRequest,
};
use jinfu_search::pipe::{
    create_next_server, first_instance_error, frame, frame_length, is_transient_connection_error,
    read_frame, security_descriptor, serve_connection, validate_pipe_name, write_frame, CallEvent,
    CallStep, ConnectionEvent, ConnectionStep, InstanceStep, ServiceEvent, ServiceStep,
};
use jinfu_search::root::{FoundEntry, WalkItem};
use jinfu_search::rpc::{
    bad_params, broken_task_response, is_shutdown_request, route, RpcCall, RpcMethod, SearchParams,
};
use jinfu_search::volume::VolumeProbe;
use jinfu_search::{
    call_pipe, handle_rpc, serve_pipe, ScanReport, SearchError, SearchIndex, DEFAULT_PIPE_NAME,
};
use serde_json::Value;

fn found(path: &str) -> WalkItem {
    WalkItem::Found(FoundEntry {
        relative_path: path.to_owned(),
        name: path.to_owned(),
        is_directory: false,
        size_bytes: 17,
        modified_ms: Some(5),
    })
}

fn error(code: i32) -> IoError {
    IoError {
        kind: IoKind::Other,
        code: Some(code),
        message: "failed".to_owned(),
    }
}

fn parsed(text: &str) -> Value {
    serde_json::from_str(text).unwrap()
}

#[test]
fn accepts_only_local_pipe_names() {
    assert!(validate_pipe_name(r"\\.\pipe\jinfu-search-test").is_ok());
    assert!(validate_pipe_name(r"\\.\pipe\nested\jinfu-search-test").is_err());
    assert!(validate_pipe_name(r"\\server\pipe\jinfu-search-test").is_err());
}

#[test]
fn pipe_names_are_refused_with_a_reason() {
    assert!(validate_pipe_name(DEFAULT_PIPE_NAME).is_ok());
    assert_eq!(DEFAULT_PIPE_NAME, r"\\.\pipe\jinfu-search-v1");
    let other = validate_pipe_name("pipe").unwrap_err();
    assert_eq!(other.kind, IoKind::InvalidInput);
    assert_eq!(other.message, "管道名必须以 \\\\.\\pipe\\ 开头");
    for name in [r"\\.\pipe\", r"\\.\pipe\.", r"\\.\pipe\..", "\\\\.\\pipe\\a/b", "\\\\.\\pipe\\a\0"] {
        assert_eq!(
            validate_pipe_name(name).unwrap_err().message,
            "管道名必须是 \\\\.\\pipe\\ 下的单个本地名称"
        );
    }
}

#[test]
fn treats_pipe_not_connected_as_a_transient_startup_race() {
    assert!(is_transient_connection_error(&error(233)));
}

#[test]
fn failures_of_a_pipe_are_told_apart() {
    assert!(is_transient_connection_error(&error(231)));
    assert!(!is_transient_connection_error(&error(5)));
    assert!(is_transient_connection_error(&IoError::new(IoKind::NotFound, "")));
    let busy = first_instance_error(DEFAULT_PIPE_NAME, error(5));
    assert_eq!(busy.kind, IoKind::AddrInUse);
    assert_eq!(
        busy.message,
        "本地 Agent 管道已被占用：\\\\.\\pipe\\jinfu-search-v1；请确认现有服务，或传入随机 --pipe"
    );
    assert_eq!(first_instance_error("x", error(2)), error(2));
    assert!(matches!(create_next_server(error(231), false), InstanceStep::Retry));
    assert!(matches!(create_next_server(error(231), true), InstanceStep::Failed(_)));
    assert!(matches!(create_next_server(error(5), false), InstanceStep::Failed(_)));
}

#[test]
fn the_pipe_is_for_the_user_the_system_and_administrators() {
    assert_eq!(
        security_descriptor("S-1-5-21"),
        "D:P(A;;GA;;;S-1-5-21)(A;;GA;;;SY)(A;;GA;;;BA)"
    );
}

#[test]
fn frames_give_back_what_was_written() {
    let bytes = write_frame("{\"a\":1}").unwrap();
    assert_eq!(&bytes[..4], &[7, 0, 0, 0]);
    let length = frame_length(&bytes[..4]).unwrap();
    assert_eq!(length, bytes.len() - 4);
    assert_eq!(read_frame(bytes[4..].to_vec()).unwrap(), b"{\"a\":1}");
    let spaced = b" { \"b\" : [ 1 , 2 ] } ".to_vec();
    assert_eq!(read_frame(spaced.clone()).unwrap(), spaced);
}

#[test]
fn frames_of_no_or_too_many_bytes_are_refused() {
    assert_eq!(frame(&[]).unwrap_err().message, "JSON-RPC 响应大小无效");
    assert_eq!(
        frame(&vec![0; 1_048_577]).unwrap_err().message,
        "JSON-RPC 响应大小无效"
    );
    assert_eq!(frame(&vec![0; 1_048_576]).unwrap().len(), 1_048_580);
    assert_eq!(
        frame_length(&[0, 0, 0, 0]).unwrap_err().message,
        "JSON-RPC 帧大小无效"
    );
    assert_eq!(
        frame_length(&[1, 0, 16, 0]).unwrap_err().kind,
        IoKind::InvalidData
    );
    assert_eq!(frame_length(&[0, 0, 16, 0]).unwrap(), 1_048_576);
    let bad = read_frame(b"nope".to_vec()).unwrap_err();
    assert!(bad.message.starts_with("JSON-RPC 不是合法 JSON："));
}

#[test]
fn agent_protocol_exposes_status_and_search_without_file_contents() {
    let mut index = SearchIndex::open("index.db");
    index.scan_root("D:\\root", &vec![found("agent-notes.md")], 1_000, 0);

    let task = route(b"{\"jsonrpc\": \"2.0\", \"id\": 1, \"method\": \"status.get\"}").unwrap();
    assert_eq!(task.method, RpcMethod::Status);
    let status = parsed(&handle_rpc(&mut index, task, RpcCall::Status));
    assert_eq!(status["result"]["indexed_files"], 1);
    assert_eq!(status["id"], 1);

    let task = route(b"{\"jsonrpc\": \"2.0\", \"id\": 2, \"method\": \"index.list_roots\"}").unwrap();
    let roots = parsed(&handle_rpc(&mut index, task, RpcCall::ListRoots));
    assert_eq!(roots["result"]["roots"].as_array().unwrap().len(), 1);
    assert_eq!(roots["result"]["roots"][0]["root"], "D:/root");

    let task = route(b"{\"jsonrpc\":\"2.0\",\"id\":\"search-1\",\"method\":\"search.query\",\"params\":{\"query\":\"AGENT\",\"limit\":5}}")
    .unwrap();
    assert_eq!(task.params, "{\"limit\":5,\"query\":\"AGENT\"}");
    let search = parsed(&handle_rpc(
        &mut index,
        task,
        RpcCall::Search(Ok(SearchParams {
            query: "AGENT".to_owned(),
            limit: Some(5),
            root: None,
        })),
    ));
    assert_eq!(search["id"], "search-1");
    assert_eq!(search["result"]["items"].as_array().unwrap().len(), 1);
    assert!(search["result"]["items"][0].get("contents").is_none());
    assert_eq!(
        search["result"]["items"][0].to_string(),
        "{\"is_directory\":false,\"modified_unix_ms\":5,\"name\":\"agent-notes.md\",\"path\":\"D:/root/agent-notes.md\",\"size_bytes\":17}"
    );
}

#[test]
fn refused_requests_are_answered_with_their_id() {
    let refusal = |request: &str| parsed(&route(request.as_bytes()).unwrap_err());
    let old = refusal("{\"id\":7,\"method\":\"status.get\"}");
    assert_eq!(old["error"]["code"], -32600);
    assert_eq!(old["error"]["message"], "仅支持 JSON-RPC 2.0");
    assert_eq!(old["id"], 7);
    let number = refusal("{\"jsonrpc\":2.0,\"id\":[1.5],\"method\":\"status.get\"}");
    assert_eq!(number["error"]["code"], -32600);
    assert_eq!(number["id"][0], 1.5);
    let unnamed = refusal("{\"jsonrpc\":\"2.0\",\"method\":3}");
    assert_eq!(unnamed["error"]["message"], "缺少 method");
    assert_eq!(unnamed["id"], Value::Null);
    let unknown = refusal("{\"jsonrpc\":\"2.0\",\"id\":\"x\",\"method\":\"app.shutdown\"}");
    assert_eq!(unknown["error"]["code"], -32601);
    assert_eq!(unknown["error"]["message"], "未实现的方法");
    assert_eq!(unknown["id"], "x");
    assert_eq!(refusal("[]")["error"]["code"], -32600);
}

#[test]
fn an_identification_is_read_once() {
    let request = "{\"id\":7.887233511355132e-10,\"jsonrpc\":\"2.0\",\"method\":\"status.get\"}";
    let once = parsed(request)["id"].to_string();
    let twice = parsed(&once).to_string();
    assert_ne!(once, twice);
    let task = route(request.as_bytes()).unwrap();
    assert_eq!(task.id, once);
    let mut index = SearchIndex::open("index.db");
    let response = handle_rpc(&mut index, task, RpcCall::Status);
    assert!(response.starts_with(&format!("{{\"id\":{once},")), "{response}");
    let stop = request.replace("status.get", "app.shutdown").into_bytes();
    match serve_connection(ConnectionEvent::Request(Ok(stop)), true, false) {
        ConnectionStep::AnswerAndStop(response) => assert_eq!(
            response,
            format!("{{\"id\":{once},\"jsonrpc\":\"2.0\",\"result\":{{\"stopping\":true}}}}")
        ),
        other => panic!("{other:?}"),
    }
}

#[test]
fn an_identification_may_be_any_value() {
    for id in [
        "{\"$serde_json::private::RawValue\":\"5\"}",
        "{\"$serde_json::private::RawValue\":5}",
        "{\"a\":[1,{\"b\":null}]}",
        "[true,\"x\"]",
    ] {
        let request = format!("{{\"id\":{id},\"jsonrpc\":\"2.0\",\"method\":\"status.get\"}}");
        assert_eq!(route(request.as_bytes()).unwrap().id, id);
    }
}

#[test]
fn every_method_has_its_name() {
    let method = |name: &str| {
        route(format!("{{\"jsonrpc\":\"2.0\",\"id\":1,\"method\":\"{name}\"}}").as_bytes())
            .unwrap()
            .method
    };
    assert_eq!(method("index.scan_root"), RpcMethod::ScanRoot);
    assert_eq!(method("index.remove_root"), RpcMethod::RemoveRoot);
    assert_eq!(method("index.scan_volume"), RpcMethod::ScanVolume);
    assert_eq!(method("index.sync_volume"), RpcMethod::SyncVolume);
    assert_eq!(method("index.sync_all_volumes"), RpcMethod::SyncAllVolumes);
    assert_eq!(method("search.query"), RpcMethod::Search);
}

#[test]
fn failed_operations_are_answered_with_their_wording() {
    let mut index = SearchIndex::open("index.db");
    let task = || route(b"{\"jsonrpc\":\"2.0\",\"id\":3,\"method\":\"search.query\"}").unwrap();
    let empty = parsed(&handle_rpc(
        &mut index,
        task(),
        RpcCall::Search(Ok(SearchParams {
            query: String::new(),
            limit: None,
            root: None,
        })),
    ));
    assert_eq!(empty["error"]["code"], -32000);
    assert_eq!(empty["error"]["message"], "搜索词不能为空");
    let bad = parsed(&handle_rpc(
        &mut index,
        task(),
        RpcCall::Search(Err(bad_params("missing field `query`"))),
    ));
    assert_eq!(
        bad["error"]["message"],
        "无法访问路径 <rpc params>: missing field `query`"
    );
}

#[test]
fn roots_are_removed_and_reports_returned() {
    let mut index = SearchIndex::open("index.db");
    index.scan_root("D:\\", &vec![], 1, 0);
    let remove =
        || route(b"{\"jsonrpc\":\"2.0\",\"id\":1,\"method\":\"index.remove_root\"}").unwrap();
    let first = handle_rpc(&mut index, remove(), RpcCall::RemoveRoot(Ok("D:\\".to_owned())));
    assert_eq!(parsed(&first)["result"]["removed"], true);
    let second = handle_rpc(&mut index, remove(), RpcCall::RemoveRoot(Ok("D:\\".to_owned())));
    assert_eq!(parsed(&second)["result"]["removed"], false);

    let report = ScanReport {
        root: "C:/".to_owned(),
        indexed_files: 2,
        indexed_directories: 3,
        skipped_entries: 0,
        complete: true,
        elapsed_ms: 4,
    };
    let scan = route(b"{\"jsonrpc\":\"2.0\",\"id\":1,\"method\":\"index.scan_volume\"}").unwrap();
    assert_eq!(
        handle_rpc(&mut index, scan, RpcCall::Report(Ok(report.clone()))),
        "{\"id\":1,\"jsonrpc\":\"2.0\",\"result\":{\"complete\":true,\"elapsed_ms\":4,\"indexed_directories\":3,\"indexed_files\":2,\"root\":\"C:/\",\"skipped_entries\":0}}"
    );
    let all = || route(b"{\"jsonrpc\":\"2.0\",\"id\":1,\"method\":\"index.sync_all_volumes\"}").unwrap();
    let reports = parsed(&handle_rpc(
        &mut index,
        all(),
        RpcCall::Reports(Ok(vec![report.clone(), report.clone()])),
    ));
    assert_eq!(reports["result"]["reports"].as_array().unwrap().len(), 2);
    let endless = ScanReport {
        elapsed_ms: u128::from(u64::MAX) + 1,
        ..report
    };
    let failed = parsed(&handle_rpc(&mut index, all(), RpcCall::Reports(Ok(vec![endless]))));
    assert_eq!(
        failed["error"]["message"],
        "无法访问路径 <json response>: number out of range"
    );
}

#[test]
fn a_client_may_stop_a_controlled_service() {
    let stop = "{\"jsonrpc\":\"2.0\",\"id\":\"stop\",\"method\":\"app.shutdown\"}";
    assert!(is_shutdown_request(stop.as_bytes()));
    assert!(!is_shutdown_request(b"{\"id\":\"stop\",\"method\":\"app.shutdown\"}"));
    let request = || ConnectionEvent::Request(Ok(stop.as_bytes().to_vec()));
    match serve_connection(request(), true, false) {
        ConnectionStep::AnswerAndStop(response) => {
            assert_eq!(parsed(&response)["result"]["stopping"], true);
            assert_eq!(parsed(&response)["id"], "stop");
        }
        other => panic!("{other:?}"),
    }
    match serve_connection(request(), false, false) {
        ConnectionStep::CarryOut(request) => {
            assert_eq!(parsed(&route(&request).unwrap_err())["error"]["code"], -32601)
        }
        other => panic!("{other:?}"),
    }
    assert!(matches!(
        serve_connection(ConnectionEvent::Written(Ok(())), true, true),
        ConnectionStep::Close { stop: true, result: Ok(()) }
    ));
    assert!(matches!(
        serve_connection(ConnectionEvent::Written(Err(error(1))), true, true),
        ConnectionStep::Close { stop: false, result: Err(_) }
    ));
    match serve_connection(ConnectionEvent::RequestTimedOut, true, false) {
        ConnectionStep::Close { result, stop } => {
            assert_eq!(result.unwrap_err().message, "等待本地 Agent 请求超时");
            assert!(!stop);
        }
        other => panic!("{other:?}"),
    }
    match serve_connection(ConnectionEvent::WriteTimedOut, true, true) {
        ConnectionStep::Close { result, stop } => {
            assert_eq!(result.unwrap_err().message, "写回本地 Agent 响应超时");
            assert!(!stop);
        }
        other => panic!("{other:?}"),
    }
    assert!(matches!(
        serve_connection(ConnectionEvent::Request(Ok(b"?".to_vec())), true, false),
        ConnectionStep::Close { stop: false, result: Err(_) }
    ));
}

#[test]
fn a_broken_task_is_reported() {
    let response = parsed(&broken_task_response("panic"));
    assert_eq!(response["error"]["code"], -32603);
    assert_eq!(response["error"]["message"], "服务任务失败：panic");
    assert_eq!(response["id"], Value::Null);
}

#[test]
fn a_client_connects_again_until_its_time_has_expired() {
    assert!(matches!(call_pipe(CallEvent::Connected, false), CallStep::WriteRequest));
    assert!(matches!(call_pipe(CallEvent::Written, false), CallStep::ReadResponse));
    assert!(matches!(
        call_pipe(CallEvent::ConnectFailed(error(231)), false),
        CallStep::Reconnect
    ));
    assert!(matches!(
        call_pipe(CallEvent::WriteFailed(error(233)), false),
        CallStep::Reconnect
    ));
    assert!(matches!(
        call_pipe(CallEvent::ConnectFailed(error(231)), true),
        CallStep::Done(Err(_))
    ));
    assert!(matches!(
        call_pipe(CallEvent::ConnectFailed(error(5)), false),
        CallStep::Done(Err(_))
    ));
    match call_pipe(CallEvent::Answered(Ok(b"{\"ok\": true}".to_vec())), false) {
        CallStep::Done(Ok(response)) => assert_eq!(response, b"{\"ok\": true}"),
        other => panic!("{other:?}"),
    }
    match call_pipe(CallEvent::WriteTimedOut, false) {
        CallStep::Done(Err(error)) => assert_eq!(error.message, "写入本地 Agent 请求超时"),
        other => panic!("{other:?}"),
    }
    match call_pipe(CallEvent::ReadTimedOut, false) {
        CallStep::Done(Err(error)) => assert_eq!(error.message, "等待本地 Agent 响应超时"),
        other => panic!("{other:?}"),
    }
}

#[test]
fn the_service_goes_on_until_it_is_told_to_stop() {
    assert!(matches!(serve_pipe(ServiceEvent::Idle { stop: false }), ServiceStep::AwaitSlot));
    assert!(matches!(serve_pipe(ServiceEvent::Idle { stop: true }), ServiceStep::Drain));
    assert!(matches!(serve_pipe(ServiceEvent::Slot { open: true }), ServiceStep::AwaitClient));
    assert!(matches!(serve_pipe(ServiceEvent::Connected(Ok(()))), ServiceStep::Serve));
    assert!(matches!(
        serve_pipe(ServiceEvent::Told { gone: false, stop: false }),
        ServiceStep::Again
    ));
    assert!(matches!(
        serve_pipe(ServiceEvent::Told { gone: true, stop: false }),
        ServiceStep::Drain
    ));
    match serve_pipe(ServiceEvent::Slot { open: false }) {
        ServiceStep::Failed(error) => assert_eq!(error.message, "本地 Agent 连接槽已关闭"),
        other => panic!("{other:?}"),
    }
}

#[test]
fn mcp_result_keeps_errors_machine_readable() {
    let rendered = render_result(Err("宿主未运行".to_owned()));
    let value: Value = serde_json::from_str(&rendered).unwrap();
    assert_eq!(value["ok"], false);
    assert_eq!(value["error"], "宿主未运行");
}

#[test]
fn json_rpc_errors_are_not_misreported_as_success() {
    let response =
        "{\"jsonrpc\":\"2.0\",\"id\":1,\"error\":{\"code\":-32000,\"message\":\"索引不可用\"}}";
    assert!(extract_result(response.as_bytes()).unwrap_err().contains("索引不可用"));
}

#[test]
fn agents_are_given_what_the_service_answered() {
    let outcome = extract_result(b"{\"id\":1,\"jsonrpc\":\"2.0\",\"result\":{\"roots\":[ ]}}");
    assert_eq!(outcome, Ok("{\"roots\":[]}".to_owned()));
    assert_eq!(
        render_result(outcome),
        "{\n  \"data\": {\n    \"roots\": []\n  },\n  \"ok\": true\n}"
    );
    assert_eq!(
        extract_result(b"{}").unwrap_err(),
        "金福搜索返回了不完整的 JSON-RPC 响应"
    );
    assert_eq!(
        extract_result(b"{\"error\":null,\"result\":1}").unwrap_err(),
        "金福搜索返回错误：null"
    );
}

#[test]
fn an_agent_asks_for_fifty_results_and_gets_two_hundred_at_most() {
    let params = |limit: Option<usize>, root: Option<&str>| {
        search_files(&SearchFilesRequest {
            query: "a\"b".to_owned(),
            limit,
            root: root.map(|root| root.to_owned()),
        })
    };
    assert_eq!(
        params(None, None),
        "{\"limit\":50,\"query\":\"a\\\"b\",\"root\":null}"
    );
    assert_eq!(parsed(&params(Some(0), None))["limit"], 1);
    assert_eq!(parsed(&params(Some(900), Some("C:\\x")))["limit"], 200);
    assert_eq!(parsed(&params(Some(900), Some("C:\\x")))["root"], "C:\\x");
    let request = parsed(&rpc_request("status.get", "null"));
    assert_eq!(request["id"], "mcp-status.get");
    assert_eq!(request["method"], "status.get");
    assert_eq!(request["jsonrpc"], "2.0");
    assert_eq!(request["params"], Value::Null);
}

#[test]
fn a_service_that_does_not_answer_is_started_and_waited_for() {
    let (stage, step) = rpc_step(HostStage::First, HostEvent::Unreachable);
    assert!(matches!(step, HostStep::CallAlone));
    let (stage, step) = rpc_step(stage, HostEvent::Unreachable);
    assert!(matches!(step, HostStep::StartHost));
    let (_, step) = rpc_step(stage, HostEvent::Started(Err("no".to_owned())));
    assert!(matches!(step, HostStep::Done(Err(_))));
    let (mut stage, step) = rpc_step(stage, HostEvent::Started(Ok(())));
    assert!(matches!(step, HostStep::CallLater));
    for _ in 0..19 {
        let (next, step) = rpc_step(stage, HostEvent::Unreachable);
        assert!(matches!(step, HostStep::CallLater));
        stage = next;
    }
    match rpc_step(stage, HostEvent::Unreachable).1 {
        HostStep::Done(Err(message)) => assert!(message.contains("3 秒")),
        other => panic!("{other:?}"),
    }
    let answered = HostEvent::Answered(b"{\"result\":5}".to_vec());
    match rpc_step(stage, answered).1 {
        HostStep::Done(Ok(value)) => assert_eq!(value, "5"),
        other => panic!("{other:?}"),
    }
}

#[test]
fn an_agent_is_told_why_the_service_cannot_be_started() {
    assert_eq!(
        host_to_start(Ok("D:\\jinfu-search.exe".to_owned()), true).unwrap(),
        "D:\\jinfu-search.exe"
    );
    assert_eq!(
        host_to_start(Ok("D:\\jinfu-search.exe".to_owned()), false).unwrap_err(),
        "未找到同目录宿主：D:\\jinfu-search.exe。请同时复制 jinfu-search.exe。"
    );
    assert_eq!(
        host_to_start(Err("x".to_owned()), false).unwrap_err(),
        "无法定位 MCP 适配器：x"
    );
    assert_eq!(host_failure("a.exe", "denied"), "无法启动 a.exe：denied");
}

#[test]
fn json_is_printed_and_read() {
    assert_eq!(printed(b"{\"stopped\":true}").unwrap(), "{\n  \"stopped\": true\n}");
    assert!(printed(b"{").unwrap_err().starts_with("输出 JSON 失败："));
    assert_eq!(read_argument("{\"a\" : \"\\u4e2d\"}").unwrap(), "{\"a\":\"中\"}");
    assert!(read_argument("{")
        .unwrap_err()
        .starts_with("JSON-RPC 请求不是合法 JSON："));
    assert_eq!(
        probe_text(&VolumeProbe {
            volume: 'C',
            journal_id: 9,
            first_usn: -1,
            next_usn: 4,
            first_batch_records: 2,
        }),
        "{\"first_batch_records\":2,\"first_usn\":-1,\"journal_id\":9,\"next_usn\":4,\"volume\":\"C\"}"
    );
    let error: SearchError = bad_params("x");
    assert_eq!(error.message(), "无法访问路径 <rpc params>: x");
}

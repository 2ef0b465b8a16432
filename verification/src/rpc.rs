//! The JSON-RPC protocol of the local control service.
use crate::errors::{SearchError, SearchErrorView};
use crate::index::{IndexView, ScanReport, SearchIndex};
use crate::json::{
    bool_text, items_text, member, quoted, report_text, reports_text, roots_text, status_text,
    string_value,
};
use crate::search::{ItemView, RequestView, SearchRequest};
use crate::text::{concat, same_text, to_signed_decimal};
use vstd::prelude::*;

verus! {

/// The code for a request that is no request.
pub const INVALID_REQUEST: i64 = -32600;

/// The code for a method that does not exist.
pub const METHOD_NOT_FOUND: i64 = -32601;

/// The code for a service that broke down.
pub const INTERNAL_ERROR: i64 = -32603;

/// The code for an operation that failed.
pub const OPERATION_FAILED: i64 = -32000;

// ---------------------------------------------------------------------------
// Responses
// ---------------------------------------------------------------------------

/// A response with a result.
pub open spec fn result_json(id: Seq<char>, result: Seq<char>) -> Seq<char> {
    "{\"id\":"@ + id + ",\"jsonrpc\":\"2.0\",\"result\":"@ + result + "}"@
}

/// A response with a result.
pub fn rpc_result(id: &str, result: &str) -> (response: String)
    ensures
        response@ == result_json(id@, result@),
{
    let mut response = "{\"id\":".to_owned();
    response.append(id);
    response.append(",\"jsonrpc\":\"2.0\",\"result\":");
    response.append(result);
    response.append("}");
    response
}

/// A response with an error.
pub open spec fn error_json(id: Seq<char>, code: int, message: Seq<char>) -> Seq<char> {
    "{\"error\":{\"code\":"@ + crate::text::signed_decimal(code) + ",\"message\":"@
        + crate::json::json_quoted(message) + "},\"id\":"@ + id + ",\"jsonrpc\":\"2.0\"}"@
}

/// A response with an error.
pub fn rpc_error(id: &str, code: i64, message: &str) -> (response: String)
    ensures
        response@ == error_json(id@, code as int, message@),
{
    let mut response = "{\"error\":{\"code\":".to_owned();
    response.append(to_signed_decimal(code).as_str());
    response.append(",\"message\":");
    response.append(quoted(message).as_str());
    response.append("},\"id\":");
    response.append(id);
    response.append(",\"jsonrpc\":\"2.0\"}");
    response
}

// ---------------------------------------------------------------------------
// Requests
// ---------------------------------------------------------------------------

/// What a request asks for.
#[derive(Clone, Copy, Debug, PartialEq, Eq, Structural)]
pub enum RpcMethod {
    Status,
    ListRoots,
    Search,
    ScanRoot,
    RemoveRoot,
    ScanVolume,
    SyncVolume,
    SyncAllVolumes,
}

/// The method with the given name.
pub open spec fn method_named(name: Seq<char>) -> Option<RpcMethod> {
    if name == "status.get"@ {
        Some(RpcMethod::Status)
    } else if name == "index.list_roots"@ {
        Some(RpcMethod::ListRoots)
    } else if name == "search.query"@ {
        Some(RpcMethod::Search)
    } else if name == "index.scan_root"@ {
        Some(RpcMethod::ScanRoot)
    } else if name == "index.remove_root"@ {
        Some(RpcMethod::RemoveRoot)
    } else if name == "index.scan_volume"@ {
        Some(RpcMethod::ScanVolume)
    } else if name == "index.sync_volume"@ {
        Some(RpcMethod::SyncVolume)
    } else if name == "index.sync_all_volumes"@ {
        Some(RpcMethod::SyncAllVolumes)
    } else {
        None
    }
}

/// The method with the given name.
pub fn find_method(name: &str) -> (method: Option<RpcMethod>)
    ensures
        method == method_named(name@),
{
    if same_text(name, "status.get") {
        Some(RpcMethod::Status)
    } else if same_text(name, "index.list_roots") {
        Some(RpcMethod::ListRoots)
    } else if same_text(name, "search.query") {
        Some(RpcMethod::Search)
    } else if same_text(name, "index.scan_root") {
        Some(RpcMethod::ScanRoot)
    } else if same_text(name, "index.remove_root") {
        Some(RpcMethod::RemoveRoot)
    } else if same_text(name, "index.scan_volume") {
        Some(RpcMethod::ScanVolume)
    } else if same_text(name, "index.sync_volume") {
        Some(RpcMethod::SyncVolume)
    } else if same_text(name, "index.sync_all_volumes") {
        Some(RpcMethod::SyncAllVolumes)
    } else {
        None
    }
}

/// A request that is to be carried out: its identification and parameters in JSON, and its method.
#[derive(Debug)]
pub struct RpcTask {
    pub id: String,
    pub method: RpcMethod,
    pub params: String,
}

/// What an [`RpcTask`] says.
pub struct TaskView {
    pub id: Seq<char>,
    pub method: RpcMethod,
    pub params: Seq<char>,
}

impl View for RpcTask {
    type V = TaskView;

    open spec fn view(&self) -> TaskView {
        TaskView { id: self.id@, method: self.method, params: self.params@ }
    }
}

/// A value that may be missing, as JSON.
pub open spec fn or_null(value: Option<Seq<char>>) -> Seq<char> {
    match value {
        Some(document) => document,
        None => "null"@,
    }
}

fn null_if_none(value: Option<String>) -> (document: String)
    ensures
        document@ == or_null(crate::json::text_option(value)),
{
    match value {
        Some(document) => document,
        None => "null".to_owned(),
    }
}

/// What becomes of a request: a task, or a response that refuses it. `version` and `method` are the
/// texts of the members of these names, where they are strings.
pub open spec fn routed(
    id: Seq<char>,
    version: Option<Seq<char>>,
    method: Option<Seq<char>>,
    params: Seq<char>,
) -> Result<TaskView, Seq<char>> {
    if version != Some("2.0"@) {
        Err(error_json(id, INVALID_REQUEST as int, "仅支持 JSON-RPC 2.0"@))
    } else {
        match method {
            None => Err(error_json(id, INVALID_REQUEST as int, "缺少 method"@)),
            Some(name) => match method_named(name) {
                None => Err(error_json(id, METHOD_NOT_FOUND as int, "未实现的方法"@)),
                Some(method) => Ok(TaskView { id, method, params }),
            },
        }
    }
}

/// The view of what became of a request.
pub open spec fn route_result(result: Result<RpcTask, String>) -> Result<TaskView, Seq<char>> {
    match result {
        Ok(task) => Ok(task@),
        Err(response) => Err(response@),
    }
}

/// What becomes of a request with the given members.
pub fn route_members(
    id: String,
    version: Option<String>,
    method: Option<String>,
    params: String,
) -> (result: Result<RpcTask, String>)
    ensures
        route_result(result) == routed(
            id@,
            crate::json::text_option(version),
            crate::json::text_option(method),
            params@,
        ),
{
    let supported: bool = match &version {
        Some(text) => same_text(text.as_str(), "2.0"),
        None => false,
    };
    if !supported {
        return Err(rpc_error(id.as_str(), INVALID_REQUEST, "仅支持 JSON-RPC 2.0"));
    }
    match method {
        None => Err(rpc_error(id.as_str(), INVALID_REQUEST, "缺少 method")),
        Some(name) => match find_method(name.as_str()) {
            None => Err(rpc_error(id.as_str(), METHOD_NOT_FOUND, "未实现的方法")),
            Some(method) => Ok(RpcTask { id, method, params }),
        },
    }
}

/// The text of a member that is a string.
pub open spec fn member_text(document: Seq<u8>, name: Seq<char>) -> Option<Seq<char>> {
    match crate::json::json_member(document, name) {
        Some(value) => crate::json::json_text(value),
        None => None,
    }
}

/// The text of a member that is a string.
pub(crate) fn find_text(document: &[u8], name: &str) -> (text: Option<String>)
    ensures
        crate::json::text_option(text) == member_text(document@, name@),
{
    match member(document, name) {
        Some(value) => string_value(value.as_str()),
        None => None,
    }
}

/// What becomes of a request, which is given as it was received.
pub fn route(request: &[u8]) -> (result: Result<RpcTask, String>)
    ensures
        route_result(result) == routed(
            or_null(crate::json::json_member(request@, "id"@)),
            member_text(request@, "jsonrpc"@),
            member_text(request@, "method"@),
            or_null(crate::json::json_member(request@, "params"@)),
        ),
{
    route_members(
        null_if_none(member(request, "id")),
        find_text(request, "jsonrpc"),
        find_text(request, "method"),
        null_if_none(member(request, "params")),
    )
}

// ---------------------------------------------------------------------------
// Carrying out a request
// ---------------------------------------------------------------------------

/// The parameters of a search.
#[derive(Debug)]
pub struct SearchParams {
    pub query: String,
    pub limit: Option<usize>,
    /// An absolute path.
    pub root: Option<String>,
}

/// The request that the parameters of a search stand for.
pub open spec fn params_request(params: SearchParams) -> RequestView {
    RequestView {
        query: params.query@,
        limit: match params.limit {
            Some(limit) => limit,
            None => 50,
        },
        root: crate::json::text_option(params.root),
    }
}

/// What a task needs to be carried out: its parameters, or what was found outside the index.
#[derive(Debug)]
pub enum RpcCall {
    Status,
    ListRoots,
    /// The parameters of a search, or why they cannot be read.
    Search(Result<SearchParams, SearchError>),
    /// The root to remove as an absolute path, or why there is none.
    RemoveRoot(Result<String, SearchError>),
    /// The outcome of a scan or a synchronisation.
    Report(Result<ScanReport, SearchError>),
    /// The outcome of a synchronisation of all followed volumes.
    Reports(Result<Vec<ScanReport>, SearchError>),
}

/// The error for parameters that cannot be read.
pub fn bad_params(detail: &str) -> (error: SearchError)
    ensures
        error@ == (SearchErrorView::Io { path: "<rpc params>"@, source: detail@ }),
{
    SearchError::Io { path: "<rpc params>".to_owned(), source: detail.to_owned() }
}

/// Whether a call belongs to a method.
pub open spec fn belongs(method: RpcMethod, call: RpcCall) -> bool {
    match method {
        RpcMethod::Status => call is Status,
        RpcMethod::ListRoots => call is ListRoots,
        RpcMethod::Search => call is Search,
        RpcMethod::RemoveRoot => call is RemoveRoot,
        RpcMethod::ScanRoot | RpcMethod::ScanVolume | RpcMethod::SyncVolume => call is Report,
        RpcMethod::SyncAllVolumes => call is Reports,
    }
}

/// The response with an outcome.
pub open spec fn outcome_json(
    id: Seq<char>,
    outcome: Result<Seq<char>, SearchErrorView>,
) -> Seq<char> {
    match outcome {
        Ok(result) => result_json(id, result),
        Err(error) => error_json(id, OPERATION_FAILED as int, error.wording()),
    }
}

/// The response with an outcome.
pub fn outcome_response(id: &str, outcome: Result<String, SearchError>) -> (response: String)
    ensures
        response@ == outcome_json(id@, crate::json::written_result(outcome)),
{
    match outcome {
        Ok(result) => rpc_result(id, result.as_str()),
        Err(error) => rpc_error(id, OPERATION_FAILED, error.message().as_str()),
    }
}

/// The outcome of a removal.
pub open spec fn removal_json(removed: bool) -> Seq<char> {
    "{\"removed\":"@ + crate::json::bool_json(removed) + "}"@
}

/// Whether an outcome is that of a call on an index whose view is `index`.
pub open spec fn is_outcome(
    index: IndexView,
    call: RpcCall,
    outcome: Result<Seq<char>, SearchErrorView>,
) -> bool {
    match call {
        RpcCall::Status => exists|status: crate::overview::IndexStatus| #[trigger]
            index.has_status(status) && outcome == Ok::<Seq<char>, SearchErrorView>(
                crate::json::status_json(status),
            ),
        RpcCall::ListRoots => exists|names: Seq<Seq<char>>| #[trigger]
            crate::overview::names_in_order(names, index.roots.dom()) && outcome == Ok::<
                Seq<char>,
                SearchErrorView,
            >(
                crate::json::roots_json(
                    Seq::new(
                        names.len(),
                        |i: int| crate::overview::listed_root(names[i], index.roots[names[i]]),
                    ),
                ),
            ),
        RpcCall::Search(Err(error)) => outcome == Err::<Seq<char>, SearchErrorView>(error@),
        RpcCall::Search(Ok(params)) => exists|result: Result<Seq<ItemView>, SearchErrorView>|
            #[trigger]
            index.answers(
                params_request(params),
                crate::normalize::normalized(params.query@),
                result,
            ) && outcome == match result {
                Ok(items) => Ok::<Seq<char>, SearchErrorView>(crate::json::items_json(items)),
                Err(error) => Err(error),
            },
        RpcCall::RemoveRoot(Err(error)) => outcome == Err::<Seq<char>, SearchErrorView>(error@),
        RpcCall::RemoveRoot(Ok(root)) => outcome == Ok::<Seq<char>, SearchErrorView>(
            removal_json(index.roots.contains_key(crate::paths::storage_path(root@))),
        ),
        RpcCall::Report(Err(error)) => outcome == Err::<Seq<char>, SearchErrorView>(error@),
        RpcCall::Report(Ok(report)) => outcome == crate::json::written_report(report@),
        RpcCall::Reports(Err(error)) => outcome == Err::<Seq<char>, SearchErrorView>(error@),
        RpcCall::Reports(Ok(reports)) => outcome == crate::json::written_reports(
            crate::json::report_views(reports@),
        ),
    }
}

/// The index after a call. Only a removal changes it here: what was scanned or synchronised is in
/// it already.
pub open spec fn index_after(index: IndexView, call: RpcCall) -> IndexView {
    match call {
        RpcCall::RemoveRoot(Ok(root)) => IndexView {
            roots: index.roots.remove(crate::paths::storage_path(root@)),
            ..index
        },
        _ => index,
    }
}

/// The outcome of a call.
fn carry_out(index: &mut SearchIndex, call: RpcCall) -> (outcome: Result<String, SearchError>)
    requires
        old(index).wf(),
    ensures
        final(index).wf(),
        final(index).path() == old(index).path(),
        final(index)@ == index_after(old(index)@, call),
        is_outcome(old(index)@, call, crate::json::written_result(outcome)),
{
    match call {
        RpcCall::Status => {
            let status = index.status();
            assert(index@.has_status(status));
            Ok(status_text(&status))
        },
        RpcCall::ListRoots => Ok(roots_text(&index.indexed_roots())),
        RpcCall::Search(Err(error)) => Err(error),
        RpcCall::Search(Ok(params)) => {
            let ghost shape = params_request(params);
            let limit: usize = match params.limit {
                Some(limit) => limit,
                None => crate::search::DEFAULT_LIMIT,
            };
            let mut request = SearchRequest::new(params.query.as_str());
            request.limit = limit;
            request.root = params.root;
            assert(request@ == shape);
            let result = index.search(&request);
            let ghost view = crate::search::items_result(result);
            assert(index@.answers(shape, crate::normalize::normalized(shape.query), view));
            match result {
                Ok(items) => Ok(items_text(&items)),
                Err(error) => Err(error),
            }
        },
        RpcCall::RemoveRoot(Err(error)) => Err(error),
        RpcCall::RemoveRoot(Ok(root)) => {
            let removed: bool = index.remove_root(root.as_str());
            let mut text = "{\"removed\":".to_owned();
            text.append(bool_text(removed));
            text.append("}");
            Ok(text)
        },
        RpcCall::Report(Err(error)) => Err(error),
        RpcCall::Report(Ok(report)) => report_text(&report),
        RpcCall::Reports(Err(error)) => Err(error),
        RpcCall::Reports(Ok(reports)) => reports_text(&reports),
    }
}

/// Carries out a task and gives the response. No file is read; a search returns metadata alone.
pub fn handle_rpc(index: &mut SearchIndex, task: RpcTask, call: RpcCall) -> (response: String)
    requires
        old(index).wf(),
        belongs(task.method, call),
    ensures
        final(index).wf(),
        final(index).path() == old(index).path(),
        final(index)@ == index_after(old(index)@, call),
        exists|outcome: Result<Seq<char>, SearchErrorView>| #[trigger]
            is_outcome(old(index)@, call, outcome) && response@ == outcome_json(task@.id, outcome),
{
    let outcome = carry_out(index, call);
    outcome_response(task.id.as_str(), outcome)
}

// ---------------------------------------------------------------------------
// The service
// ---------------------------------------------------------------------------

/// Whether a request with the given version and method asks the service to stop.
pub fn is_shutdown_call(version: &Option<String>, method: &Option<String>) -> (yes: bool)
    ensures
        yes == (crate::json::text_option(*version) == Some("2.0"@) && crate::json::text_option(
            *method,
        ) == Some("app.shutdown"@)),
{
    let supported: bool = match version {
        Some(text) => same_text(text.as_str(), "2.0"),
        None => false,
    };
    let named: bool = match method {
        Some(text) => same_text(text.as_str(), "app.shutdown"),
        None => false,
    };
    supported && named
}

/// Whether a request asks the service to stop.
pub fn is_shutdown_request(request: &[u8]) -> (yes: bool)
    ensures
        yes == (member_text(request@, "jsonrpc"@) == Some("2.0"@) && member_text(
            request@,
            "method"@,
        ) == Some("app.shutdown"@)),
{
    is_shutdown_call(&find_text(request, "jsonrpc"), &find_text(request, "method"))
}

/// The response to a request to stop.
pub fn shutdown_response(request: &[u8]) -> (response: String)
    ensures
        response@ == result_json(
            or_null(crate::json::json_member(request@, "id"@)),
            "{\"stopping\":true}"@,
        ),
{
    rpc_result(null_if_none(member(request, "id")).as_str(), "{\"stopping\":true}")
}

/// The response where the task that carried out a request broke down.
pub fn broken_task_response(detail: &str) -> (response: String)
    ensures
        response@ == error_json("null"@, INTERNAL_ERROR as int, "服务任务失败："@ + detail@),
{
    rpc_error("null", INTERNAL_ERROR, concat("服务任务失败：", detail).as_str())
}

// ---------------------------------------------------------------------------
// Laws
// ---------------------------------------------------------------------------

/// A request of another protocol version, without a method or with an unknown one is refused with
/// its own identification, and with the code that belongs to the reason; every other request
/// becomes a task with its identification and parameters.
pub proof fn law_refusals_echo_the_id(
    id: Seq<char>,
    version: Option<Seq<char>>,
    method: Option<Seq<char>>,
    params: Seq<char>,
)
    ensures
        match routed(id, version, method, params) {
            Ok(task) => {
                &&& version == Some("2.0"@)
                &&& method matches Some(name) && method_named(name) == Some(task.method)
                &&& task.id == id
                &&& task.params == params
            },
            Err(response) => {
                ||| version != Some("2.0"@) && response == error_json(
                    id,
                    -32600,
                    "仅支持 JSON-RPC 2.0"@,
                )
                ||| version == Some("2.0"@) && method is None && response == error_json(
                    id,
                    -32600,
                    "缺少 method"@,
                )
                ||| version == Some("2.0"@) && method is Some && method_named(method->0) is None
                    && response == error_json(id, -32601, "未实现的方法"@)
            },
        },
{
}

/// Stopping the service is no method of the index: a request for it is refused where the service
/// does not offer it.
pub proof fn law_shutdown_is_not_a_method()
    ensures
        method_named("app.shutdown"@) is None,
{
    reveal_strlit("app.shutdown");
    reveal_strlit("status.get");
    reveal_strlit("index.list_roots");
    reveal_strlit("search.query");
    reveal_strlit("index.scan_root");
    reveal_strlit("index.remove_root");
    reveal_strlit("index.scan_volume");
    reveal_strlit("index.sync_volume");
    reveal_strlit("index.sync_all_volumes");
    assert("app.shutdown"@[0] == 'a');
    assert("status.get"@[0] == 's');
    assert("search.query"@[0] == 's');
    assert("index.list_roots"@[0] == 'i');
    assert("index.scan_root"@[0] == 'i');
    assert("index.remove_root"@[0] == 'i');
    assert("index.scan_volume"@[0] == 'i');
    assert("index.sync_volume"@[0] == 'i');
    assert("index.sync_all_volumes"@[0] == 'i');
}

/// The methods that the tools for agents call change nothing.
pub proof fn law_reading_changes_nothing(index: IndexView, method: RpcMethod, call: RpcCall)
    requires
        belongs(method, call),
        method is Status || method is ListRoots || method is Search,
    ensures
        index_after(index, call) == index,
{
}

} // verus!

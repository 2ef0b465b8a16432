//! The read-only adapter for agents: what it asks of the service, and what it makes of the answers.
use crate::json::{member, optional_text_text, pretty, quoted};
use crate::text::{concat, to_decimal};
use vstd::prelude::*;

verus! {

/// How often the service is called after it was started.
pub const HOST_START_RETRIES: u64 = 20;

/// How long each of these calls is put off, in milliseconds.
pub const HOST_START_DELAY_MS: u64 = 150;

/// The most results that an agent is given.
pub const MAX_AGENT_RESULTS: usize = 200;

/// A search by an agent.
#[derive(Debug)]
pub struct SearchFilesRequest {
    pub query: String,
    pub limit: Option<usize>,
    pub root: Option<String>,
}

/// The number of results that an agent is given.
pub open spec fn agent_limit(limit: Option<usize>) -> nat {
    match limit {
        None => 50,
        Some(limit) => if limit < 1 {
            1
        } else if limit > 200 {
            200
        } else {
            limit as nat
        },
    }
}

/// The parameters of a search, in JSON.
pub open spec fn search_params_json(
    query: Seq<char>,
    limit: Option<usize>,
    root: Option<Seq<char>>,
) -> Seq<char> {
    "{\"limit\":"@ + crate::text::decimal(agent_limit(limit)) + ",\"query\":"@
        + crate::json::json_quoted(query) + ",\"root\":"@ + crate::json::optional_text_json(root)
        + "}"@
}

/// The parameters of a search, in JSON.
pub fn search_files(request: &SearchFilesRequest) -> (params: String)
    ensures
        params@ == search_params_json(
            request.query@,
            request.limit,
            crate::json::text_option(request.root),
        ),
{
    let limit: usize = match request.limit {
        None => 50,
        Some(limit) => if limit < 1 {
            1
        } else if limit > MAX_AGENT_RESULTS {
            MAX_AGENT_RESULTS
        } else {
            limit
        },
    };
    let mut params = "{\"limit\":".to_owned();
    params.append(to_decimal(limit as u64).as_str());
    params.append(",\"query\":");
    params.append(quoted(request.query.as_str()).as_str());
    params.append(",\"root\":");
    params.append(optional_text_text(&request.root).as_str());
    params.append("}");
    params
}

/// The request for a method with parameters in JSON.
pub open spec fn request_json(method: Seq<char>, params: Seq<char>) -> Seq<char> {
    "{\"id\":"@ + crate::json::json_quoted("mcp-"@ + method) + ",\"jsonrpc\":\"2.0\",\"method\":"@
        + crate::json::json_quoted(method) + ",\"params\":"@ + params + "}"@
}

/// The request for a method with parameters in JSON.
pub fn rpc_request(method: &str, params: &str) -> (request: String)
    ensures
        request@ == request_json(method@, params@),
{
    let mut request = "{\"id\":".to_owned();
    request.append(quoted(concat("mcp-", method).as_str()).as_str());
    request.append(",\"jsonrpc\":\"2.0\",\"method\":");
    request.append(quoted(method).as_str());
    request.append(",\"params\":");
    request.append(params);
    request.append("}");
    request
}

// ---------------------------------------------------------------------------
// Answers
// ---------------------------------------------------------------------------

/// What a response with the given members says. An error is never taken for a success.
pub open spec fn extracted(error: Option<Seq<char>>, result: Option<Seq<char>>) -> Result<
    Seq<char>,
    Seq<char>,
> {
    match error {
        Some(error) => Err("金福搜索返回错误："@ + error),
        None => match result {
            Some(result) => Ok(result),
            None => Err("金福搜索返回了不完整的 JSON-RPC 响应"@),
        },
    }
}

/// What a response with the given members says.
pub fn extract_members(error: Option<String>, result: Option<String>) -> (outcome: Result<
    String,
    String,
>)
    ensures
        crate::json::text_result(outcome) == extracted(
            crate::json::text_option(error),
            crate::json::text_option(result),
        ),
{
    match error {
        Some(error) => Err(concat("金福搜索返回错误：", error.as_str())),
        None => match result {
            Some(result) => Ok(result),
            None => Err("金福搜索返回了不完整的 JSON-RPC 响应".to_owned()),
        },
    }
}

/// What a response says, which is given as it was received. A result is given in its compact form.
pub fn extract_result(response: &[u8]) -> (outcome: Result<String, String>)
    ensures
        crate::json::text_result(outcome) == extracted(
            crate::json::json_member(response@, "error"@),
            crate::json::json_member(response@, "result"@),
        ),
{
    extract_members(member(response, "error"), member(response, "result"))
}

/// The document that an agent is given.
pub open spec fn answer_json(outcome: Result<Seq<char>, Seq<char>>) -> Seq<char> {
    match outcome {
        Ok(value) => "{\"data\":"@ + value + ",\"ok\":true}"@,
        Err(error) => "{\"error\":"@ + crate::json::json_quoted(error) + ",\"ok\":false}"@,
    }
}

/// The document that an agent is given, as it is printed.
pub open spec fn rendered(
    outcome: Result<Seq<char>, Seq<char>>,
    printed: Result<Seq<char>, Seq<char>>,
) -> Seq<char> {
    match printed {
        Ok(text) => text,
        Err(error) => match outcome {
            Ok(_) => "{\"ok\":false,\"error\":\""@ + error + "\"}"@,
            Err(_) => "{\"ok\":false,\"error\":\"serialization failed\"}"@,
        },
    }
}

/// The document that an agent is given, where printing it gave the given result.
pub fn render_printed(succeeded: bool, printed: Result<String, String>) -> (text: String)
    ensures
        forall|outcome: Result<Seq<char>, Seq<char>>|
            (outcome is Ok) == succeeded ==> text@ == #[trigger] rendered(
                outcome,
                crate::json::text_result(printed),
            ),
{
    match printed {
        Ok(text) => text,
        Err(error) => {
            if succeeded {
                let mut text = concat("{\"ok\":false,\"error\":\"", error.as_str());
                text.append("\"}");
                text
            } else {
                "{\"ok\":false,\"error\":\"serialization failed\"}".to_owned()
            }
        },
    }
}

/// The document that an agent is given.
pub fn render_result(outcome: Result<String, String>) -> (text: String)
    ensures
        text@ == rendered(
            crate::json::text_result(outcome),
            crate::json::json_pretty(
                vstd::utf8::encode_utf8(answer_json(crate::json::text_result(outcome))),
            ),
        ),
{
    let succeeded: bool = outcome.is_ok();
    let ghost view = crate::json::text_result(outcome);
    let document: String = match outcome {
        Ok(value) => {
            let mut document = concat("{\"data\":", value.as_str());
            document.append(",\"ok\":true}");
            document
        },
        Err(error) => {
            let mut document = concat("{\"error\":", quoted(error.as_str()).as_str());
            document.append(",\"ok\":false}");
            document
        },
    };
    assert(document@ == answer_json(view));
    render_printed(succeeded, pretty(document.as_str().as_bytes()))
}

// ---------------------------------------------------------------------------
// Calling the service
// ---------------------------------------------------------------------------

/// How far a call of the service has come.
#[derive(Clone, Copy, Debug, PartialEq, Eq, Structural)]
pub enum HostStage {
    /// It is called as it is.
    First,
    /// It is called once more, after all other calls that might start it.
    Locked,
    /// It is being started.
    Starting,
    /// It was started, and is called this many times more.
    Waiting { left: u64 },
}

/// What happens to a call of the service.
#[derive(Debug)]
pub enum HostEvent {
    Answered(Vec<u8>),
    Unreachable,
    /// The service was started, or could not be started.
    Started(Result<(), String>),
}

/// What a call of the service does next.
#[derive(Debug)]
pub enum HostStep {
    /// To wait for all other calls that might start the service, and call it.
    CallAlone,
    StartHost,
    /// To call it after [`HOST_START_DELAY_MS`].
    CallLater,
    Done(Result<String, String>),
}

/// What a [`HostStep`] says.
pub enum HostStepView {
    CallAlone,
    StartHost,
    CallLater,
    Done(Result<Seq<char>, Seq<char>>),
}

impl View for HostStep {
    type V = HostStepView;

    open spec fn view(&self) -> HostStepView {
        match *self {
            HostStep::CallAlone => HostStepView::CallAlone,
            HostStep::StartHost => HostStepView::StartHost,
            HostStep::CallLater => HostStepView::CallLater,
            HostStep::Done(result) => HostStepView::Done(crate::json::text_result(result)),
        }
    }
}

/// What an agent is told where the service does not come up.
pub open spec fn not_ready() -> Seq<char> {
    "金福搜索宿主未能在 3 秒内就绪。请确认 jinfu-search.exe 与 jinfu-search-mcp.exe 位于同一目录，并允许主程序运行。"@
}

/// How far a call has come after an event, and what it does next.
pub open spec fn host_after(stage: HostStage, event: HostEvent) -> (HostStage, HostStepView) {
    match event {
        HostEvent::Answered(response) => (
            stage,
            HostStepView::Done(
                extracted(
                    crate::json::json_member(response@, "error"@),
                    crate::json::json_member(response@, "result"@),
                ),
            ),
        ),
        HostEvent::Started(Err(error)) => (stage, HostStepView::Done(Err(error@))),
        HostEvent::Started(Ok(_)) => (
            HostStage::Waiting { left: HOST_START_RETRIES },
            HostStepView::CallLater,
        ),
        HostEvent::Unreachable => match stage {
            HostStage::First => (HostStage::Locked, HostStepView::CallAlone),
            HostStage::Locked => (HostStage::Starting, HostStepView::StartHost),
            HostStage::Starting => (stage, HostStepView::Done(Err(not_ready()))),
            HostStage::Waiting { left } => if left > 1 {
                (HostStage::Waiting { left: (left - 1) as u64 }, HostStepView::CallLater)
            } else {
                (HostStage::Waiting { left: 0 }, HostStepView::Done(Err(not_ready())))
            },
        },
    }
}

/// How far a call has come after an event, and what it does next. A service that cannot be reached
/// is started once, and then called until it answers or its time is over.
pub fn rpc_step(stage: HostStage, event: HostEvent) -> (next: (HostStage, HostStep))
    ensures
        (next.0, next.1@) == host_after(stage, event),
{
    match event {
        HostEvent::Answered(response) => (
            stage,
            HostStep::Done(extract_result(response.as_slice())),
        ),
        HostEvent::Started(Err(error)) => (stage, HostStep::Done(Err(error))),
        HostEvent::Started(Ok(_)) => (
            HostStage::Waiting { left: HOST_START_RETRIES },
            HostStep::CallLater,
        ),
        HostEvent::Unreachable => match stage {
            HostStage::First => (HostStage::Locked, HostStep::CallAlone),
            HostStage::Locked => (HostStage::Starting, HostStep::StartHost),
            HostStage::Starting => (stage, HostStep::Done(Err(not_ready_text()))),
            HostStage::Waiting { left } => if left > 1 {
                (HostStage::Waiting { left: left - 1 }, HostStep::CallLater)
            } else {
                (HostStage::Waiting { left: 0 }, HostStep::Done(Err(not_ready_text())))
            },
        },
    }
}

fn not_ready_text() -> (text: String)
    ensures
        text@ == not_ready(),
{
    "金福搜索宿主未能在 3 秒内就绪。请确认 jinfu-search.exe 与 jinfu-search-mcp.exe 位于同一目录，并允许主程序运行。".to_owned()
}

/// How far a call has come after the service could not be reached a number of times.
pub open spec fn after_failures(stage: HostStage, failures: nat) -> HostStage
    decreases failures,
{
    if failures == 0 {
        stage
    } else {
        host_after(after_failures(stage, (failures - 1) as nat), HostEvent::Unreachable).0
    }
}

/// A service that was started and does not answer is called twenty times, which takes three
/// seconds, and then given up.
pub proof fn law_started_service_is_given_three_seconds(failures: nat)
    requires
        failures < 20,
    ensures
        HOST_START_RETRIES * HOST_START_DELAY_MS == 3_000,
        after_failures(HostStage::Waiting { left: 20 }, failures) == (HostStage::Waiting {
            left: (20 - failures) as u64,
        }),
        host_after(
            after_failures(HostStage::Waiting { left: 20 }, failures),
            HostEvent::Unreachable,
        ).1 == if failures < 19 {
            HostStepView::CallLater
        } else {
            HostStepView::Done(Err(not_ready()))
        },
    decreases failures,
{
    if failures > 0 {
        law_started_service_is_given_three_seconds((failures - 1) as nat);
    }
}

// ---------------------------------------------------------------------------
// Starting the service
// ---------------------------------------------------------------------------

/// The program of the service, or what an agent is told where it cannot be found. `host` is the
/// path of the program beside the adapter, or why the adapter does not know its own.
pub fn host_to_start(host: Result<String, String>, found: bool) -> (result: Result<String, String>)
    ensures
        crate::json::text_result(result) == match crate::json::text_result(host) {
            Err(error) => Err::<Seq<char>, Seq<char>>("无法定位 MCP 适配器："@ + error),
            Ok(path) => if found {
                Ok(path)
            } else {
                Err("未找到同目录宿主："@ + path + "。请同时复制 jinfu-search.exe。"@)
            },
        },
{
    match host {
        Err(error) => Err(concat("无法定位 MCP 适配器：", error.as_str())),
        Ok(path) => {
            if found {
                Ok(path)
            } else {
                let mut message = concat("未找到同目录宿主：", path.as_str());
                message.append("。请同时复制 jinfu-search.exe。");
                Err(message)
            }
        },
    }
}

/// What an agent is told where the program of the service cannot be run.
pub fn host_failure(host: &str, error: &str) -> (message: String)
    ensures
        message@ == "无法启动 "@ + host@ + "："@ + error@,
{
    let mut message = concat("无法启动 ", host);
    message.append("：");
    message.append(error);
    message
}

} // verus!

//! The local pipe between the service and its clients: names, frames, and what follows from what
//! happens on it.
use crate::bytes::{get_le32, put_le};
use crate::errors::{IoError, IoErrorView, IoKind};
use crate::json::parse;
use crate::rpc::{is_shutdown_request, shutdown_response};
use crate::text::{concat, from_chars, has_prefix, to_chars};
use vstd::prelude::*;

verus! {

/// The pipe on which the service listens.
pub const DEFAULT_PIPE_NAME: &'static str = r"\\.\pipe\jinfu-search-v1";

/// The most bytes that a message may have.
pub const MAX_RPC_FRAME_BYTES: usize = 1_048_576;

/// The most instances of a pipe that exist at a time.
pub const MAX_PIPE_INSTANCES: usize = 16;

/// The most connections that are served at a time: one instance always waits for the next client.
pub const MAX_ACTIVE_PIPE_CONNECTIONS: usize = 15;

/// How long a client tries to connect, and the service to make an instance, in milliseconds.
pub const PIPE_CONNECT_TIMEOUT_MS: u64 = 2_000;

/// How long a message may take, in milliseconds.
pub const PIPE_FRAME_TIMEOUT_MS: u64 = 15_000;

/// How long connections that are still served are waited for when the service stops, in
/// milliseconds.
pub const PIPE_DRAIN_TIMEOUT_MS: u64 = 2_000;

/// How long a transient failure is waited out, in milliseconds.
pub const PIPE_RETRY_DELAY_MS: u64 = 20;

/// The code of the operating system for a refused access.
pub const ERROR_ACCESS_DENIED: i32 = 5;

/// The code of the operating system for a pipe of which all instances are busy.
pub const ERROR_PIPE_BUSY: i32 = 231;

/// The code of the operating system for a pipe without a process at its other end.
pub const ERROR_PIPE_NOT_CONNECTED: i32 = 233;

/// However many connections are served, there is an instance left for the next client.
pub proof fn law_an_instance_is_left(active: nat)
    requires
        active <= MAX_ACTIVE_PIPE_CONNECTIONS,
    ensures
        active + 1 <= MAX_PIPE_INSTANCES,
{
}

// ---------------------------------------------------------------------------
// Names
// ---------------------------------------------------------------------------

/// The prefix of the names of local pipes.
pub open spec fn pipe_prefix() -> Seq<char> {
    r"\\.\pipe\"@
}

/// Whether a name is that of a single pipe of this machine.
pub open spec fn local_pipe_name(name: Seq<char>) -> bool {
    crate::text::starts_with(name, pipe_prefix()) && crate::paths::valid_component(
        name.skip(pipe_prefix().len() as int),
    )
}

/// What is wrong with the name of a pipe.
pub open spec fn name_problem(name: Seq<char>) -> Option<IoErrorView> {
    if !crate::text::starts_with(name, pipe_prefix()) {
        Some(crate::errors::raised(IoKind::InvalidInput, "管道名必须以 \\\\.\\pipe\\ 开头"@))
    } else if !local_pipe_name(name) {
        Some(
            crate::errors::raised(
                IoKind::InvalidInput,
                "管道名必须是 \\\\.\\pipe\\ 下的单个本地名称"@,
            ),
        )
    } else {
        None
    }
}

/// Accepts the name of a pipe of this machine, and no other.
pub fn validate_pipe_name(pipe_name: &str) -> (result: Result<(), IoError>)
    ensures
        match result {
            Ok(_) => name_problem(pipe_name@) is None,
            Err(error) => name_problem(pipe_name@) == Some(error@),
        },
{
    let chars = to_chars(pipe_name);
    let prefix = to_chars(r"\\.\pipe\");
    if !has_prefix(chars.as_slice(), prefix.as_slice()) {
        return Err(IoError::new(IoKind::InvalidInput, "管道名必须以 \\\\.\\pipe\\ 开头"));
    }
    let rest = vstd::slice::slice_subrange(chars.as_slice(), prefix.len(), chars.len());
    assert(rest@ =~= pipe_name@.skip(pipe_prefix().len() as int));
    let name = from_chars(rest);
    if crate::paths::valid_ntfs_component(name.as_str()) {
        Ok(())
    } else {
        Err(
            IoError::new(
                IoKind::InvalidInput,
                "管道名必须是 \\\\.\\pipe\\ 下的单个本地名称",
            ),
        )
    }
}

/// Who may use the pipe: the user with the given identifier, the system and the administrators, and
/// nobody by inheritance.
pub fn security_descriptor(sid: &str) -> (sddl: String)
    ensures
        sddl@ == "D:P(A;;GA;;;"@ + sid@ + ")(A;;GA;;;SY)(A;;GA;;;BA)"@,
{
    let mut sddl = concat("D:P(A;;GA;;;", sid);
    sddl.append(")(A;;GA;;;SY)(A;;GA;;;BA)");
    sddl
}

// ---------------------------------------------------------------------------
// Frames
// ---------------------------------------------------------------------------

/// Whether a message may have the given number of bytes.
pub open spec fn frame_size_allowed(length: int) -> bool {
    0 < length <= MAX_RPC_FRAME_BYTES
}

/// The bytes of a message with its length before them.
pub open spec fn framed(payload: Seq<u8>) -> Seq<u8> {
    crate::bytes::le_bytes(payload.len(), 4) + payload
}

/// The bytes of a message with its length before them.
pub fn frame(payload: &[u8]) -> (result: Result<Vec<u8>, IoError>)
    ensures
        match result {
            Ok(bytes) => frame_size_allowed(payload@.len() as int) && bytes@ == framed(payload@),
            Err(error) => !frame_size_allowed(payload@.len() as int) && error@
                == crate::errors::raised(IoKind::InvalidData, "JSON-RPC 响应大小无效"@),
        },
{
    if payload.len() == 0 || payload.len() > MAX_RPC_FRAME_BYTES {
        return Err(IoError::new(IoKind::InvalidData, "JSON-RPC 响应大小无效"));
    }
    let mut bytes: Vec<u8> = Vec::new();
    put_le(&mut bytes, payload.len() as u64, 4);
    let ghost header = bytes@;
    let mut i: usize = 0;
    while i < payload.len()
        invariant
            i <= payload.len(),
            bytes@ == header + payload@.take(i as int),
        decreases payload.len() - i,
    {
        bytes.push(payload[i]);
        assert(header + payload@.take(i + 1) =~= (header + payload@.take(i as int)).push(
            payload@[i as int],
        ));
        i += 1;
    }
    assert(payload@.take(i as int) =~= payload@);
    Ok(bytes)
}

/// The length of the message behind a header of four bytes.
pub fn frame_length(header: &[u8]) -> (result: Result<usize, IoError>)
    requires
        header@.len() == 4,
    ensures
        match result {
            Ok(length) => length == crate::bytes::le32(header@, 0) && frame_size_allowed(
                length as int,
            ),
            Err(error) => !frame_size_allowed(crate::bytes::le32(header@, 0) as int) && error@
                == crate::errors::raised(IoKind::InvalidData, "JSON-RPC 帧大小无效"@),
        },
{
    let length: u32 = get_le32(header, 0);
    if length == 0 || length > 1_048_576 {
        return Err(IoError::new(IoKind::InvalidData, "JSON-RPC 帧大小无效"));
    }
    Ok(length as usize)
}

/// What is written for a JSON value.
pub fn write_frame(value: &str) -> (result: Result<Vec<u8>, IoError>)
    ensures
        ({
            let payload = vstd::utf8::encode_utf8(value@);
            match result {
                Ok(bytes) => frame_size_allowed(payload.len() as int) && bytes@ == framed(payload),
                Err(error) => !frame_size_allowed(payload.len() as int) && error@
                    == crate::errors::raised(IoKind::InvalidData, "JSON-RPC 响应大小无效"@),
            }
        }),
{
    frame(value.as_bytes())
}

/// The bytes of a message, where they hold a JSON value.
pub open spec fn message_of(payload: Seq<u8>) -> Result<Seq<u8>, IoErrorView> {
    match crate::json::json_parsed(payload) {
        Ok(_) => Ok(payload),
        Err(error) => Err(
            crate::errors::raised(IoKind::InvalidData, "JSON-RPC 不是合法 JSON："@ + error),
        ),
    }
}

/// The view of a result that holds bytes.
pub open spec fn message_result(result: Result<Vec<u8>, IoError>) -> Result<Seq<u8>, IoErrorView> {
    match result {
        Ok(bytes) => Ok(bytes@),
        Err(error) => Err(error@),
    }
}

/// The bytes of a message, where they hold a JSON value. What is in them is read from them.
pub fn read_frame(payload: Vec<u8>) -> (result: Result<Vec<u8>, IoError>)
    ensures
        message_result(result) == message_of(payload@),
{
    match parse(payload.as_slice()) {
        Ok(_) => Ok(payload),
        Err(error) => Err(
            IoError::new(
                IoKind::InvalidData,
                concat("JSON-RPC 不是合法 JSON：", error.as_str()).as_str(),
            ),
        ),
    }
}

/// What was written as a message is read as a message: the header says how long it is, and its
/// bytes follow.
pub proof fn law_frame_gives_back_the_message(payload: Seq<u8>)
    requires
        frame_size_allowed(payload.len() as int),
    ensures
        framed(payload).len() == 4 + payload.len(),
        crate::bytes::le32(framed(payload).take(4), 0) == payload.len(),
        framed(payload).skip(4) == payload,
{
    crate::bytes::lemma_le_bytes_len(payload.len(), 4);
    let header = crate::bytes::le_bytes(payload.len(), 4);
    let nothing = Seq::<u8>::empty();
    crate::bytes::law_le32_gives_back_what_le_bytes_wrote(payload.len() as u32, nothing, nothing);
    assert(framed(payload).take(4) =~= nothing + header + nothing);
    assert(framed(payload).skip(4) =~= payload);
}

// ---------------------------------------------------------------------------
// Failures
// ---------------------------------------------------------------------------

/// Whether a failure to connect passes by itself.
pub open spec fn transient(error: IoErrorView) -> bool {
    error.kind == IoKind::NotFound || error.code == Some(ERROR_PIPE_BUSY) || error.code == Some(
        ERROR_PIPE_NOT_CONNECTED,
    )
}

/// Whether a failure has the given code of the operating system.
fn has_code(error: &IoError, code: i32) -> (yes: bool)
    ensures
        yes == (error@.code == Some(code)),
{
    match error.code {
        Some(found) => found == code,
        None => false,
    }
}

/// Whether a failure to connect passes by itself.
pub fn is_transient_connection_error(error: &IoError) -> (yes: bool)
    ensures
        yes == transient(error@),
{
    error.kind == IoKind::NotFound || has_code(error, ERROR_PIPE_BUSY) || has_code(
        error,
        ERROR_PIPE_NOT_CONNECTED,
    )
}

/// Why the first instance of a pipe could not be made.
pub open spec fn first_instance_failure(pipe_name: Seq<char>, error: IoErrorView) -> IoErrorView {
    if error.code == Some(ERROR_PIPE_BUSY) || error.code == Some(ERROR_ACCESS_DENIED) {
        crate::errors::raised(
            IoKind::AddrInUse,
            "本地 Agent 管道已被占用："@ + pipe_name + "；请确认现有服务，或传入随机 --pipe"@,
        )
    } else {
        error
    }
}

/// Why the first instance of a pipe could not be made.
pub fn first_instance_error(pipe_name: &str, error: IoError) -> (result: IoError)
    ensures
        result@ == first_instance_failure(pipe_name@, error@),
{
    if has_code(&error, ERROR_PIPE_BUSY) || has_code(&error, ERROR_ACCESS_DENIED) {
        let mut message = concat("本地 Agent 管道已被占用：", pipe_name);
        message.append("；请确认现有服务，或传入随机 --pipe");
        IoError::new(IoKind::AddrInUse, message.as_str())
    } else {
        error
    }
}

/// What follows a failure to make the next instance of a pipe.
#[derive(Debug)]
pub enum InstanceStep {
    /// The failure passes by itself; to be tried again after [`PIPE_RETRY_DELAY_MS`].
    Retry,
    Failed(IoError),
}

/// What follows a failure to make the next instance of a pipe. An instance that was just released
/// may still count for a moment.
pub fn create_next_server(error: IoError, expired: bool) -> (step: InstanceStep)
    ensures
        match step {
            InstanceStep::Retry => error@.code == Some(ERROR_PIPE_BUSY) && !expired,
            InstanceStep::Failed(failure) => failure == error && !(error@.code == Some(
                ERROR_PIPE_BUSY,
            ) && !expired),
        },
{
    if has_code(&error, ERROR_PIPE_BUSY) && !expired {
        InstanceStep::Retry
    } else {
        InstanceStep::Failed(error)
    }
}

// ---------------------------------------------------------------------------
// A call
// ---------------------------------------------------------------------------

/// What happens to a call.
#[derive(Debug)]
pub enum CallEvent {
    /// The client is connected.
    Connected,
    /// The client could not connect.
    ConnectFailed(IoError),
    /// The request was written.
    Written,
    /// The request could not be written.
    WriteFailed(IoError),
    /// The request was not written in time.
    WriteTimedOut,
    /// The response was read, or could not be read.
    Answered(Result<Vec<u8>, IoError>),
    /// The response was not read in time.
    ReadTimedOut,
}

/// What happens to a call, as far as it matters.
pub enum CallEventView {
    Connected,
    ConnectFailed(IoErrorView),
    Written,
    WriteFailed(IoErrorView),
    WriteTimedOut,
    Answered(Result<Seq<u8>, IoErrorView>),
    ReadTimedOut,
}

impl View for CallEvent {
    type V = CallEventView;

    open spec fn view(&self) -> CallEventView {
        match *self {
            CallEvent::Connected => CallEventView::Connected,
            CallEvent::ConnectFailed(error) => CallEventView::ConnectFailed(error@),
            CallEvent::Written => CallEventView::Written,
            CallEvent::WriteFailed(error) => CallEventView::WriteFailed(error@),
            CallEvent::WriteTimedOut => CallEventView::WriteTimedOut,
            CallEvent::Answered(reply) => CallEventView::Answered(
                crate::volume::reply_view(reply),
            ),
            CallEvent::ReadTimedOut => CallEventView::ReadTimedOut,
        }
    }
}

/// What a call does next.
#[derive(Debug)]
pub enum CallStep {
    WriteRequest,
    /// To connect again after [`PIPE_RETRY_DELAY_MS`].
    Reconnect,
    ReadResponse,
    Done(Result<Vec<u8>, IoError>),
}

/// What a [`CallStep`] says.
pub enum CallStepView {
    WriteRequest,
    Reconnect,
    ReadResponse,
    Done(Result<Seq<u8>, IoErrorView>),
}

impl View for CallStep {
    type V = CallStepView;

    open spec fn view(&self) -> CallStepView {
        match *self {
            CallStep::WriteRequest => CallStepView::WriteRequest,
            CallStep::Reconnect => CallStepView::Reconnect,
            CallStep::ReadResponse => CallStepView::ReadResponse,
            CallStep::Done(result) => CallStepView::Done(message_result(result)),
        }
    }
}

/// What a call does next.
pub open spec fn called(event: CallEventView, expired: bool) -> CallStepView {
    match event {
        CallEventView::Connected => CallStepView::WriteRequest,
        CallEventView::ConnectFailed(error) | CallEventView::WriteFailed(error) => {
            if transient(error) && !expired {
                CallStepView::Reconnect
            } else {
                CallStepView::Done(Err(error))
            }
        },
        CallEventView::WriteTimedOut => CallStepView::Done(
            Err(crate::errors::raised(IoKind::TimedOut, "写入本地 Agent 请求超时"@)),
        ),
        CallEventView::Written => CallStepView::ReadResponse,
        CallEventView::Answered(Ok(payload)) => CallStepView::Done(message_of(payload)),
        CallEventView::Answered(Err(error)) => CallStepView::Done(Err(error)),
        CallEventView::ReadTimedOut => CallStepView::Done(
            Err(crate::errors::raised(IoKind::TimedOut, "等待本地 Agent 响应超时"@)),
        ),
    }
}

/// What a call does next. A client that finds no waiting instance, or loses the one it found before
/// its request is written, connects again until its time has expired.
pub fn call_pipe(event: CallEvent, expired: bool) -> (step: CallStep)
    ensures
        step@ == called(event@, expired),
{
    match event {
        CallEvent::Connected => CallStep::WriteRequest,
        CallEvent::ConnectFailed(error) => retry_or_fail(error, expired),
        CallEvent::WriteFailed(error) => retry_or_fail(error, expired),
        CallEvent::WriteTimedOut => CallStep::Done(
            Err(IoError::new(IoKind::TimedOut, "写入本地 Agent 请求超时")),
        ),
        CallEvent::Written => CallStep::ReadResponse,
        CallEvent::Answered(Ok(payload)) => CallStep::Done(read_frame(payload)),
        CallEvent::Answered(Err(error)) => CallStep::Done(Err(error)),
        CallEvent::ReadTimedOut => CallStep::Done(
            Err(IoError::new(IoKind::TimedOut, "等待本地 Agent 响应超时")),
        ),
    }
}

fn retry_or_fail(error: IoError, expired: bool) -> (step: CallStep)
    ensures
        step@ == (if transient(error@) && !expired {
            CallStepView::Reconnect
        } else {
            CallStepView::Done(Err(error@))
        }),
{
    if is_transient_connection_error(&error) && !expired {
        CallStep::Reconnect
    } else {
        CallStep::Done(Err(error))
    }
}

/// A call is tried again only before its time has expired, so it ends.
pub proof fn law_expired_call_is_not_tried_again(event: CallEventView)
    ensures
        !(called(event, true) is Reconnect),
{
}

// ---------------------------------------------------------------------------
// A connection
// ---------------------------------------------------------------------------

/// What happens on a connection of the service.
#[derive(Debug)]
pub enum ConnectionEvent {
    /// A request was read, or could not be read.
    Request(Result<Vec<u8>, IoError>),
    /// No request was read in time.
    RequestTimedOut,
    /// The response was written, or could not be written.
    Written(Result<(), IoError>),
    /// The response was not written in time.
    WriteTimedOut,
}

/// What a connection does next.
#[derive(Debug)]
pub enum ConnectionStep {
    /// The request is to be carried out, and its response written.
    CarryOut(Vec<u8>),
    /// The response is to be written, and the service stopped once it is.
    AnswerAndStop(String),
    /// The connection is over; `stop` says whether the service is to stop.
    Close { result: Result<(), IoError>, stop: bool },
}

/// What a [`ConnectionStep`] says.
pub enum ConnectionStepView {
    CarryOut(Seq<u8>),
    AnswerAndStop(Seq<char>),
    Close { result: Result<(), IoErrorView>, stop: bool },
}

impl View for ConnectionStep {
    type V = ConnectionStepView;

    open spec fn view(&self) -> ConnectionStepView {
        match *self {
            ConnectionStep::CarryOut(request) => ConnectionStepView::CarryOut(request@),
            ConnectionStep::AnswerAndStop(response) => ConnectionStepView::AnswerAndStop(
                response@,
            ),
            ConnectionStep::Close { result, stop } => ConnectionStepView::Close {
                result: crate::volume::io_view(result),
                stop,
            },
        }
    }
}

/// Whether a request asks the service to stop.
pub open spec fn asks_to_stop(request: Seq<u8>) -> bool {
    crate::rpc::member_text(request, "jsonrpc"@) == Some("2.0"@) && crate::rpc::member_text(
        request,
        "method"@,
    ) == Some("app.shutdown"@)
}

/// What a connection does next. `controlled` says whether clients may stop the service, and
/// `stopping` whether the response that was to be written is the one to a request to stop.
pub open spec fn served(
    event: ConnectionEvent,
    controlled: bool,
    stopping: bool,
) -> ConnectionStepView {
    match event {
        ConnectionEvent::Request(Ok(payload)) => match message_of(payload@) {
            Err(error) => ConnectionStepView::Close { result: Err(error), stop: false },
            Ok(request) => {
                if controlled && asks_to_stop(request) {
                    ConnectionStepView::AnswerAndStop(
                        crate::rpc::result_json(
                            crate::rpc::or_null(crate::json::json_member(request, "id"@)),
                            "{\"stopping\":true}"@,
                        ),
                    )
                } else {
                    ConnectionStepView::CarryOut(request)
                }
            },
        },
        ConnectionEvent::Request(Err(error)) => ConnectionStepView::Close {
            result: Err(error@),
            stop: false,
        },
        ConnectionEvent::RequestTimedOut => ConnectionStepView::Close {
            result: Err(crate::errors::raised(IoKind::TimedOut, "等待本地 Agent 请求超时"@)),
            stop: false,
        },
        ConnectionEvent::Written(result) => ConnectionStepView::Close {
            result: crate::volume::io_view(result),
            stop: stopping && result is Ok,
        },
        ConnectionEvent::WriteTimedOut => ConnectionStepView::Close {
            result: Err(crate::errors::raised(IoKind::TimedOut, "写回本地 Agent 响应超时"@)),
            stop: false,
        },
    }
}

/// What a connection does next. The service stops only after the response to the request to stop
/// has been written.
pub fn serve_connection(event: ConnectionEvent, controlled: bool, stopping: bool) -> (step:
    ConnectionStep)
    ensures
        step@ == served(event, controlled, stopping),
{
    match event {
        ConnectionEvent::Request(Ok(payload)) => match read_frame(payload) {
            Err(error) => ConnectionStep::Close { result: Err(error), stop: false },
            Ok(request) => {
                if controlled && is_shutdown_request(request.as_slice()) {
                    ConnectionStep::AnswerAndStop(shutdown_response(request.as_slice()))
                } else {
                    ConnectionStep::CarryOut(request)
                }
            },
        },
        ConnectionEvent::Request(Err(error)) => ConnectionStep::Close {
            result: Err(error),
            stop: false,
        },
        ConnectionEvent::RequestTimedOut => ConnectionStep::Close {
            result: Err(IoError::new(IoKind::TimedOut, "等待本地 Agent 请求超时")),
            stop: false,
        },
        ConnectionEvent::Written(result) => {
            let stop: bool = stopping && result.is_ok();
            ConnectionStep::Close { result, stop }
        },
        ConnectionEvent::WriteTimedOut => ConnectionStep::Close {
            result: Err(IoError::new(IoKind::TimedOut, "写回本地 Agent 响应超时")),
            stop: false,
        },
    }
}

/// A service that clients may not stop carries out every request that can be read, and never stops
/// for one.
pub proof fn law_uncontrolled_service_is_not_stopped(event: ConnectionEvent)
    ensures
        !(served(event, false, false) is AnswerAndStop),
        served(event, false, false) matches ConnectionStepView::Close { stop, .. } ==> !stop,
{
}

// ---------------------------------------------------------------------------
// The service
// ---------------------------------------------------------------------------

/// What happens to the service.
#[derive(Debug)]
pub enum ServiceEvent {
    /// The service comes back to its beginning; `stop` is what it was last told.
    Idle { stop: bool },
    /// There is room for another connection; none is left where the slots were closed.
    Slot { open: bool },
    /// A client has connected, or its connection failed.
    Connected(Result<(), IoError>),
    /// The service was told something; `gone` says that nobody can tell it anything any more.
    Told { gone: bool, stop: bool },
}

/// What the service does next.
#[derive(Debug)]
pub enum ServiceStep {
    /// To wait for room for another connection, or to be told something.
    AwaitSlot,
    /// To wait for a client, or to be told something.
    AwaitClient,
    /// To make the next instance, and then serve the client.
    Serve,
    /// To begin again.
    Again,
    /// To wait for the connections that are still served, and end.
    Drain,
    Failed(IoError),
}

/// What the service does next.
pub fn serve_pipe(event: ServiceEvent) -> (step: ServiceStep)
    ensures
        match event {
            ServiceEvent::Idle { stop } => if stop {
                step is Drain
            } else {
                step is AwaitSlot
            },
            ServiceEvent::Slot { open } => if open {
                step is AwaitClient
            } else {
                step matches ServiceStep::Failed(error) && error@ == crate::errors::raised(
                    IoKind::Other,
                    "本地 Agent 连接槽已关闭"@,
                )
            },
            ServiceEvent::Connected(Ok(_)) => step is Serve,
            ServiceEvent::Connected(Err(error)) => step == ServiceStep::Failed(error),
            ServiceEvent::Told { gone, stop } => if gone || stop {
                step is Drain
            } else {
                step is Again
            },
        },
{
    match event {
        ServiceEvent::Idle { stop } => {
            if stop {
                ServiceStep::Drain
            } else {
                ServiceStep::AwaitSlot
            }
        },
        ServiceEvent::Slot { open } => {
            if open {
                ServiceStep::AwaitClient
            } else {
                ServiceStep::Failed(IoError::new(IoKind::Other, "本地 Agent 连接槽已关闭"))
            }
        },
        ServiceEvent::Connected(Ok(_)) => ServiceStep::Serve,
        ServiceEvent::Connected(Err(error)) => ServiceStep::Failed(error),
        ServiceEvent::Told { gone, stop } => {
            if gone || stop {
                ServiceStep::Drain
            } else {
                ServiceStep::Again
            }
        },
    }
}

} // verus!

//! What holds of requests, responses and what a volume answers.
use crate::errors::{IoError, IoErrorView, SearchErrorView};
use crate::index::IndexView;
use crate::mcp::{HostEvent, HostStage, HostStepView};
use crate::pipe::{
    CallEventView, CallStepView, ConnectionEvent, ConnectionStepView, InstanceStep, ServiceEvent,
    ServiceStep,
};
use crate::rpc::{RpcCall, RpcMethod, SearchParams};
use crate::volume::{
    DeltaView, JournalErrorView, JournalInfo, JournalScan, JournalScanView, JournalStepView,
    SnapshotScan, SnapshotScanView, SnapshotStepView,
};
use vstd::prelude::*;

verus! {

// ---------------------------------------------------------------------------
// Remote calls
// ---------------------------------------------------------------------------

/// Each method has one name.
pub proof fn law_each_method_has_one_name(name: Seq<char>)
    ensures
        crate::rpc::method_named(name) == Some(RpcMethod::Status) <==> name == "status.get"@,
        crate::rpc::method_named(name) == Some(RpcMethod::ListRoots) <==> name
            == "index.list_roots"@,
        crate::rpc::method_named(name) == Some(RpcMethod::Search) <==> name == "search.query"@,
        crate::rpc::method_named(name) == Some(RpcMethod::ScanRoot) <==> name == "index.scan_root"@,
        crate::rpc::method_named(name) == Some(RpcMethod::RemoveRoot) <==> name
            == "index.remove_root"@,
        crate::rpc::method_named(name) == Some(RpcMethod::ScanVolume) <==> name
            == "index.scan_volume"@,
        crate::rpc::method_named(name) == Some(RpcMethod::SyncVolume) <==> name
            == "index.sync_volume"@,
        crate::rpc::method_named(name) == Some(RpcMethod::SyncAllVolumes) <==> name
            == "index.sync_all_volumes"@,
{
    reveal_strlit("status.get");
    reveal_strlit("index.list_roots");
    reveal_strlit("search.query");
    reveal_strlit("index.scan_root");
    reveal_strlit("index.remove_root");
    reveal_strlit("index.scan_volume");
    reveal_strlit("index.sync_volume");
    reveal_strlit("index.sync_all_volumes");
    assert("status.get"@.len() == 10);
    assert("index.list_roots"@.len() == 16);
    assert("search.query"@.len() == 12);
    assert("index.scan_root"@.len() == 15);
    assert("index.remove_root"@[6] == 'r');
    assert("index.scan_volume"@[6] == 's' && "index.scan_volume"@[7] == 'c');
    assert("index.sync_volume"@[6] == 's' && "index.sync_volume"@[7] == 'y');
    assert("index.sync_all_volumes"@.len() == 22);
}

/// A text of three parts starts with the first, has the second in it and ends with the third.
proof fn lemma_three_parts(head: Seq<char>, middle: Seq<char>, tail: Seq<char>)
    ensures
        crate::text::starts_with(head + middle + tail, head),
        crate::text::contains(head + middle + tail, middle),
        crate::text::ends_with(head + middle + tail, tail),
{
    let whole = head + middle + tail;
    assert(whole.subrange(0, head.len() as int) =~= head);
    let at = head.len() as int;
    assert(whole.subrange(at, at + middle.len()) =~= middle);
    assert(crate::text::occurs_at(whole, middle, at));
    assert(whole.subrange(whole.len() - tail.len(), whole.len() as int) =~= tail);
}

/// A response that succeeded begins with the id of the request and ends with the result.
pub proof fn law_response_has_the_id_and_the_result(id: Seq<char>, result: Seq<char>)
    ensures
        crate::text::starts_with(crate::rpc::result_json(id, result), "{\"id\":"@ + id),
        crate::text::ends_with(
            crate::rpc::result_json(id, result),
            ",\"result\":"@ + result + "}"@,
        ),
{
    reveal_strlit(",\"jsonrpc\":\"2.0\",\"result\":");
    reveal_strlit(",\"jsonrpc\":\"2.0\"");
    reveal_strlit(",\"result\":");
    let head = "{\"id\":"@ + id;
    let middle = ",\"jsonrpc\":\"2.0\""@;
    let tail = ",\"result\":"@ + result + "}"@;
    assert(",\"jsonrpc\":\"2.0\",\"result\":"@ =~= middle + ",\"result\":"@);
    assert(crate::rpc::result_json(id, result) =~= head + middle + tail);
    lemma_three_parts(head, middle, tail);
}

/// A response that failed begins with the code of the error, has its message, and ends with the id
/// of the request.
pub proof fn law_response_has_the_code_and_the_message(
    id: Seq<char>,
    code: int,
    message: Seq<char>,
)
    ensures
        crate::text::starts_with(
            crate::rpc::error_json(id, code, message),
            "{\"error\":{\"code\":"@ + crate::text::signed_decimal(code),
        ),
        crate::text::contains(
            crate::rpc::error_json(id, code, message),
            ",\"message\":"@ + crate::json::json_quoted(message),
        ),
        crate::text::ends_with(
            crate::rpc::error_json(id, code, message),
            "},\"id\":"@ + id + ",\"jsonrpc\":\"2.0\"}"@,
        ),
{
    let head = "{\"error\":{\"code\":"@ + crate::text::signed_decimal(code);
    let middle = ",\"message\":"@ + crate::json::json_quoted(message);
    let tail = "},\"id\":"@ + id + ",\"jsonrpc\":\"2.0\"}"@;
    assert(crate::rpc::error_json(id, code, message) =~= head + middle + tail);
    lemma_three_parts(head, middle, tail);
}

/// What was carried out is answered with its result, and what failed with the error's wording under
/// the code for failed operations.
pub proof fn law_outcomes_are_answered(id: Seq<char>, result: Seq<char>, error: SearchErrorView)
    ensures
        crate::rpc::outcome_json(id, Ok(result)) == crate::rpc::result_json(id, result),
        crate::rpc::outcome_json(id, Err(error)) == crate::rpc::error_json(
            id,
            -32000,
            error.wording(),
        ),
{
}

/// A search without a limit asks for fifty results; its words and its boundary are those of the
/// request.
pub proof fn law_search_asks_for_what_the_request_says(params: SearchParams)
    ensures
        ({
            let request = crate::rpc::params_request(params);
            &&& request.query == params.query@
            &&& params.limit is None ==> request.limit == 50
            &&& params.limit matches Some(limit) ==> request.limit == limit
            &&& (request.root is None) == (params.root is None)
            &&& params.root matches Some(root) ==> request.root == Some(root@)
        }),
{
}

/// Removing a root takes that root out of the index and nothing else, and says whether it was
/// there. A root may be given with slashes or with backslashes.
pub proof fn law_removal_is_told(
    index: IndexView,
    root: String,
    stored: Seq<char>,
    outcome: Result<Seq<char>, SearchErrorView>,
    name: Seq<char>,
)
    requires
        crate::rpc::is_outcome(index, RpcCall::RemoveRoot(Ok(root)), outcome),
        stored.len() == root@.len(),
        forall|i: int|
            0 <= i < stored.len() ==> #[trigger] stored[i] == if root@[i] == '\\' {
                '/'
            } else {
                root@[i]
            },
    ensures
        outcome == Ok::<Seq<char>, SearchErrorView>(
            if index.roots.contains_key(stored) {
                "{\"removed\":true}"@
            } else {
                "{\"removed\":false}"@
            },
        ),
        ({
            let after = crate::rpc::index_after(index, RpcCall::RemoveRoot(Ok(root)));
            &&& after.roots.contains_key(name) <==> index.roots.contains_key(name) && name != stored
            &&& name != stored ==> after.roots[name] == index.roots[name]
            &&& after.last_generation == index.last_generation
        }),
{
    assert(crate::paths::storage_path(root@) =~= stored);
    reveal_strlit("{\"removed\":");
    reveal_strlit("true");
    reveal_strlit("false");
    reveal_strlit("}");
    reveal_strlit("{\"removed\":true}");
    reveal_strlit("{\"removed\":false}");
    assert("{\"removed\":"@ + "true"@ + "}"@ =~= "{\"removed\":true}"@);
    assert("{\"removed\":"@ + "false"@ + "}"@ =~= "{\"removed\":false}"@);
}

/// A failed call is answered with its own error, and leaves the index as it was.
pub proof fn law_failed_calls_change_nothing(
    index: IndexView,
    error: crate::errors::SearchError,
    outcome: Result<Seq<char>, SearchErrorView>,
)
    ensures
        crate::rpc::is_outcome(index, RpcCall::Search(Err(error)), outcome) <==> outcome == Err::<
            Seq<char>,
            SearchErrorView,
        >(error@),
        crate::rpc::is_outcome(index, RpcCall::Report(Err(error)), outcome) <==> outcome == Err::<
            Seq<char>,
            SearchErrorView,
        >(error@),
        crate::rpc::is_outcome(index, RpcCall::Reports(Err(error)), outcome) <==> outcome == Err::<
            Seq<char>,
            SearchErrorView,
        >(error@),
        crate::rpc::is_outcome(index, RpcCall::RemoveRoot(Err(error)), outcome) <==> outcome
            == Err::<Seq<char>, SearchErrorView>(error@),
        crate::rpc::index_after(index, RpcCall::RemoveRoot(Err(error))) == index,
        crate::rpc::index_after(index, RpcCall::Search(Err(error))) == index,
{
}

/// The results of a search are told in the order in which they come, all of them.
pub proof fn law_results_are_told_in_their_order(
    index: IndexView,
    params: SearchParams,
    outcome: Result<Seq<char>, SearchErrorView>,
)
    requires
        crate::rpc::is_outcome(index, RpcCall::Search(Ok(params)), outcome),
    ensures
        params.query@.len() > 512 <==> outcome == Err::<Seq<char>, SearchErrorView>(
            SearchErrorView::QueryTooLong,
        ),
        outcome matches Ok(text) ==> exists|items: Seq<crate::search::ItemView>|
            index.answers(
                crate::rpc::params_request(params),
                crate::normalize::normalized(params.query@),
                Ok(items),
            ) && text == #[trigger] crate::json::items_json(items),
{
    let result = choose|result: Result<Seq<crate::search::ItemView>, SearchErrorView>|
        #[trigger] index.answers(
            crate::rpc::params_request(params),
            crate::normalize::normalized(params.query@),
            result,
        ) && outcome == match result {
            Ok(items) => Ok::<Seq<char>, SearchErrorView>(crate::json::items_json(items)),
            Err(error) => Err(error),
        };
    crate::result_laws::law_requests_are_answered_within_their_limits(
        index,
        crate::rpc::params_request(params),
        crate::normalize::normalized(params.query@),
        result,
    );
}

// ---------------------------------------------------------------------------
// Calls of agents
// ---------------------------------------------------------------------------

/// An agent gets between one and two hundred results, fifty where it does not say how many, and as
/// many as it says in between.
pub proof fn law_agents_get_at_most_two_hundred_results(limit: usize)
    ensures
        crate::mcp::agent_limit(None) == 50,
        1 <= crate::mcp::agent_limit(Some(limit)) <= 200,
        1 <= limit <= 200 ==> crate::mcp::agent_limit(Some(limit)) == limit,
        limit > 200 ==> crate::mcp::agent_limit(Some(limit)) == 200,
        limit == 0 ==> crate::mcp::agent_limit(Some(limit)) == 1,
{
}

/// The request of an agent names its method, carries its parameters as they are, and is known by
/// the method again.
pub proof fn law_request_names_its_method(method: Seq<char>, params: Seq<char>)
    ensures
        crate::text::starts_with(
            crate::mcp::request_json(method, params),
            "{\"id\":"@ + crate::json::json_quoted("mcp-"@ + method),
        ),
        crate::text::contains(
            crate::mcp::request_json(method, params),
            ",\"jsonrpc\":\"2.0\",\"method\":"@ + crate::json::json_quoted(method),
        ),
        crate::text::ends_with(
            crate::mcp::request_json(method, params),
            ",\"params\":"@ + params + "}"@,
        ),
{
    let head = "{\"id\":"@ + crate::json::json_quoted("mcp-"@ + method);
    let middle = ",\"jsonrpc\":\"2.0\",\"method\":"@ + crate::json::json_quoted(method);
    let tail = ",\"params\":"@ + params + "}"@;
    assert(crate::mcp::request_json(method, params) =~= head + middle + tail);
    lemma_three_parts(head, middle, tail);
}

/// What an agent searches for is told with the number of results that it gets, its words and its
/// boundary.
pub proof fn law_search_of_an_agent_is_told(
    query: Seq<char>,
    limit: Option<usize>,
    root: Option<Seq<char>>,
)
    ensures
        crate::text::starts_with(
            crate::mcp::search_params_json(query, limit, root),
            "{\"limit\":"@ + crate::text::decimal(crate::mcp::agent_limit(limit)),
        ),
        crate::text::contains(
            crate::mcp::search_params_json(query, limit, root),
            ",\"query\":"@ + crate::json::json_quoted(query),
        ),
        root matches Some(boundary) ==> crate::text::ends_with(
            crate::mcp::search_params_json(query, limit, root),
            ",\"root\":"@ + crate::json::json_quoted(boundary) + "}"@,
        ),
        root is None ==> crate::text::ends_with(
            crate::mcp::search_params_json(query, limit, root),
            ",\"root\":"@ + "null"@ + "}"@,
        ),
{
    let head = "{\"limit\":"@ + crate::text::decimal(crate::mcp::agent_limit(limit));
    let middle = ",\"query\":"@ + crate::json::json_quoted(query);
    let tail = ",\"root\":"@ + crate::json::optional_text_json(root) + "}"@;
    assert(crate::mcp::search_params_json(query, limit, root) =~= head + middle + tail);
    lemma_three_parts(head, middle, tail);
}

/// An error in a response counts, whatever result stands beside it; a result without an error is
/// handed on as it is.
pub proof fn law_error_counts_before_result(
    error: Seq<char>,
    result: Option<Seq<char>>,
    value: Seq<char>,
)
    ensures
        crate::mcp::extracted(Some(error), result) matches Err(message) && crate::text::ends_with(
            message,
            error,
        ),
        crate::mcp::extracted(None, Some(value)) == Ok::<Seq<char>, Seq<char>>(value),
        crate::mcp::extracted(None, None) is Err,
{
    let message = "金福搜索返回错误："@ + error;
    assert(message.subrange(message.len() - error.len(), message.len() as int) =~= error);
}

/// An answer says at its end whether it succeeded.
pub proof fn law_answers_say_whether_they_succeeded(value: Seq<char>, error: Seq<char>)
    ensures
        crate::text::ends_with(crate::mcp::answer_json(Ok(value)), value + ",\"ok\":true}"@),
        crate::text::starts_with(crate::mcp::answer_json(Ok(value)), "{\"data\":"@ + value),
        crate::text::ends_with(
            crate::mcp::answer_json(Err(error)),
            crate::json::json_quoted(error) + ",\"ok\":false}"@,
        ),
        crate::text::starts_with(
            crate::mcp::answer_json(Err(error)),
            "{\"error\":"@ + crate::json::json_quoted(error),
        ),
{
    let good = crate::mcp::answer_json(Ok(value));
    let bad = crate::mcp::answer_json(Err(error));
    let quoted = crate::json::json_quoted(error);
    let tail = value + ",\"ok\":true}"@;
    let other_tail = quoted + ",\"ok\":false}"@;
    assert(good.subrange(good.len() - tail.len(), good.len() as int) =~= tail);
    assert(bad.subrange(bad.len() - other_tail.len(), bad.len() as int) =~= other_tail);
    let head = "{\"data\":"@ + value;
    let other_head = "{\"error\":"@ + quoted;
    assert(good.subrange(0, head.len() as int) =~= head);
    assert(bad.subrange(0, other_head.len() as int) =~= other_head);
}

/// The service is started only after it could not be reached twice, and an answer ends every stage.
pub proof fn law_service_is_started_once(stage: HostStage, response: Vec<u8>, error: String)
    ensures
        crate::mcp::host_after(HostStage::First, HostEvent::Unreachable) == (
            HostStage::Locked,
            HostStepView::CallAlone,
        ),
        crate::mcp::host_after(HostStage::Locked, HostEvent::Unreachable) == (
            HostStage::Starting,
            HostStepView::StartHost,
        ),
        crate::mcp::host_after(stage, HostEvent::Unreachable).1 is StartHost ==> stage is Locked,
        crate::mcp::host_after(stage, HostEvent::Started(Ok(()))) == (
            HostStage::Waiting { left: 20 },
            HostStepView::CallLater,
        ),
        crate::mcp::host_after(stage, HostEvent::Started(Err(error))).1 == HostStepView::Done(
            Err(error@),
        ),
        crate::mcp::host_after(stage, HostEvent::Answered(response)).1 is Done,
{
}

// ---------------------------------------------------------------------------
// Pipes
// ---------------------------------------------------------------------------

/// A message has at least one byte and at most 1 MiB.
pub proof fn law_which_messages_are_framed(length: int)
    ensures
        crate::pipe::frame_size_allowed(length) <==> 1 <= length <= 1024 * 1024,
{
}

/// A connection that could not be made is tried again exactly if the pipe is not there yet, is busy
/// or has nobody at its other end, and there is time left.
pub proof fn law_which_connections_are_tried_again(error: IoErrorView, expired: bool)
    ensures
        ({
            let soon = error.kind is NotFound || error.code == Some(231i32) || error.code == Some(
                233i32,
            );
            let failed = CallStepView::Done(Err(error));
            &&& crate::pipe::called(CallEventView::ConnectFailed(error), expired) == (if soon
                && !expired {
                CallStepView::Reconnect
            } else {
                failed
            })
            &&& crate::pipe::called(CallEventView::WriteFailed(error), expired) == (if soon
                && !expired {
                CallStepView::Reconnect
            } else {
                failed
            })
            &&& crate::pipe::called(CallEventView::Answered(Err(error)), expired) == failed
        }),
{
}

/// A request is written, then its answer read; running out of time ends the call.
pub proof fn law_calls_take_their_course(expired: bool)
    ensures
        crate::pipe::called(CallEventView::Connected, expired) is WriteRequest,
        crate::pipe::called(CallEventView::Written, expired) is ReadResponse,
        crate::pipe::called(CallEventView::WriteTimedOut, expired) matches CallStepView::Done(
            Err(error),
        ) && error.kind is TimedOut,
        crate::pipe::called(CallEventView::ReadTimedOut, expired) matches CallStepView::Done(
            Err(error),
        ) && error.kind is TimedOut,
{
}

/// Where the first instance of a pipe is refused because another holds it, the error says so; every
/// other error stays as it is.
pub proof fn law_taken_pipe_is_told(name: Seq<char>, error: IoErrorView)
    ensures
        error.code == Some(231i32) || error.code == Some(5i32)
            ==> crate::pipe::first_instance_failure(name, error).kind is AddrInUse
            && crate::text::contains(crate::pipe::first_instance_failure(name, error).message, name),
        error.code != Some(231i32) && error.code != Some(5i32)
            ==> crate::pipe::first_instance_failure(name, error) == error,
{
    let front = "本地 Agent 管道已被占用："@;
    let behind = "；请确认现有服务，或传入随机 --pipe"@;
    crate::text_laws::law_part_has_something_around_it(front + name + behind, name);
}

/// A pipe's name is a single name behind the prefix of local pipes.
pub proof fn law_which_pipe_names_are_local(name: Seq<char>)
    ensures
        crate::pipe::name_problem(crate::pipe::pipe_prefix() + name) is None
            <==> crate::paths::valid_component(name),
        !crate::text::starts_with(name, crate::pipe::pipe_prefix()) ==> crate::pipe::name_problem(
            name,
        ) is Some,
        crate::pipe::pipe_prefix() == seq!['\\', '\\', '.', '\\', 'p', 'i', 'p', 'e', '\\'],
{
    let prefix = crate::pipe::pipe_prefix();
    let whole = prefix + name;
    assert(whole.subrange(0, prefix.len() as int) =~= prefix);
    assert(whole.skip(prefix.len() as int) =~= name);
    reveal_strlit(r"\\.\pipe\");
    assert(prefix =~= seq!['\\', '\\', '.', '\\', 'p', 'i', 'p', 'e', '\\']);
}

// ---------------------------------------------------------------------------
// Volumes
// ---------------------------------------------------------------------------

/// The journal is read from what the system answers: its number in the first eight bytes, then its
/// first position and then its next.
pub proof fn law_journal_is_read_back(journal: JournalInfo, rest: Seq<u8>)
    requires
        rest.len() >= 32,
    ensures
        crate::volume::journal_of(
            crate::bytes::le_bytes(journal.journal_id as nat, 8) + crate::bytes::le_bytes(
                crate::bytes::unsigned64(journal.first_usn) as nat,
                8,
            ) + crate::bytes::le_bytes(crate::bytes::unsigned64(journal.next_usn) as nat, 8) + rest,
        ) == Ok::<JournalInfo, IoErrorView>(journal),
{
    let id = crate::bytes::le_bytes(journal.journal_id as nat, 8);
    let first = crate::bytes::le_bytes(crate::bytes::unsigned64(journal.first_usn) as nat, 8);
    let next = crate::bytes::le_bytes(crate::bytes::unsigned64(journal.next_usn) as nat, 8);
    crate::bytes::lemma_le_bytes_len(journal.journal_id as nat, 8);
    crate::bytes::lemma_le_bytes_len(crate::bytes::unsigned64(journal.first_usn) as nat, 8);
    crate::bytes::lemma_le_bytes_len(crate::bytes::unsigned64(journal.next_usn) as nat, 8);
    let bytes = id + first + next + rest;
    assert(bytes.subrange(0, 8) =~= id);
    assert(bytes.subrange(8, 16) =~= first);
    assert(bytes.subrange(16, 24) =~= next);
    crate::bytes::law_le64_gives_back_what_le_bytes_wrote(bytes, 0, journal.journal_id);
    crate::bytes::law_le64_gives_back_what_le_bytes_wrote(
        bytes,
        8,
        crate::bytes::unsigned64(journal.first_usn),
    );
    crate::bytes::law_le64_gives_back_what_le_bytes_wrote(
        bytes,
        16,
        crate::bytes::unsigned64(journal.next_usn),
    );
    crate::bytes::law_signed_numbers_are_read_back(journal.first_usn, 0);
    crate::bytes::law_signed_numbers_are_read_back(journal.next_usn, 0);
}

/// A journal is read on from a position exactly if it is still the same journal and still holds
/// that position.
pub proof fn law_which_journals_are_read_on(
    volume: char,
    expected: u64,
    start: i64,
    journal: JournalInfo,
    error: IoErrorView,
)
    requires
        'A' <= volume <= 'Z' || 'a' <= volume <= 'z',
    ensures
        crate::volume::journal_begun(volume, expected, start, Ok(journal)) is Ok
            <==> journal.journal_id == expected && journal.first_usn <= start,
        crate::volume::journal_begun(volume, expected, start, Ok(journal)) is Err
            ==> crate::volume::journal_begun(volume, expected, start, Ok(journal)) == Err::<
            JournalScanView,
            JournalErrorView,
        >(JournalErrorView::Reset),
        crate::volume::journal_begun(volume, expected, start, Ok(journal)) matches Ok(scan) ==> {
            &&& scan.journal == journal
            &&& scan.start_usn == start
            &&& scan.records.len() == 0
            &&& scan.batches_left == 128
        },
        crate::volume::journal_begun(volume, expected, start, Err(error)) == Err::<
            JournalScanView,
            JournalErrorView,
        >(JournalErrorView::Io(error)),
{
}

/// Each reply of the journal adds its records behind those that were read before and names the next
/// position. Reading ends where the position does not move on, has reached the end of the journal,
/// or as many batches were read as one synchronisation may.
pub proof fn law_journal_replies_add_up(
    scan: JournalScanView,
    next: i64,
    records: Seq<crate::ntfs::RecordView>,
    bytes: Seq<u8>,
)
    requires
        bytes.len() >= 8,
        bytes.subrange(0, 8) == crate::bytes::le_bytes(crate::bytes::unsigned64(next) as nat, 8),
        crate::ntfs::parsed(bytes) == Ok::<
            Seq<crate::ntfs::RecordView>,
            crate::ntfs::NtfsErrorView,
        >(records),
    ensures
        ({
            let over = next == scan.start_usn || next >= scan.journal.next_usn || scan.batches_left
                <= 1;
            let step = scan.after(Ok(bytes));
            &&& over ==> step == JournalStepView::Done(
                DeltaView {
                    journal: scan.journal,
                    next_usn: next,
                    records: scan.records + records,
                },
            )
            &&& !over ==> (step matches JournalStepView::Continue(later) && later.journal
                == scan.journal && later.start_usn == next && later.records == scan.records
                + records && later.batches_left == scan.batches_left - 1)
        }),
{
    crate::bytes::law_le64_gives_back_what_le_bytes_wrote(
        bytes,
        0,
        crate::bytes::unsigned64(next),
    );
    crate::bytes::law_signed_numbers_are_read_back(next, 0);
}

/// Each reply of the table adds its records behind those that were read before and names where to
/// read on. Reading ends with a reply without records or with the end of the table; then the
/// snapshot has all that was read, and the journal as it was before.
pub proof fn law_table_replies_add_up(
    scan: SnapshotScanView,
    next: u64,
    records: Seq<crate::ntfs::RecordView>,
    bytes: Seq<u8>,
    error: IoErrorView,
)
    requires
        bytes.len() >= 8,
        bytes.subrange(0, 8) == crate::bytes::le_bytes(next as nat, 8),
        crate::ntfs::parsed(bytes) == Ok::<
            Seq<crate::ntfs::RecordView>,
            crate::ntfs::NtfsErrorView,
        >(records),
    ensures
        ({
            let step = scan.after(Ok(bytes));
            let ended = scan.after(Err(error));
            &&& records.len() > 0 && next != scan.start ==> (
            step matches SnapshotStepView::Continue(later) && later.volume == scan.volume
                && later.journal == scan.journal && later.start == next && later.records
                == scan.records + records)
            &&& records.len() > 0 && next == scan.start ==> step is Failed
            &&& records.len() == 0 ==> (step matches SnapshotStepView::Done(snapshot)
                && snapshot.volume == scan.volume && snapshot.records == scan.records)
            &&& error.code == Some(38i32) ==> (ended matches SnapshotStepView::Done(snapshot)
                && snapshot.volume == scan.volume && snapshot.records == scan.records)
            &&& error.code != Some(38i32) ==> ended == SnapshotStepView::Failed(error)
            &&& ended matches SnapshotStepView::Done(snapshot) ==> match scan.journal {
                Some(journal) => snapshot.journal_id == journal.journal_id && snapshot.next_usn
                    == journal.next_usn,
                None => snapshot.journal_id == 0,
            }
        }),
{
    crate::bytes::law_le64_gives_back_what_le_bytes_wrote(bytes, 0, next);
}

/// A snapshot of a volume begins at its start, with the volume's letter in upper case; without an
/// active journal it goes on without one, and every other failure ends it.
pub proof fn law_snapshots_begin_at_the_start(
    volume: char,
    journal: JournalInfo,
    error: IoErrorView,
)
    requires
        'A' <= volume <= 'Z' || 'a' <= volume <= 'z',
    ensures
        ({
            let begun = crate::volume::snapshot_begun(volume, Ok(journal));
            let without = crate::volume::snapshot_begun(volume, Err(error));
            &&& begun matches Ok(scan) && scan.journal == Some(journal) && scan.start == 0
                && scan.records.len() == 0 && scan.volume == crate::text::ascii_upper(volume)
                && scan.high_usn() == journal.next_usn
            &&& error.code == Some(1179i32) ==> (without matches Ok(scan) && scan.journal is None
                && scan.start == 0 && scan.records.len() == 0 && scan.volume
                == crate::text::ascii_upper(volume) && scan.high_usn() == 0x7fff_ffff_ffff_ffff)
            &&& error.code != Some(1179i32) ==> without == Err::<SnapshotScanView, IoErrorView>(
                error,
            )
        }),
{
}

/// Only a letter names a volume.
pub proof fn law_only_letters_name_volumes(
    volume: char,
    journal: JournalInfo,
    expected: u64,
    start: i64,
    bytes: Seq<u8>,
)
    requires
        !('A' <= volume <= 'Z' || 'a' <= volume <= 'z'),
    ensures
        crate::volume::snapshot_begun(volume, Ok(journal)) matches Err(error) && error.kind
            is InvalidInput,
        crate::volume::journal_begun(volume, expected, start, Ok(journal)) matches Err(
            JournalErrorView::Io(error),
        ) && error.kind is InvalidInput,
        crate::volume::probed(volume, Ok(journal), Ok(bytes)) matches Err(error) && error.kind
            is InvalidInput,
{
}

/// A probe says of a volume its letter in upper case, its journal, and how many records the first
/// batch has.
pub proof fn law_probe_says_what_was_read(
    volume: char,
    journal: JournalInfo,
    bytes: Seq<u8>,
    records: Seq<crate::ntfs::RecordView>,
    error: IoErrorView,
)
    requires
        'A' <= volume <= 'Z' || 'a' <= volume <= 'z',
        crate::ntfs::parsed(bytes) == Ok::<
            Seq<crate::ntfs::RecordView>,
            crate::ntfs::NtfsErrorView,
        >(records),
    ensures
        crate::volume::probed(volume, Ok(journal), Ok(bytes)) == Ok::<
            (char, JournalInfo, nat),
            IoErrorView,
        >((crate::text::ascii_upper(volume), journal, records.len())),
        crate::volume::probed(volume, Err(error), Ok(bytes)) == Err::<
            (char, JournalInfo, nat),
            IoErrorView,
        >(error),
        crate::volume::probed(volume, Ok(journal), Err(error)) == Err::<
            (char, JournalInfo, nat),
            IoErrorView,
        >(error),
{
}

/// A connection is answered and closed: a request that is no message or did not come in time closes
/// it, and the service stops exactly if it may be stopped, was asked to, and has said so.
pub proof fn law_connections_take_their_course(
    payload: Vec<u8>,
    error: crate::errors::IoError,
    controlled: bool,
    stopping: bool,
)
    ensures
        ({
            let asked = crate::pipe::served(
                ConnectionEvent::Request(Ok(payload)),
                controlled,
                stopping,
            );
            let message = crate::json::json_parsed(payload@) is Ok;
            let stop = crate::rpc::member_text(payload@, "jsonrpc"@) == Some("2.0"@)
                && crate::rpc::member_text(payload@, "method"@) == Some("app.shutdown"@);
            &&& asked is AnswerAndStop <==> message && controlled && stop
            &&& asked is CarryOut <==> message && !(controlled && stop)
            &&& asked matches ConnectionStepView::CarryOut(request) ==> request == payload@
            &&& !message ==> (asked matches ConnectionStepView::Close { result, stop }
                && result is Err && !stop)
        }),
        crate::pipe::served(ConnectionEvent::Request(Err(error)), controlled, stopping) == (
        ConnectionStepView::Close { result: Err(error@), stop: false }),
        crate::pipe::served(
            ConnectionEvent::RequestTimedOut,
            controlled,
            stopping,
        ) matches ConnectionStepView::Close { result, stop } && result is Err && !stop,
        crate::pipe::served(ConnectionEvent::Written(Ok(())), controlled, stopping) == (
        ConnectionStepView::Close { result: Ok(()), stop: stopping }),
        crate::pipe::served(ConnectionEvent::Written(Err(error)), controlled, stopping) == (
        ConnectionStepView::Close { result: Err(error@), stop: false }),
        crate::pipe::served(
            ConnectionEvent::WriteTimedOut,
            controlled,
            stopping,
        ) matches ConnectionStepView::Close { result, stop } && result is Err && !stop,
{
}

/// What was printed is shown as it is; where it could not be printed, what is shown says that it
/// failed.
pub proof fn law_printed_answers_are_shown(
    outcome: Result<Seq<char>, Seq<char>>,
    text: Seq<char>,
    error: Seq<char>,
)
    ensures
        crate::mcp::rendered(outcome, Ok(text)) == text,
        outcome is Ok ==> crate::text::contains(crate::mcp::rendered(outcome, Err(error)), error),
        crate::text::starts_with(
            crate::mcp::rendered(outcome, Err(error)),
            "{\"ok\":false,\"error\":\""@,
        ),
{
    reveal_strlit("{\"ok\":false,\"error\":\"");
    reveal_strlit("{\"ok\":false,\"error\":\"serialization failed\"}");
    let head = "{\"ok\":false,\"error\":\""@;
    let fixed = "{\"ok\":false,\"error\":\"serialization failed\"}"@;
    lemma_three_parts(head, error, "\"}"@);
    assert(fixed.subrange(0, head.len() as int) =~= head);
}

/// A member that is missing counts as null, and one that is there as what it is.
pub proof fn law_missing_members_are_null(value: Seq<char>)
    ensures
        crate::rpc::or_null(Some(value)) == value,
        crate::rpc::or_null(None) == "null"@,
{
}

// ---------------------------------------------------------------------------
// What functions return
// ---------------------------------------------------------------------------

/// What is framed is read back: the length in front of a message is the length that is read, and a
/// message that may not be framed may not be read either.
pub proof fn law_framed_message_is_read_back(
    payload: &[u8],
    frame: Result<Vec<u8>, IoError>,
    header: &[u8],
    length: Result<usize, IoError>,
)
    requires
        call_ensures(crate::pipe::frame, (payload,), frame),
        frame matches Ok(bytes) ==> header@ == bytes@.take(4),
        header@.len() == 4,
        call_ensures(crate::pipe::frame_length, (header,), length),
    ensures
        frame is Ok <==> 1 <= payload@.len() <= 1024 * 1024,
        frame matches Ok(bytes) ==> {
            &&& length matches Ok(count) && count == payload@.len()
            &&& bytes@.len() == payload@.len() + 4
            &&& bytes@.skip(4) == payload@
        },
        length is Ok <==> 1 <= crate::bytes::le32(header@, 0) <= 1024 * 1024,
{
    if frame is Ok {
        crate::pipe::law_frame_gives_back_the_message(payload@);
    }
}

/// The next instance of a pipe is tried again exactly if the pipe is busy and there is time left.
pub proof fn law_which_instances_are_tried_again(
    error: IoError,
    expired: bool,
    step: InstanceStep,
)
    requires
        call_ensures(crate::pipe::create_next_server, (error, expired), step),
    ensures
        error.code == Some(231i32) && !expired <==> step is Retry,
        step matches InstanceStep::Failed(failure) ==> failure == error,
{
}

/// The service waits for a free slot, then for a client, serves it and begins again; once it is
/// told to stop it drains.
pub proof fn law_service_takes_its_course(
    stop: bool,
    gone: bool,
    open: bool,
    error: IoError,
    idle: ServiceStep,
    slot: ServiceStep,
    client: ServiceStep,
    broken: ServiceStep,
    told: ServiceStep,
)
    requires
        call_ensures(crate::pipe::serve_pipe, (ServiceEvent::Idle { stop },), idle),
        call_ensures(crate::pipe::serve_pipe, (ServiceEvent::Slot { open },), slot),
        call_ensures(crate::pipe::serve_pipe, (ServiceEvent::Connected(Ok(())),), client),
        call_ensures(crate::pipe::serve_pipe, (ServiceEvent::Connected(Err(error)),), broken),
        call_ensures(crate::pipe::serve_pipe, (ServiceEvent::Told { gone, stop },), told),
    ensures
        stop ==> idle is Drain && told is Drain,
        !stop ==> idle is AwaitSlot,
        gone ==> told is Drain,
        !stop && !gone ==> told is Again,
        open ==> slot is AwaitClient,
        !open ==> slot is Failed,
        client is Serve,
        broken == ServiceStep::Failed(error),
{
}

/// Besides the owner only the system and the administrators may use the pipe, and all of them
/// fully.
pub proof fn law_who_may_use_the_pipe(sid: &str, descriptor: String)
    requires
        call_ensures(crate::pipe::security_descriptor, (sid,), descriptor),
    ensures
        crate::text::starts_with(descriptor@, "D:P(A;;GA;;;"@ + sid@),
        crate::text::ends_with(descriptor@, ")(A;;GA;;;SY)(A;;GA;;;BA)"@),
{
    let head = "D:P(A;;GA;;;"@ + sid@;
    let tail = ")(A;;GA;;;SY)(A;;GA;;;BA)"@;
    assert(descriptor@.subrange(0, head.len() as int) =~= head);
    assert(descriptor@.subrange(descriptor@.len() - tail.len(), descriptor@.len() as int) =~= tail);
}

/// The service is asked to stop exactly by a call of the right version and the right name.
pub proof fn law_which_calls_ask_to_stop(
    version: Option<String>,
    method: Option<String>,
    yes: bool,
)
    requires
        call_ensures(crate::rpc::is_shutdown_call, (&version, &method), yes),
    ensures
        yes <==> (version matches Some(text) && text@ == "2.0"@) && (method matches Some(name)
            && name@ == "app.shutdown"@),
{
}

/// A volume is its letter in upper case, and nothing else is one.
pub proof fn law_letters_of_volumes_are_upper_case(volume: char, result: Result<char, IoError>)
    requires
        call_ensures(crate::volume::normalize_volume_letter, (volume,), result),
    ensures
        'A' <= volume <= 'Z' ==> result == Ok::<char, IoError>(volume),
        'a' <= volume <= 'z' ==> (result matches Ok(letter) && letter as int == volume as int - 32),
        !('A' <= volume <= 'Z') && !('a' <= volume <= 'z') ==> (result matches Err(error)
            && error@.kind is InvalidInput),
{
}

/// The table is asked for from where it was left up to the journal's position at the start, and the
/// journal from where it was left, for creations, deletions and changes of names, once they are
/// closed.
pub proof fn law_requests_say_where_to_read_on(
    table: SnapshotScan,
    journal: JournalScan,
    table_request: Vec<u8>,
    journal_request: Vec<u8>,
)
    requires
        call_ensures(SnapshotScan::request, (&table,), table_request),
        call_ensures(JournalScan::request, (&journal,), journal_request),
    ensures
        table_request@.len() == 24,
        crate::bytes::le64(table_request@, 0) == table@.start,
        crate::bytes::le64(table_request@, 8) == 0,
        crate::bytes::signed64(crate::bytes::le64(table_request@, 16)) == table@.high_usn(),
        journal_request@.len() == 40,
        crate::bytes::signed64(crate::bytes::le64(journal_request@, 0)) == journal@.start_usn,
        crate::bytes::le32(journal_request@, 8) == 0x100 + 0x200 + 0x1000 + 0x2000,
        crate::bytes::le32(journal_request@, 12) == 1,
        crate::bytes::le64(journal_request@, 16) == 0,
        crate::bytes::le64(journal_request@, 24) == 0,
        crate::bytes::le64(journal_request@, 32) == journal@.journal.journal_id,
{
    let start = table@.start;
    let high = crate::bytes::unsigned64(table@.high_usn());
    crate::bytes::law_signed_numbers_are_read_back(table@.high_usn(), 0);
    crate::bytes::lemma_le_bytes_len(start as nat, 8);
    crate::bytes::lemma_le_bytes_len(0, 8);
    crate::bytes::lemma_le_bytes_len(high as nat, 8);
    let bytes = table_request@;
    assert(bytes.subrange(0, 8) =~= crate::bytes::le_bytes(start as nat, 8));
    assert(bytes.subrange(8, 16) =~= crate::bytes::le_bytes(0, 8));
    assert(bytes.subrange(16, 24) =~= crate::bytes::le_bytes(high as nat, 8));
    crate::bytes::law_le64_gives_back_what_le_bytes_wrote(bytes, 0, start);
    crate::bytes::law_le64_gives_back_what_le_bytes_wrote(bytes, 8, 0);
    crate::bytes::law_le64_gives_back_what_le_bytes_wrote(bytes, 16, high);
    lemma_journal_request(journal, journal_request@);
}

/// The fields of a request for the journal.
proof fn lemma_journal_request(journal: JournalScan, bytes: Seq<u8>)
    requires
        bytes == crate::bytes::le_bytes(
            crate::bytes::unsigned64(journal@.start_usn) as nat,
            8,
        ) + crate::bytes::le_bytes(crate::volume::JOURNAL_REASON_MASK as nat, 4)
            + crate::bytes::le_bytes(1, 4) + crate::bytes::le_bytes(0, 8) + crate::bytes::le_bytes(
            0,
            8,
        ) + crate::bytes::le_bytes(journal@.journal.journal_id as nat, 8),
    ensures
        bytes.len() == 40,
        crate::bytes::signed64(crate::bytes::le64(bytes, 0)) == journal@.start_usn,
        crate::bytes::le32(bytes, 8) == 0x3300,
        crate::bytes::le32(bytes, 12) == 1,
        crate::bytes::le64(bytes, 16) == 0,
        crate::bytes::le64(bytes, 24) == 0,
        crate::bytes::le64(bytes, 32) == journal@.journal.journal_id,
{
    let start = crate::bytes::unsigned64(journal@.start_usn);
    let id = journal@.journal.journal_id;
    crate::bytes::law_signed_numbers_are_read_back(journal@.start_usn, 0);
    crate::bytes::lemma_le_bytes_len(start as nat, 8);
    crate::bytes::lemma_le_bytes_len(0x3300, 4);
    crate::bytes::lemma_le_bytes_len(1, 4);
    crate::bytes::lemma_le_bytes_len(0, 8);
    crate::bytes::lemma_le_bytes_len(id as nat, 8);
    assert(bytes.subrange(0, 8) =~= crate::bytes::le_bytes(start as nat, 8));
    assert(bytes.subrange(8, 12) =~= crate::bytes::le_bytes(0x3300, 4));
    assert(bytes.subrange(12, 16) =~= crate::bytes::le_bytes(1, 4));
    assert(bytes.subrange(16, 24) =~= crate::bytes::le_bytes(0, 8));
    assert(bytes.subrange(24, 32) =~= crate::bytes::le_bytes(0, 8));
    assert(bytes.subrange(32, 40) =~= crate::bytes::le_bytes(id as nat, 8));
    crate::bytes::law_le64_gives_back_what_le_bytes_wrote(bytes, 0, start);
    crate::bytes::lemma_le32_at(bytes, 8, 0x3300);
    crate::bytes::lemma_le32_at(bytes, 12, 1);
    crate::bytes::law_le64_gives_back_what_le_bytes_wrote(bytes, 16, 0);
    crate::bytes::law_le64_gives_back_what_le_bytes_wrote(bytes, 24, 0);
    crate::bytes::law_le64_gives_back_what_le_bytes_wrote(bytes, 32, id);
}

/// The service is started where it lies beside the adapter, and an error says what is missing.
pub proof fn law_which_service_is_started(
    host: Result<String, String>,
    found: bool,
    result: Result<String, String>,
)
    requires
        call_ensures(crate::mcp::host_to_start, (host, found), result),
    ensures
        result is Ok <==> host is Ok && found,
        host is Ok && found ==> result->Ok_0@ == host->Ok_0@,
        host is Ok && !found ==> crate::text::contains(result->Err_0@, host->Ok_0@),
        host is Err ==> crate::text::ends_with(result->Err_0@, host->Err_0@),
{
    match host {
        Ok(path) => {
            let front = "未找到同目录宿主："@;
            let behind = "。请同时复制 jinfu-search.exe。"@;
            crate::text_laws::law_part_has_something_around_it(front + path@ + behind, path@);
        },
        Err(error) => {
            let text = "无法定位 MCP 适配器："@ + error@;
            assert(text.subrange(text.len() - error@.len(), text.len() as int) =~= error@);
        },
    }
}

// ---------------------------------------------------------------------------
// What is told of the index
// ---------------------------------------------------------------------------

/// A report is told as it is, unless its duration is beyond what a number in JSON may be.
pub proof fn law_reports_are_told(
    index: IndexView,
    report: crate::index::ScanReport,
    outcome: Result<Seq<char>, SearchErrorView>,
)
    requires
        crate::rpc::is_outcome(index, RpcCall::Report(Ok(report)), outcome),
    ensures
        report.elapsed_ms <= 0xffff_ffff_ffff_ffff ==> outcome == Ok::<Seq<char>, SearchErrorView>(
            crate::json::report_json(report@),
        ),
        report.elapsed_ms > 0xffff_ffff_ffff_ffff ==> outcome is Err,
{
}

/// All reports are told, or none where one of them cannot be.
pub proof fn law_all_reports_are_told(
    index: IndexView,
    reports: Vec<crate::index::ScanReport>,
    outcome: Result<Seq<char>, SearchErrorView>,
)
    requires
        crate::rpc::is_outcome(index, RpcCall::Reports(Ok(reports)), outcome),
    ensures
        outcome is Ok <==> forall|i: int|
            0 <= i < reports@.len() ==> (#[trigger] reports@[i]).elapsed_ms <= 0xffff_ffff_ffff_ffff,
        outcome matches Ok(text) ==> crate::text::starts_with(text, "{\"reports\":"@),
{
    let views = crate::json::report_views(reports@);
    assert(views.len() == reports@.len());
    assert forall|i: int| 0 <= i < reports@.len() implies (#[trigger] views[i]).elapsed_ms
        == reports@[i].elapsed_ms by {}
    if outcome is Ok {
        assert forall|i: int| 0 <= i < reports@.len() implies (#[trigger] reports@[i]).elapsed_ms
            <= 0xffff_ffff_ffff_ffff by {
            assert(views[i].elapsed_ms <= u64::MAX);
        }
        let text = outcome->Ok_0;
        let head = "{\"reports\":"@;
        assert(text.subrange(0, head.len() as int) =~= head);
    }
}

/// Every root is told once, in the order of the names, with what is known of it.
pub proof fn law_every_root_is_told(
    index: IndexView,
    outcome: Result<Seq<char>, SearchErrorView>,
) -> (listed: Seq<crate::overview::ListedView>)
    requires
        crate::rpc::is_outcome(index, RpcCall::ListRoots, outcome),
    ensures
        outcome == Ok::<Seq<char>, SearchErrorView>(crate::json::roots_json(listed)),
        forall|i: int, j: int|
            0 <= i < j < listed.len() ==> crate::text::precedes(
                (#[trigger] listed[i]).root,
                (#[trigger] listed[j]).root,
            ),
        forall|i: int|
            0 <= i < listed.len() ==> {
                let root = index.roots[(#[trigger] listed[i]).root];
                &&& index.roots.contains_key(listed[i].root)
                &&& listed[i].complete == root.complete
                &&& listed[i].last_scan_unix_ms == root.last_scan_unix_ms
                &&& listed[i].uses_ntfs_usn == (root.cursor is Some)
                &&& root.skipped_entries >= 0 ==> listed[i].skipped_entries == root.skipped_entries
            },
        forall|name: Seq<char>| #[trigger]
            index.roots.contains_key(name) ==> exists|i: int|
                0 <= i < listed.len() && (#[trigger] listed[i]).root == name,
{
    let names = choose|names: Seq<Seq<char>>| #[trigger]
        crate::overview::names_in_order(names, index.roots.dom()) && outcome == Ok::<
            Seq<char>,
            SearchErrorView,
        >(
            crate::json::roots_json(
                Seq::new(
                    names.len(),
                    |i: int| crate::overview::listed_root(names[i], index.roots[names[i]]),
                ),
            ),
        );
    let listed = Seq::new(
        names.len(),
        |i: int| crate::overview::listed_root(names[i], index.roots[names[i]]),
    );
    assert forall|i: int, j: int| 0 <= i < j < listed.len() implies crate::text::precedes(
        (#[trigger] listed[i]).root,
        (#[trigger] listed[j]).root,
    ) by {
        assert(crate::text::precedes(names[i], names[j]));
    }
    assert forall|i: int| 0 <= i < listed.len() implies ({
        let root = index.roots[(#[trigger] listed[i]).root];
        &&& index.roots.contains_key(listed[i].root)
        &&& listed[i].complete == root.complete
        &&& listed[i].last_scan_unix_ms == root.last_scan_unix_ms
        &&& listed[i].uses_ntfs_usn == (root.cursor is Some)
        &&& root.skipped_entries >= 0 ==> listed[i].skipped_entries == root.skipped_entries
    }) by {
        assert(index.roots.dom().contains(names[i]));
    }
    assert forall|name: Seq<char>| #[trigger] index.roots.contains_key(name) implies exists|i: int|
        0 <= i < listed.len() && (#[trigger] listed[i]).root == name by {
        assert(index.roots.dom().contains(name));
        let i = choose|i: int| 0 <= i < names.len() && names[i] == name;
        assert(listed[i].root == name);
    }
    listed
}

/// The usual pipe has a name that is allowed.
pub proof fn law_usual_pipe_is_local()
    ensures
        crate::pipe::name_problem(crate::pipe::DEFAULT_PIPE_NAME@) is None,
{
    reveal_strlit(r"\\.\pipe\jinfu-search-v1");
    reveal_strlit("jinfu-search-v1");
    reveal_strlit(r"\\.\pipe\");
    let name = "jinfu-search-v1"@;
    assert(crate::pipe::DEFAULT_PIPE_NAME@ =~= crate::pipe::pipe_prefix() + name);
    law_which_pipe_names_are_local(name);
    crate::path_laws::law_which_names_may_be_part_of_a_path(name, Seq::empty(), Seq::empty());
}

/// The sizes and times fit together: a reply of the journal has room for a record with the longest
/// name, the queue of events for a whole batch; events are collected for less time than is waited,
/// less is waited than lies between two synchronisations, and a connection is tried again a hundred
/// times.
pub proof fn law_sizes_and_times_fit()
    ensures
        crate::volume::MFT_BUFFER_BYTES == 1024 * 1024,
        crate::volume::JOURNAL_BUFFER_BYTES == 16 * 1024,
        crate::volume::JOURNAL_BUFFER_BYTES > 60 + 2 * 255,
        crate::maintenance::EVENT_QUEUE_CAPACITY >= crate::maintenance::MAX_PENDING_PATHS,
        crate::maintenance::EVENT_DEBOUNCE_MS < crate::maintenance::MAX_WAIT_MS,
        crate::maintenance::MAX_WAIT_MS < crate::maintenance::USN_SYNC_INTERVAL_MS,
        crate::pipe::PIPE_RETRY_DELAY_MS * 100 == crate::pipe::PIPE_CONNECT_TIMEOUT_MS,
        crate::pipe::PIPE_CONNECT_TIMEOUT_MS < crate::pipe::PIPE_FRAME_TIMEOUT_MS,
        crate::pipe::MAX_ACTIVE_PIPE_CONNECTIONS + 1 == crate::pipe::MAX_PIPE_INSTANCES,
        crate::mcp::HOST_START_RETRIES * crate::mcp::HOST_START_DELAY_MS == 3_000,
{
}

/// A batch names where to read on in its first eight bytes, and has the records behind them; a batch
/// that is too short or does not hold records is an error of its data.
pub proof fn law_batches_are_read(bytes: Seq<u8>, next: u64)
    requires
        bytes.len() >= 8 ==> bytes.subrange(0, 8) == crate::bytes::le_bytes(next as nat, 8),
    ensures
        bytes.len() < 8 ==> (crate::volume::batch_of(bytes) matches Err(error) && error.kind
            is InvalidData),
        bytes.len() >= 8 ==> match crate::ntfs::parsed(bytes) {
            Ok(records) => crate::volume::batch_of(bytes) matches Ok((later, batch)) && later == next
                && batch == records,
            Err(problem) => crate::volume::batch_of(bytes) matches Err(error) && error.kind
                is InvalidData && error.message == problem.wording(),
        },
{
    if bytes.len() >= 8 {
        crate::bytes::law_le64_gives_back_what_le_bytes_wrote(bytes, 0, next);
    }
}

/// One record that cannot be read makes a whole reply unreadable, and a reply without records has
/// none.
pub proof fn law_replies_are_read_as_a_whole(head: Seq<u8>, short: Seq<u8>, buffer: Seq<u8>)
    requires
        head.len() == 8,
        short.len() < 8,
        buffer.len() > 8,
    ensures
        crate::ntfs::parsed(head) == Ok::<
            Seq<crate::ntfs::RecordView>,
            crate::ntfs::NtfsErrorView,
        >(Seq::empty()),
        crate::ntfs::parsed(short) is Err,
        match crate::ntfs::record_at(buffer, 8) {
            Err(error) => crate::ntfs::parsed(buffer) == Err::<
                Seq<crate::ntfs::RecordView>,
                crate::ntfs::NtfsErrorView,
            >(error),
            Ok((record, end)) => match crate::ntfs::records_from(buffer, end) {
                Err(error) => crate::ntfs::parsed(buffer) == Err::<
                    Seq<crate::ntfs::RecordView>,
                    crate::ntfs::NtfsErrorView,
                >(error),
                Ok(rest) => crate::ntfs::parsed(buffer) matches Ok(records) && records.len()
                    == rest.len() + 1 && records[0] == record && records.skip(1) == rest,
            },
        },
{
    if let Ok((record, end)) = crate::ntfs::record_at(buffer, 8) {
        if let Ok(rest) = crate::ntfs::records_from(buffer, end) {
            assert((seq![record] + rest).skip(1) =~= rest);
        }
    }
}

} // verus!

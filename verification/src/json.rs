//! JSON values.
//!
//! A JSON value that was received is held as the bytes that were received, and read from them by
//! `serde_json`. A value that is sent is put together here, as the text that `serde_json` writes
//! without white space. A part of a received value is read and written once on the way.
use crate::errors::{SearchError, SearchErrorView};
use crate::index::{ReportView, ScanReport};
use crate::overview::{IndexStatus, IndexedRoot, ListedView};
use crate::search::{ItemView, SearchItem};
use crate::text::{join, to_decimal, to_signed_decimal};
use crate::volume::VolumeProbe;
use vstd::prelude::*;

verus! {

// ---------------------------------------------------------------------------
// Reading and quoting
// ---------------------------------------------------------------------------

/// The compact form of the JSON value that bytes hold, or why they hold none, as
/// `serde_json::from_slice` reads them.
pub uninterp spec fn json_parsed(bytes: Seq<u8>) -> Result<Seq<char>, Seq<char>>;

/// The compact form of the member with the given name of the JSON object that bytes hold, as
/// `serde_json::Value::get` finds it.
pub uninterp spec fn json_member(document: Seq<u8>, name: Seq<char>) -> Option<Seq<char>>;

/// The text that a JSON string stands for, as `serde_json::Value::as_str` gives it.
pub uninterp spec fn json_text(document: Seq<char>) -> Option<Seq<char>>;

/// The JSON value that bytes hold over several lines, as `serde_json::to_string_pretty` writes it,
/// or why it cannot be written.
pub uninterp spec fn json_pretty(document: Seq<u8>) -> Result<Seq<char>, Seq<char>>;

/// The view of a result with a text on either side.
pub open spec fn text_result(result: Result<String, String>) -> Result<Seq<char>, Seq<char>> {
    match result {
        Ok(text) => Ok(text@),
        Err(error) => Err(error@),
    }
}

/// The view of an optional text.
pub open spec fn text_option(option: Option<String>) -> Option<Seq<char>> {
    match option {
        Some(text) => Some(text@),
        None => None,
    }
}

/// Calls `serde_json::from_slice`. What is claimed is that the value in its compact form, or the
/// wording of the error, depends on the bytes alone.
#[verifier::external_body]
pub(crate) fn parse(bytes: &[u8]) -> (result: Result<String, String>)
    ensures
        text_result(result) == json_parsed(bytes@),
{
    match serde_json::from_slice::<serde_json::Value>(bytes) {
        Ok(value) => Ok(value.to_string()),
        Err(error) => Err(error.to_string()),
    }
}

/// Calls `serde_json::Value::get` on the value that bytes hold. What is claimed is that the member
/// in its compact form depends on the bytes and the name alone.
#[verifier::external_body]
pub(crate) fn member(document: &[u8], name: &str) -> (result: Option<String>)
    ensures
        text_option(result) == json_member(document@, name@),
{
    let value = serde_json::from_slice::<serde_json::Value>(document).ok()?;
    value.get(name).map(|found| found.to_string())
}

/// Calls `serde_json::Value::as_str` on the value that a text holds. What is claimed is that the
/// result depends on the text alone.
#[verifier::external_body]
pub(crate) fn string_value(document: &str) -> (result: Option<String>)
    ensures
        text_option(result) == json_text(document@),
{
    let value = serde_json::from_str::<serde_json::Value>(document).ok()?;
    value.as_str().map(|text| text.to_owned())
}

/// The hexadecimal digit for a number below sixteen.
pub open spec fn hex_digit(value: int) -> char {
    if value < 10 {
        ('0' as int + value) as char
    } else {
        ('a' as int + value - 10) as char
    }
}

/// A character as it stands in a JSON string.
pub open spec fn json_char(ch: char) -> Seq<char> {
    if ch == '"' || ch == '\\' {
        seq!['\\', ch]
    } else if ch == '\n' {
        seq!['\\', 'n']
    } else if ch == '\r' {
        seq!['\\', 'r']
    } else if ch == '\t' {
        seq!['\\', 't']
    } else if ch == '\u{8}' {
        seq!['\\', 'b']
    } else if ch == '\u{c}' {
        seq!['\\', 'f']
    } else if (ch as int) < 0x20 {
        seq!['\\', 'u', '0', '0', hex_digit(ch as int / 16), hex_digit(ch as int % 16)]
    } else {
        seq![ch]
    }
}

/// A text as it stands in a JSON string.
pub open spec fn json_chars(text: Seq<char>) -> Seq<char>
    decreases text.len(),
{
    if text.len() == 0 {
        Seq::empty()
    } else {
        json_chars(text.drop_last()) + json_char(text.last())
    }
}

/// The JSON string for a text.
pub open spec fn json_quoted(text: Seq<char>) -> Seq<char> {
    seq!['"'] + json_chars(text) + seq!['"']
}

/// Calls the `Display` of `serde_json::Value` on a string. What is claimed is that it writes the
/// text between quotation marks, with a backslash before quotation marks and backslashes, and with
/// the short or else the numeric escapes for control characters below the space.
#[verifier::external_body]
pub(crate) fn quoted(text: &str) -> (result: String)
    ensures
        result@ == json_quoted(text@),
{
    serde_json::Value::String(text.to_owned()).to_string()
}

/// Calls `serde_json::to_string_pretty` on the value that bytes hold. What is claimed is that the
/// result, or the wording of the error, depends on the bytes alone.
#[verifier::external_body]
pub(crate) fn pretty(document: &[u8]) -> (result: Result<String, String>)
    ensures
        text_result(result) == json_pretty(document@),
{
    match serde_json::from_slice::<serde_json::Value>(document) {
        Ok(value) => serde_json::to_string_pretty(&value).map_err(|error| error.to_string()),
        Err(error) => Err(error.to_string()),
    }
}

// ---------------------------------------------------------------------------
// Writing
// ---------------------------------------------------------------------------

/// The JSON form of a truth value.
pub open spec fn bool_json(value: bool) -> Seq<char> {
    if value {
        "true"@
    } else {
        "false"@
    }
}

/// The JSON form of a truth value.
pub fn bool_text(value: bool) -> (text: &'static str)
    ensures
        text@ == bool_json(value),
{
    if value {
        "true"
    } else {
        "false"
    }
}

/// The JSON form of a number that may be missing.
pub open spec fn optional_number_json(value: Option<i64>) -> Seq<char> {
    match value {
        Some(number) => crate::text::signed_decimal(number as int),
        None => "null"@,
    }
}

fn optional_number_text(value: Option<i64>) -> (text: String)
    ensures
        text@ == optional_number_json(value),
{
    match value {
        Some(number) => to_signed_decimal(number),
        None => "null".to_owned(),
    }
}

/// The JSON form of a text that may be missing.
pub open spec fn optional_text_json(value: Option<Seq<char>>) -> Seq<char> {
    match value {
        Some(text) => json_quoted(text),
        None => "null"@,
    }
}

/// The JSON form of a text that may be missing.
pub fn optional_text_text(value: &Option<String>) -> (text: String)
    ensures
        text@ == optional_text_json(text_option(*value)),
{
    match value {
        Some(text) => quoted(text.as_str()),
        None => "null".to_owned(),
    }
}

/// A JSON list of values.
pub open spec fn list_json(values: Seq<Seq<char>>) -> Seq<char> {
    "["@ + crate::text::joined(values, ","@) + "]"@
}

/// A JSON list of values.
pub fn list_text(values: &Vec<String>) -> (text: String)
    ensures
        text@ == list_json(crate::text::views(values@)),
{
    let mut text = "[".to_owned();
    text.append(join(values.as_slice(), ",").as_str());
    text.append("]");
    text
}

// ---------------------------------------------------------------------------
// What the index says
// ---------------------------------------------------------------------------

/// The JSON form of a status.
pub open spec fn status_json(status: IndexStatus) -> Seq<char> {
    "{\"incomplete_roots\":"@ + crate::text::decimal(status.incomplete_roots as nat)
        + ",\"indexed_directories\":"@ + crate::text::decimal(status.indexed_directories as nat)
        + ",\"indexed_files\":"@ + crate::text::decimal(status.indexed_files as nat)
        + ",\"roots\":"@ + crate::text::decimal(status.roots as nat) + "}"@
}

/// The JSON form of a status.
pub fn status_text(status: &IndexStatus) -> (text: String)
    ensures
        text@ == status_json(*status),
{
    let mut text = "{\"incomplete_roots\":".to_owned();
    text.append(to_decimal(status.incomplete_roots).as_str());
    text.append(",\"indexed_directories\":");
    text.append(to_decimal(status.indexed_directories).as_str());
    text.append(",\"indexed_files\":");
    text.append(to_decimal(status.indexed_files).as_str());
    text.append(",\"roots\":");
    text.append(to_decimal(status.roots).as_str());
    text.append("}");
    text
}

/// The JSON form of a listed root.
pub open spec fn root_json(root: ListedView) -> Seq<char> {
    "{\"complete\":"@ + bool_json(root.complete) + ",\"last_scan_unix_ms\":"@
        + crate::text::signed_decimal(root.last_scan_unix_ms as int) + ",\"root\":"@ + json_quoted(
        root.root,
    ) + ",\"skipped_entries\":"@ + crate::text::decimal(root.skipped_entries)
        + ",\"uses_ntfs_usn\":"@ + bool_json(root.uses_ntfs_usn) + "}"@
}

fn root_text(root: &IndexedRoot) -> (text: String)
    ensures
        text@ == root_json(root@),
{
    let mut text = "{\"complete\":".to_owned();
    text.append(bool_text(root.complete));
    text.append(",\"last_scan_unix_ms\":");
    text.append(to_signed_decimal(root.last_scan_unix_ms).as_str());
    text.append(",\"root\":");
    text.append(quoted(root.root.as_str()).as_str());
    text.append(",\"skipped_entries\":");
    text.append(to_decimal(root.skipped_entries).as_str());
    text.append(",\"uses_ntfs_usn\":");
    text.append(bool_text(root.uses_ntfs_usn));
    text.append("}");
    text
}

/// The JSON form of the list of roots.
pub open spec fn roots_json(roots: Seq<ListedView>) -> Seq<char> {
    "{\"roots\":"@ + list_json(Seq::new(roots.len(), |i: int| root_json(roots[i]))) + "}"@
}

/// The JSON form of the list of roots.
pub fn roots_text(roots: &Vec<IndexedRoot>) -> (text: String)
    ensures
        text@ == roots_json(crate::overview::listed_views(roots@)),
{
    let ghost views = crate::overview::listed_views(roots@);
    let mut values: Vec<String> = Vec::new();
    let mut i: usize = 0;
    while i < roots.len()
        invariant
            i <= roots.len(),
            views == crate::overview::listed_views(roots@),
            values@.len() == i,
            forall|k: int| 0 <= k < i ==> (#[trigger] values@[k])@ == root_json(views[k]),
        decreases roots.len() - i,
    {
        values.push(root_text(&roots[i]));
        i += 1;
    }
    assert(crate::text::views(values@) =~= Seq::new(views.len(), |i: int| root_json(views[i])));
    let mut text = "{\"roots\":".to_owned();
    text.append(list_text(&values).as_str());
    text.append("}");
    text
}

/// The JSON form of a result of a search.
pub open spec fn item_json(item: ItemView) -> Seq<char> {
    "{\"is_directory\":"@ + bool_json(item.is_directory) + ",\"modified_unix_ms\":"@
        + optional_number_json(item.modified_unix_ms) + ",\"name\":"@ + json_quoted(item.name)
        + ",\"path\":"@ + json_quoted(item.path) + ",\"size_bytes\":"@ + crate::text::decimal(
        item.size_bytes,
    ) + "}"@
}

fn item_text(item: &SearchItem) -> (text: String)
    ensures
        text@ == item_json(item@),
{
    let mut text = "{\"is_directory\":".to_owned();
    text.append(bool_text(item.is_directory));
    text.append(",\"modified_unix_ms\":");
    text.append(optional_number_text(item.modified_unix_ms).as_str());
    text.append(",\"name\":");
    text.append(quoted(item.name.as_str()).as_str());
    text.append(",\"path\":");
    text.append(quoted(item.path.as_str()).as_str());
    text.append(",\"size_bytes\":");
    text.append(to_decimal(item.size_bytes).as_str());
    text.append("}");
    text
}

/// The JSON form of the results of a search: metadata, and nothing of what the files hold.
pub open spec fn items_json(items: Seq<ItemView>) -> Seq<char> {
    "{\"items\":"@ + list_json(Seq::new(items.len(), |i: int| item_json(items[i]))) + "}"@
}

/// The JSON form of the results of a search.
pub fn items_text(items: &Vec<SearchItem>) -> (text: String)
    ensures
        text@ == items_json(crate::search::item_views(items@)),
{
    let ghost views = crate::search::item_views(items@);
    let mut values: Vec<String> = Vec::new();
    let mut i: usize = 0;
    while i < items.len()
        invariant
            i <= items.len(),
            views == crate::search::item_views(items@),
            values@.len() == i,
            forall|k: int| 0 <= k < i ==> (#[trigger] values@[k])@ == item_json(views[k]),
        decreases items.len() - i,
    {
        values.push(item_text(&items[i]));
        i += 1;
    }
    assert(crate::text::views(values@) =~= Seq::new(views.len(), |i: int| item_json(views[i])));
    let mut text = "{\"items\":".to_owned();
    text.append(list_text(&values).as_str());
    text.append("}");
    text
}

/// The JSON form of a report.
pub open spec fn report_json(report: ReportView) -> Seq<char> {
    "{\"complete\":"@ + bool_json(report.complete) + ",\"elapsed_ms\":"@ + crate::text::decimal(
        report.elapsed_ms as nat,
    ) + ",\"indexed_directories\":"@ + crate::text::decimal(report.indexed_directories)
        + ",\"indexed_files\":"@ + crate::text::decimal(report.indexed_files) + ",\"root\":"@
        + json_quoted(report.root) + ",\"skipped_entries\":"@ + crate::text::decimal(
        report.skipped_entries,
    ) + "}"@
}

/// The error for a report that lasted longer than a JSON number can say.
pub open spec fn unwritable() -> SearchErrorView {
    SearchErrorView::Io { path: "<json response>"@, source: "number out of range"@ }
}

/// A report, if its duration can be written.
pub open spec fn written_report(report: ReportView) -> Result<Seq<char>, SearchErrorView> {
    if report.elapsed_ms <= u64::MAX {
        Ok(report_json(report))
    } else {
        Err(unwritable())
    }
}

/// The view of a result that holds a text.
pub open spec fn written_result(result: Result<String, SearchError>) -> Result<
    Seq<char>,
    SearchErrorView,
> {
    match result {
        Ok(text) => Ok(text@),
        Err(error) => Err(error@),
    }
}

/// The JSON form of a report.
pub fn report_text(report: &ScanReport) -> (result: Result<String, SearchError>)
    ensures
        written_result(result) == written_report(report@),
{
    if report.elapsed_ms > u64::MAX as u128 {
        return Err(
            SearchError::Io {
                path: "<json response>".to_owned(),
                source: "number out of range".to_owned(),
            },
        );
    }
    let mut text = "{\"complete\":".to_owned();
    text.append(bool_text(report.complete));
    text.append(",\"elapsed_ms\":");
    text.append(to_decimal(report.elapsed_ms as u64).as_str());
    text.append(",\"indexed_directories\":");
    text.append(to_decimal(report.indexed_directories).as_str());
    text.append(",\"indexed_files\":");
    text.append(to_decimal(report.indexed_files).as_str());
    text.append(",\"root\":");
    text.append(quoted(report.root.as_str()).as_str());
    text.append(",\"skipped_entries\":");
    text.append(to_decimal(report.skipped_entries).as_str());
    text.append("}");
    Ok(text)
}

/// The views of a list of reports.
pub open spec fn report_views(reports: Seq<ScanReport>) -> Seq<ReportView> {
    Seq::new(reports.len(), |i: int| reports[i]@)
}

/// A list of reports, if the duration of each can be written.
pub open spec fn written_reports(reports: Seq<ReportView>) -> Result<Seq<char>, SearchErrorView> {
    if forall|i: int| 0 <= i < reports.len() ==> (#[trigger] reports[i]).elapsed_ms <= u64::MAX {
        Ok(
            "{\"reports\":"@ + list_json(Seq::new(reports.len(), |i: int| report_json(reports[i])))
                + "}"@,
        )
    } else {
        Err(unwritable())
    }
}

/// The JSON form of a list of reports.
pub fn reports_text(reports: &Vec<ScanReport>) -> (result: Result<String, SearchError>)
    ensures
        written_result(result) == written_reports(report_views(reports@)),
{
    let ghost views = report_views(reports@);
    let mut values: Vec<String> = Vec::new();
    let mut i: usize = 0;
    while i < reports.len()
        invariant
            i <= reports.len(),
            views == report_views(reports@),
            values@.len() == i,
            forall|k: int| 0 <= k < i ==> (#[trigger] values@[k])@ == report_json(views[k]),
            forall|k: int| 0 <= k < i ==> (#[trigger] views[k]).elapsed_ms <= u64::MAX,
        decreases reports.len() - i,
    {
        assert(views[i as int] == reports@[i as int]@);
        match report_text(&reports[i]) {
            Ok(text) => values.push(text),
            Err(error) => return Err(error),
        }
        i += 1;
    }
    assert(crate::text::views(values@) =~= Seq::new(views.len(), |i: int| report_json(views[i])));
    let mut text = "{\"reports\":".to_owned();
    text.append(list_text(&values).as_str());
    text.append("}");
    Ok(text)
}

/// The JSON form of what a look at a volume found.
pub open spec fn probe_json(probe: VolumeProbe) -> Seq<char> {
    "{\"first_batch_records\":"@ + crate::text::decimal(probe.first_batch_records as nat)
        + ",\"first_usn\":"@ + crate::text::signed_decimal(probe.first_usn as int)
        + ",\"journal_id\":"@ + crate::text::decimal(probe.journal_id as nat) + ",\"next_usn\":"@
        + crate::text::signed_decimal(probe.next_usn as int) + ",\"volume\":"@ + json_quoted(
        seq![probe.volume],
    ) + "}"@
}

/// The JSON form of what a look at a volume found.
pub fn probe_text(probe: &VolumeProbe) -> (text: String)
    ensures
        text@ == probe_json(*probe),
{
    let mut volume = String::new();
    volume.push(probe.volume);
    assert(volume@ =~= seq![probe.volume]);
    let mut text = "{\"first_batch_records\":".to_owned();
    text.append(to_decimal(probe.first_batch_records as u64).as_str());
    text.append(",\"first_usn\":");
    text.append(to_signed_decimal(probe.first_usn).as_str());
    text.append(",\"journal_id\":");
    text.append(to_decimal(probe.journal_id).as_str());
    text.append(",\"next_usn\":");
    text.append(to_signed_decimal(probe.next_usn).as_str());
    text.append(",\"volume\":");
    text.append(quoted(volume.as_str()).as_str());
    text.append("}");
    text
}

/// The JSON value that bytes hold over several lines, as a command prints it, or the wording of why
/// it cannot be printed.
pub fn printed(document: &[u8]) -> (result: Result<String, String>)
    ensures
        text_result(result) == match json_pretty(document@) {
            Ok(text) => Ok::<Seq<char>, Seq<char>>(text),
            Err(error) => Err("输出 JSON 失败："@ + error),
        },
{
    match pretty(document) {
        Ok(text) => Ok(text),
        Err(error) => Err(crate::text::concat("输出 JSON 失败：", error.as_str())),
    }
}

/// The compact form of a JSON value that was given as text on the command line.
pub fn read_argument(text: &str) -> (result: Result<String, String>)
    ensures
        text_result(result) == match json_parsed(vstd::utf8::encode_utf8(text@)) {
            Ok(document) => Ok::<Seq<char>, Seq<char>>(document),
            Err(error) => Err("JSON-RPC 请求不是合法 JSON："@ + error),
        },
{
    match parse(text.as_bytes()) {
        Ok(document) => Ok(document),
        Err(error) => Err(crate::text::concat("JSON-RPC 请求不是合法 JSON：", error.as_str())),
    }
}

} // verus!

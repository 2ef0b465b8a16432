//! The search window: what it shows, where its parts lie, and that there is only one.
use crate::errors::SearchError;
use crate::index::{ScanReport, SearchIndex};
use crate::overview::IndexStatus;
use crate::search::{ItemView, RequestView, SearchItem, SearchRequest};
use crate::text::{concat, join, replace_char, to_decimal, trim};
use vstd::prelude::*;

verus! {

/// The most results that the window shows.
pub const SEARCH_LIMIT: usize = 100;

// ---------------------------------------------------------------------------
// What the window shows
// ---------------------------------------------------------------------------

/// What the window shows: a line of text, and the results with their paths.
#[derive(Debug, Clone, PartialEq, Eq)]
pub struct SearchPanelView {
    pub hint: String,
    pub rows: Vec<String>,
    pub paths: Vec<String>,
}

/// What a [`SearchPanelView`] says.
pub struct PanelView {
    pub hint: Seq<char>,
    pub rows: Seq<Seq<char>>,
    pub paths: Seq<Seq<char>>,
}

impl View for SearchPanelView {
    type V = PanelView;

    open spec fn view(&self) -> PanelView {
        PanelView {
            hint: self.hint@,
            rows: crate::text::views(self.rows@),
            paths: crate::text::views(self.paths@),
        }
    }
}

/// The hint of an index without roots.
pub open spec fn no_index_hint() -> Seq<char> {
    "还没有索引。点击“建立/更新本机索引”，完成后即可搜索。"@
}

/// The hint before anything is searched.
pub open spec fn idle_wording(status: Result<IndexStatus, SearchError>) -> Seq<char> {
    match status {
        Ok(status) => if status.roots == 0 {
            no_index_hint()
        } else {
            "已索引 "@ + crate::text::decimal(status.indexed_files as nat) + " 个文件、"@
                + crate::text::decimal(status.indexed_directories as nat)
                + " 个目录；输入关键词后点击“搜索”。"@
        },
        Err(error) => "暂时无法读取索引状态："@ + error@.wording(),
    }
}

/// The hint before anything is searched.
pub fn idle_hint(status: &Result<IndexStatus, SearchError>) -> (hint: String)
    ensures
        hint@ == idle_wording(*status),
{
    match status {
        Ok(status) => {
            if status.roots == 0 {
                return "还没有索引。点击“建立/更新本机索引”，完成后即可搜索。".to_owned();
            }
            let mut hint = concat("已索引 ", to_decimal(status.indexed_files).as_str());
            hint.append(" 个文件、");
            hint.append(to_decimal(status.indexed_directories).as_str());
            hint.append(" 个目录；输入关键词后点击“搜索”。");
            hint
        },
        Err(error) => concat("暂时无法读取索引状态：", error.message().as_str()),
    }
}

/// The hint where nothing was found.
pub open spec fn empty_wording(
    query: Seq<char>,
    status: Result<IndexStatus, SearchError>,
) -> Seq<char> {
    match status {
        Ok(status) => if status.roots == 0 {
            no_index_hint()
        } else {
            "没有找到“"@ + query + "”；可换个名称关键词或扩展名。"@
        },
        Err(error) => "没有找到“"@ + query + "”；索引状态读取失败："@ + error@.wording(),
    }
}

/// The hint where nothing was found.
pub fn empty_result_hint(query: &str, status: &Result<IndexStatus, SearchError>) -> (hint: String)
    ensures
        hint@ == empty_wording(query@, *status),
{
    match status {
        Ok(status) => {
            if status.roots == 0 {
                return "还没有索引。点击“建立/更新本机索引”，完成后即可搜索。".to_owned();
            }
            let mut hint = concat("没有找到“", query);
            hint.append("”；可换个名称关键词或扩展名。");
            hint
        },
        Err(error) => {
            let mut hint = concat("没有找到“", query);
            hint.append("”；索引状态读取失败：");
            hint.append(error.message().as_str());
            hint
        },
    }
}

/// The row of a result.
pub open spec fn row_of(item: ItemView) -> Seq<char> {
    item.name + "  —  "@ + item.path
}

/// The window with a line of text alone.
pub open spec fn only_hint(hint: Seq<char>) -> PanelView {
    PanelView { hint, rows: Seq::empty(), paths: Seq::empty() }
}

/// The window with results.
pub open spec fn result_panel(items: Seq<ItemView>) -> PanelView {
    PanelView {
        hint: "找到 "@ + crate::text::decimal(items.len())
            + " 项；双击结果可在资源管理器中定位。"@,
        rows: Seq::new(items.len(), |i: int| row_of(items[i])),
        paths: Seq::new(items.len(), |i: int| items[i].path),
    }
}

/// What the window shows for a query.
pub open spec fn panel_for(
    query: Seq<char>,
    result: Result<Seq<ItemView>, crate::errors::SearchErrorView>,
    status: Result<IndexStatus, SearchError>,
) -> PanelView {
    match result {
        Ok(items) => if items.len() == 0 {
            only_hint(empty_wording(query, status))
        } else {
            result_panel(items)
        },
        Err(error) => only_hint("搜索失败："@ + error.wording()),
    }
}

fn hint_panel(hint: String) -> (view: SearchPanelView)
    ensures
        view@ == only_hint(hint@),
{
    let view = SearchPanelView { hint, rows: Vec::new(), paths: Vec::new() };
    assert(crate::text::views(view.rows@) =~= Seq::<Seq<char>>::empty());
    assert(crate::text::views(view.paths@) =~= Seq::<Seq<char>>::empty());
    view
}

/// What the window shows for a query, given its result and the status of the index.
pub fn panel_of(
    query: &str,
    result: Result<Vec<SearchItem>, SearchError>,
    status: &Result<IndexStatus, SearchError>,
) -> (view: SearchPanelView)
    ensures
        view@ == panel_for(query@, crate::search::items_result(result), *status),
{
    let items = match result {
        Ok(items) => items,
        Err(error) => return hint_panel(concat("搜索失败：", error.message().as_str())),
    };
    let ghost found = crate::search::item_views(items@);
    if items.len() == 0 {
        return hint_panel(empty_result_hint(query, status));
    }
    let mut rows: Vec<String> = Vec::new();
    let mut paths: Vec<String> = Vec::new();
    let mut i: usize = 0;
    while i < items.len()
        invariant
            i <= items.len(),
            found == crate::search::item_views(items@),
            rows@.len() == i,
            paths@.len() == i,
            forall|k: int| 0 <= k < i ==> (#[trigger] rows@[k])@ == row_of(found[k]),
            forall|k: int| 0 <= k < i ==> (#[trigger] paths@[k])@ == found[k].path,
        decreases items.len() - i,
    {
        assert(found[i as int] == items@[i as int]@);
        let mut row = concat(items[i].name.as_str(), "  —  ");
        row.append(items[i].path.as_str());
        rows.push(row);
        paths.push(items[i].path.clone());
        i += 1;
    }
    assert(crate::text::views(rows@) =~= result_panel(found).rows);
    assert(crate::text::views(paths@) =~= result_panel(found).paths);
    let mut hint = concat("找到 ", to_decimal(rows.len() as u64).as_str());
    hint.append(" 项；双击结果可在资源管理器中定位。");
    SearchPanelView { hint, rows, paths }
}

/// The window on an index.
pub struct SearchPanelModel {
    pub index: SearchIndex,
}

/// The search that the window makes for a query.
pub open spec fn panel_request(query: Seq<char>) -> RequestView {
    RequestView { query, limit: SEARCH_LIMIT, root: None }
}

/// Whether the window shows `view` for an input.
pub open spec fn shows(
    index: crate::index::IndexView,
    input: Seq<char>,
    view: PanelView,
) -> bool {
    let query = crate::text::trimmed(input);
    exists|status: IndexStatus| #[trigger]
        index.has_status(status) && if query.len() == 0 {
            view == only_hint(idle_wording(Ok(status)))
        } else {
            exists|result: Result<Seq<ItemView>, crate::errors::SearchErrorView>| #[trigger]
                index.answers(
                    panel_request(query),
                    crate::normalize::normalized(query),
                    result,
                ) && view == panel_for(query, result, Ok(status))
        }
}

/// What the window shows for an input.
pub fn search_panel(index: &SearchIndex, input: &str) -> (view: SearchPanelView)
    requires
        index.wf(),
    ensures
        shows(index@, input@, view@),
{
    let query = trim(input);
    let found = index.status();
    assert(index@.has_status(found));
    let status: Result<IndexStatus, SearchError> = Ok(found);
    if crate::text::to_chars(query.as_str()).len() == 0 {
        return hint_panel(idle_hint(&status));
    }
    let mut request = SearchRequest::new(query.as_str());
    request.limit = SEARCH_LIMIT;
    let result = index.search(&request);
    let ghost outcome = crate::search::items_result(result);
    assert(index@.answers(
        panel_request(query@),
        crate::normalize::normalized(query@),
        outcome,
    ));
    panel_of(query.as_str(), result, &status)
}

impl SearchPanelModel {
    pub fn new(index: SearchIndex) -> (model: SearchPanelModel)
        ensures
            model.index == index,
    {
        SearchPanelModel { index }
    }

    /// What the window shows for an input.
    pub fn search(&self, input: &str) -> (view: SearchPanelView)
        requires
            self.index.wf(),
        ensures
            shows(self.index@, input@, view@),
    {
        search_panel(&self.index, input)
    }
}

// ---------------------------------------------------------------------------
// That there is only one window
// ---------------------------------------------------------------------------

/// The window as far as it is known: its handle, which is zero where there is none, whether one is
/// being opened, and the number of the last opening.
#[derive(Clone, Copy, Debug, PartialEq, Eq)]
pub struct SearchWindowLifecycle {
    pub hwnd: i64,
    pub opening: bool,
    pub generation: u64,
}

/// What follows a wish to open the window.
#[derive(Clone, Copy, Debug, PartialEq, Eq, Structural)]
pub enum OpenStep {
    /// The window exists and is brought to the front.
    Focus(i64),
    /// It is being opened already.
    Wait,
    /// It is opened, under this number.
    Launch(u64),
}

/// The window after a wish to open it, and what follows.
pub open spec fn opened(window: SearchWindowLifecycle) -> (SearchWindowLifecycle, OpenStep) {
    if window.hwnd != 0 {
        (window, OpenStep::Focus(window.hwnd))
    } else if window.opening {
        (window, OpenStep::Wait)
    } else {
        let generation = ((window.generation + 1) % 0x1_0000_0000_0000_0000) as u64;
        (
            SearchWindowLifecycle { hwnd: 0, opening: true, generation },
            OpenStep::Launch(generation),
        )
    }
}

/// The window after it was made under a number. A window of an earlier opening does not count.
pub open spec fn created(
    window: SearchWindowLifecycle,
    generation: u64,
    hwnd: i64,
) -> SearchWindowLifecycle {
    if window.generation == generation {
        SearchWindowLifecycle { hwnd, opening: false, generation }
    } else {
        window
    }
}

/// The window after one with the given handle is gone: it was closed, or can no longer be reached.
pub open spec fn destroyed(window: SearchWindowLifecycle, hwnd: i64) -> SearchWindowLifecycle {
    if window.hwnd == hwnd {
        SearchWindowLifecycle { hwnd: 0, opening: false, generation: window.generation }
    } else {
        window
    }
}

/// The window after an opening is over. Where it made a window, that window stays known.
pub open spec fn launch_over(
    window: SearchWindowLifecycle,
    generation: u64,
) -> SearchWindowLifecycle {
    if window.generation == generation && window.hwnd == 0 {
        SearchWindowLifecycle { opening: false, ..window }
    } else {
        window
    }
}

impl SearchWindowLifecycle {
    pub fn new() -> (window: SearchWindowLifecycle)
        ensures
            window == (SearchWindowLifecycle { hwnd: 0, opening: false, generation: 0 }),
    {
        SearchWindowLifecycle { hwnd: 0, opening: false, generation: 0 }
    }

    /// Takes in a wish to open the window.
    pub fn open(&mut self) -> (step: OpenStep)
        ensures
            (*final(self), step) == opened(*old(self)),
    {
        if self.hwnd != 0 {
            OpenStep::Focus(self.hwnd)
        } else if self.opening {
            OpenStep::Wait
        } else {
            self.opening = true;
            self.generation = if self.generation == u64::MAX {
                0
            } else {
                self.generation + 1
            };
            OpenStep::Launch(self.generation)
        }
    }

    /// Takes in that a window was made.
    pub fn mark_search_window_created(&mut self, generation: u64, hwnd: i64)
        ensures
            *final(self) == created(*old(self), generation, hwnd),
    {
        if self.generation == generation {
            self.hwnd = hwnd;
            self.opening = false;
        }
    }

    /// Takes in that a window is being closed.
    pub fn mark_search_window_destroying(&mut self, hwnd: i64)
        ensures
            *final(self) == destroyed(*old(self), hwnd),
    {
        if self.hwnd == hwnd {
            self.hwnd = 0;
            self.opening = false;
        }
    }

    /// Takes in that a window can no longer be reached.
    pub fn forget_search_window_if_matches(&mut self, hwnd: i64)
        ensures
            *final(self) == destroyed(*old(self), hwnd),
    {
        self.mark_search_window_destroying(hwnd);
    }

    /// Takes in that an opening is over.
    pub fn clear_window_launch_if_current(&mut self, generation: u64)
        ensures
            *final(self) == launch_over(*old(self), generation),
    {
        if self.generation == generation && self.hwnd == 0 {
            self.opening = false;
        }
    }
}

/// While a window is being opened no other is, and once it is made further wishes bring it to the
/// front.
pub proof fn law_there_is_one_window(window: SearchWindowLifecycle, generation: u64, hwnd: i64)
    requires
        opened(window).1 == OpenStep::Launch(generation),
        hwnd != 0,
    ensures
        opened(opened(window).0).1 == OpenStep::Wait,
        opened(created(opened(window).0, generation, hwnd)).1 == OpenStep::Focus(hwnd),
        opened(launch_over(created(opened(window).0, generation, hwnd), generation)).1
            == OpenStep::Focus(hwnd),
{
}

/// A window that is gone can be opened again, and so can one whose opening failed.
pub proof fn law_closed_window_opens_again(window: SearchWindowLifecycle, generation: u64, hwnd: i64)
    requires
        opened(window).1 == OpenStep::Launch(generation),
        hwnd != 0,
    ensures
        opened(destroyed(created(opened(window).0, generation, hwnd), hwnd)).1 is Launch,
        opened(launch_over(opened(window).0, generation)).1 is Launch,
{
}

// ---------------------------------------------------------------------------
// Where its parts lie
// ---------------------------------------------------------------------------

/// A rectangle in the window.
#[derive(Clone, Copy, Debug, PartialEq, Eq)]
pub struct Place {
    pub x: i32,
    pub y: i32,
    pub width: i32,
    pub height: i32,
}

/// Where the parts of the window lie.
#[derive(Clone, Copy, Debug, PartialEq, Eq)]
pub struct Layout {
    pub input: Place,
    pub button: Place,
    pub index_button: Place,
    pub status: Place,
    pub results: Place,
}

/// The larger of two numbers.
pub open spec fn larger(left: int, right: int) -> int {
    if left < right {
        right
    } else {
        left
    }
}

/// Whether a rectangle lies at the given place.
pub open spec fn lies(place: Place, x: int, y: int, width: int, height: int) -> bool {
    place.x == x && place.y == y && place.width == width && place.height == height
}

/// Where the parts of a window of the given size lie.
pub fn layout(client_width: i32, client_height: i32) -> (layout: Layout)
    ensures
        ({
            let width = larger(client_width as int, 300);
            let height = larger(client_height as int, 180);
            let input_width = larger(width - 316, 120);
            &&& lies(layout.input, 14, 30, input_width, 30)
            &&& lies(layout.button, 28 + input_width, 30, 90, 30)
            &&& lies(layout.index_button, 132 + input_width, 30, 170, 30)
            &&& lies(layout.status, 14, 72, width - 28, 38)
            &&& lies(layout.results, 14, 116, width - 28, height - 130)
        }),
{
    let width: i32 = if client_width < 300 {
        300
    } else {
        client_width
    };
    let height: i32 = if client_height < 180 {
        180
    } else {
        client_height
    };
    let padding: i32 = 14;
    let button_width: i32 = 90;
    let index_width: i32 = 170;
    let free: i32 = width - padding * 4 - button_width - index_width;
    let input_width: i32 = if free < 120 {
        120
    } else {
        free
    };
    Layout {
        input: Place { x: padding, y: 30, width: input_width, height: 30 },
        button: Place { x: padding * 2 + input_width, y: 30, width: button_width, height: 30 },
        index_button: Place {
            x: padding * 3 + input_width + button_width,
            y: 30,
            width: index_width,
            height: 30,
        },
        status: Place { x: padding, y: 72, width: width - padding * 2, height: 38 },
        results: Place { x: padding, y: 116, width: width - padding * 2, height: height - 130 },
    }
}

/// The length of the longest row, in units of the operating system.
pub open spec fn longest_row(rows: Seq<Seq<char>>) -> nat
    decreases rows.len(),
{
    if rows.len() == 0 {
        0
    } else {
        let front = longest_row(rows.drop_last());
        let here = crate::utf16::units_of(rows.last()).len();
        if front < here {
            here
        } else {
            front
        }
    }
}

/// How far the list of results can be scrolled to the side.
pub fn horizontal_extent(rows: &Vec<String>) -> (extent: usize)
    ensures
        extent == if longest_row(crate::text::views(rows@)) * 8 <= usize::MAX {
            longest_row(crate::text::views(rows@)) * 8
        } else {
            usize::MAX as nat
        },
{
    let ghost all = crate::text::views(rows@);
    let mut longest: usize = 0;
    let mut i: usize = 0;
    while i < rows.len()
        invariant
            i <= rows.len(),
            all == crate::text::views(rows@),
            longest == longest_row(all.take(i as int)),
        decreases rows.len() - i,
    {
        assert(all.take(i + 1).drop_last() =~= all.take(i as int));
        assert(all.take(i + 1).last() == rows@[i as int]@);
        let units: usize = crate::utf16::encode(rows[i].as_str()).len();
        if longest < units {
            longest = units;
        }
        i += 1;
    }
    assert(all.take(i as int) =~= all);
    if longest > usize::MAX / 8 {
        usize::MAX
    } else {
        longest * 8
    }
}

// ---------------------------------------------------------------------------
// What its parts do
// ---------------------------------------------------------------------------

/// The numbers of the parts of the window.
pub const EDIT_ID: u32 = 1;

pub const SEARCH_BUTTON_ID: u32 = 2;

pub const RESULTS_ID: u32 = 3;

pub const STATUS_ID: u32 = 4;

pub const INDEX_BUTTON_ID: u32 = 5;

/// The code for a click on a button.
pub const BUTTON_CLICKED: u32 = 0;

/// The code for a double click on a row.
pub const ROW_DOUBLE_CLICKED: u32 = 2;

/// What the user wants.
#[derive(Clone, Copy, Debug, PartialEq, Eq, Structural)]
pub enum PanelCommand {
    Search,
    StartIndex,
    Reveal,
    Nothing,
}

/// What the user wants, given the low and the high half of the number that the operating system
/// sends.
pub open spec fn command_for(control: int, notification: int) -> PanelCommand {
    if control == 2 && notification == 0 {
        PanelCommand::Search
    } else if control == 5 && notification == 0 {
        PanelCommand::StartIndex
    } else if control == 3 && notification == 2 {
        PanelCommand::Reveal
    } else {
        PanelCommand::Nothing
    }
}

/// What the user wants, given the number that the operating system sends.
pub fn decode_command(parameter: u64) -> (command: PanelCommand)
    ensures
        command == command_for((parameter % 0x1_0000) as int, (parameter / 0x1_0000 % 0x1_0000) as int),
{
    let control: u32 = (parameter % 0x1_0000) as u32;
    let notification: u32 = (parameter / 0x1_0000 % 0x1_0000) as u32;
    if control == SEARCH_BUTTON_ID && notification == BUTTON_CLICKED {
        PanelCommand::Search
    } else if control == INDEX_BUTTON_ID && notification == BUTTON_CLICKED {
        PanelCommand::StartIndex
    } else if control == RESULTS_ID && notification == ROW_DOUBLE_CLICKED {
        PanelCommand::Reveal
    } else {
        PanelCommand::Nothing
    }
}

/// The path of the selected row. A negative number says that none is selected.
pub fn selected_path<'a>(paths: &'a Vec<String>, selected: i64) -> (path: Option<&'a String>)
    ensures
        match path {
            Some(found) => 0 <= selected < paths@.len() && *found == paths@[selected as int],
            None => !(0 <= selected < paths@.len()),
        },
{
    if selected >= 0 && (selected as u64) < paths.len() as u64 {
        Some(&paths[selected as usize])
    } else {
        None
    }
}

/// A path in the form that the programs of the operating system expect.
pub open spec fn native_path(path: Seq<char>) -> Seq<char> {
    crate::text::replaced(path, '/', '\\')
}

/// A path in the form that the programs of the operating system expect.
pub fn windows_native_path(path: &str) -> (native: String)
    ensures
        native@ == native_path(path@),
{
    replace_char(path, '/', '\\')
}

/// The arguments with which a path is shown: selected where it exists, and otherwise the directory
/// it would lie in.
pub fn explorer_arguments(path: &str, present: bool, parent: Option<&str>) -> (arguments: Vec<
    String,
>)
    ensures
        crate::text::views(arguments@) == if present {
            seq!["/select,"@, native_path(path@)]
        } else {
            match parent {
                Some(directory) => seq![native_path(directory@)],
                None => seq![native_path(path@)],
            }
        },
{
    let mut arguments: Vec<String> = Vec::new();
    if present {
        arguments.push("/select,".to_owned());
        arguments.push(windows_native_path(path));
        assert(crate::text::views(arguments@) =~= seq!["/select,"@, native_path(path@)]);
    } else {
        let shown: &str = match parent {
            Some(directory) => directory,
            None => path,
        };
        arguments.push(windows_native_path(shown));
        assert(crate::text::views(arguments@) =~= seq![native_path(shown@)]);
    }
    arguments
}

// ---------------------------------------------------------------------------
// Indexing the machine
// ---------------------------------------------------------------------------

/// Why a volume could be indexed in neither way.
pub fn volume_failure(volume: char, mft_error: &SearchError, scan_error: &SearchError) -> (message:
    String)
    ensures
        message@ == crate::paths::volume_name(volume) + " MFT 索引失败（"@ + mft_error@.wording()
            + "）；目录扫描也失败（"@ + scan_error@.wording() + "）"@,
{
    let mut message = crate::paths::name_of_volume(volume);
    message.append(" MFT 索引失败（");
    message.append(mft_error.message().as_str());
    message.append("）；目录扫描也失败（");
    message.append(scan_error.message().as_str());
    message.append("）");
    message
}

/// The files of all reports.
pub open spec fn total_files(reports: Seq<ScanReport>) -> nat
    decreases reports.len(),
{
    if reports.len() == 0 {
        0
    } else {
        total_files(reports.drop_last()) + reports.last().indexed_files as nat
    }
}

/// The directories of all reports.
pub open spec fn total_directories(reports: Seq<ScanReport>) -> nat
    decreases reports.len(),
{
    if reports.len() == 0 {
        0
    } else {
        total_directories(reports.drop_last()) + reports.last().indexed_directories as nat
    }
}

proof fn lemma_totals(reports: Seq<ScanReport>, count: int)
    requires
        0 <= count <= reports.len(),
    ensures
        total_files(reports.take(count)) <= total_files(reports),
        total_directories(reports.take(count)) <= total_directories(reports),
    decreases reports.len() - count,
{
    if count < reports.len() {
        assert(reports.take(count + 1).drop_last() =~= reports.take(count));
        lemma_totals(reports, count + 1);
    } else {
        assert(reports.take(count) =~= reports);
    }
}

/// What the user is told after the machine was indexed.
pub open spec fn summary(files: nat, directories: nat, reports: nat, failures: Seq<Seq<char>>) -> Seq<
    char,
> {
    let counts = crate::text::decimal(files) + " 个文件、"@ + crate::text::decimal(directories)
        + " 个目录；"@;
    if reports == 0 {
        "索引失败："@ + crate::text::joined(failures, "；"@)
    } else if failures.len() == 0 {
        "索引完成："@ + counts + "现在可以搜索名称、扩展名或多个关键词。"@
    } else {
        "部分索引完成："@ + counts + crate::text::joined(failures, "；"@)
    }
}

/// What the user is told after the machine was indexed.
pub fn machine_index_summary(reports: &Vec<ScanReport>, failures: &Vec<String>) -> (message: String)
    requires
        total_files(reports@) <= u64::MAX,
        total_directories(reports@) <= u64::MAX,
    ensures
        message@ == summary(
            total_files(reports@),
            total_directories(reports@),
            reports@.len(),
            crate::text::views(failures@),
        ),
{
    let mut files: u64 = 0;
    let mut directories: u64 = 0;
    let mut i: usize = 0;
    while i < reports.len()
        invariant
            i <= reports.len(),
            total_files(reports@) <= u64::MAX,
            total_directories(reports@) <= u64::MAX,
            files == total_files(reports@.take(i as int)),
            directories == total_directories(reports@.take(i as int)),
        decreases reports.len() - i,
    {
        proof {
            assert(reports@.take(i + 1).drop_last() =~= reports@.take(i as int));
            lemma_totals(reports@, i + 1);
        }
        files += reports[i].indexed_files;
        directories += reports[i].indexed_directories;
        i += 1;
    }
    assert(reports@.take(i as int) =~= reports@);
    let mut counts = to_decimal(files);
    counts.append(" 个文件、");
    counts.append(to_decimal(directories).as_str());
    counts.append(" 个目录；");
    if reports.len() == 0 {
        concat("索引失败：", join(failures.as_slice(), "；").as_str())
    } else if failures.len() == 0 {
        let mut message = concat("索引完成：", counts.as_str());
        message.append("现在可以搜索名称、扩展名或多个关键词。");
        message
    } else {
        let mut message = concat("部分索引完成：", counts.as_str());
        message.append(join(failures.as_slice(), "；").as_str());
        message
    }
}

} // verus!

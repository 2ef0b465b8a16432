//! What holds of what is shown, and of when the index is kept up to date.
use crate::errors::{IoError, SearchError, SearchErrorView};
use crate::index::{IndexView, ScanReport};
use crate::maintenance::{
    BatchOutcome, BatchView, ChangeEvent, EventBatch, ScanEvent, ScanStep, Schedule, VolumeAction,
    WatchEvent, WatchStep,
};
use crate::overview::{AutoStateView, IndexStatus, ListedView};
use crate::search::ItemView;
use crate::search_ui::{OpenStep, PanelCommand, SearchWindowLifecycle};
use crate::startup::{GuiStart, OutcomeStep};
use vstd::prelude::*;

verus! {

// ---------------------------------------------------------------------------
// Keeping up to date
// ---------------------------------------------------------------------------

/// What is done with a volume: it is read as a whole where it is not known or not recorded; else
/// its journal is read where it is followed; else it is only watched where it was read as a whole
/// less than six hours ago without a journal and nothing forces more.
pub proof fn law_what_is_done_with_a_volume(
    volume: char,
    root: Option<ListedView>,
    state: Option<AutoStateView>,
    now: i64,
    force_non_usn: bool,
)
    ensures
        ({
            let action = crate::maintenance::action_for(volume, root, state, now, force_non_usn);
            let known = root is Some && state is Some;
            let recent = now - state->0.record.last_reconcile_unix_ms < 6 * 60 * 60 * 1000
                && state->0.record.last_reconcile_unix_ms > i64::MIN;
            &&& action == VolumeAction::SyncUsn(volume) <==> known && root->0.uses_ntfs_usn
            &&& action == VolumeAction::WatchOnly(volume) <==> known && !root->0.uses_ntfs_usn
                && !state->0.record.uses_ntfs_usn && recent && !force_non_usn
            &&& action == VolumeAction::FullSnapshot(volume) <==> !known || (
            !root->0.uses_ntfs_usn && (state->0.record.uses_ntfs_usn || !recent || force_non_usn))
        }),
{
}

/// Each volume has one action, under its letter in upper case, by what is known of the root of that
/// letter.
pub proof fn law_each_volume_has_one_action(
    volumes: Seq<char>,
    roots: Seq<ListedView>,
    states: Seq<AutoStateView>,
    now: i64,
    force_non_usn: bool,
    i: int,
)
    requires
        0 <= i < volumes.len(),
    ensures
        ({
            let actions = crate::maintenance::planned(volumes, roots, states, now, force_non_usn);
            let volume = crate::text::ascii_upper(volumes[i]);
            let name = seq![volume, ':', '/'];
            &&& actions.len() == volumes.len()
            &&& actions[i] == crate::maintenance::action_for(
                volume,
                crate::maintenance::listed_last(roots, name),
                crate::maintenance::state_last(states, name),
                now,
                force_non_usn,
            )
        }),
{
}

/// What is known of a root is what was listed of it last; of a root that was not listed nothing is.
pub proof fn law_last_listed_root_counts(
    roots: Seq<ListedView>,
    root: ListedView,
    states: Seq<AutoStateView>,
    state: AutoStateView,
    name: Seq<char>,
)
    ensures
        crate::maintenance::listed_last(roots.push(root), root.root) == Some(root),
        name != root.root ==> crate::maintenance::listed_last(roots.push(root), name)
            == crate::maintenance::listed_last(roots, name),
        crate::maintenance::listed_last(Seq::empty(), name) is None,
        crate::maintenance::state_last(states.push(state), state.root) == Some(state),
        name != state.root ==> crate::maintenance::state_last(states.push(state), name)
            == crate::maintenance::state_last(states, name),
        crate::maintenance::state_last(Seq::empty(), name) is None,
{
    assert(roots.push(root).drop_last() =~= roots);
    assert(states.push(state).drop_last() =~= states);
}

/// A path that is reported is collected once, behind those that were there before: a path that is
/// compared alike with one of them is not collected again.
pub proof fn law_paths_are_collected_once(
    paths: Seq<Seq<char>>,
    more: Seq<Seq<char>>,
    path: Seq<char>,
)
    ensures
        ({
            let before = crate::maintenance::with_paths(paths, more);
            let after = crate::maintenance::with_paths(paths, more.push(path));
            let known = exists|i: int|
                0 <= i < before.len() && crate::paths::compared_path(#[trigger] before[i])
                    == crate::paths::compared_path(path);
            &&& known ==> after == before
            &&& !known ==> after == before.push(path)
            &&& crate::maintenance::with_paths(paths, Seq::empty()) == paths
        }),
{
    assert(more.push(path).drop_last() =~= more);
    let before = crate::maintenance::with_paths(paths, more);
    let compared = crate::maintenance::compared_paths(before);
    let target = crate::paths::compared_path(path);
    if compared.contains(target) {
        let i = choose|i: int| 0 <= i < compared.len() && compared[i] == target;
        assert(crate::paths::compared_path(before[i]) == target);
    }
    if exists|i: int|
        0 <= i < before.len() && crate::paths::compared_path(#[trigger] before[i]) == target {
        let i = choose|i: int|
            0 <= i < before.len() && crate::paths::compared_path(#[trigger] before[i]) == target;
        assert(compared[i] == target);
    }
}

/// An event that asks for a new scan forces one, whatever else it is; an event of a mere access
/// changes nothing; every other one adds its paths.
pub proof fn law_what_an_event_does(batch: BatchView, event: ChangeEvent)
    ensures
        event.needs_rescan ==> batch.after(event).force_reconcile && batch.after(event).paths
            == batch.paths,
        !event.needs_rescan && event.is_access ==> batch.after(event) == batch,
        !event.needs_rescan && !event.is_access ==> batch.after(event).force_reconcile
            == batch.force_reconcile && batch.after(event).paths == crate::maintenance::with_paths(
            batch.paths,
            crate::text::views(event.paths@),
        ),
        batch.force_reconcile ==> batch.after(event).force_reconcile,
{
}

/// A root is refreshed exactly if it is not followed and something changed below it, and with
/// exactly that.
pub proof fn law_which_roots_are_refreshed(
    roots: Seq<ListedView>,
    root: ListedView,
    paths: Seq<Seq<char>>,
)
    ensures
        ({
            let changed = crate::refresh::parts_below(root.root, paths);
            let before = crate::maintenance::refreshed_roots(roots, paths);
            let after = crate::maintenance::refreshed_roots(roots.push(root), paths);
            &&& !root.uses_ntfs_usn && changed.len() > 0 ==> after == before.push(
                (root.root, changed),
            )
            &&& root.uses_ntfs_usn || changed.len() == 0 ==> after == before
            &&& crate::maintenance::refreshed_roots(Seq::empty(), paths).len() == 0
        }),
{
    assert(roots.push(root).drop_last() =~= roots);
}

/// Each changed path within a root is refreshed by its part below that root, in the order of the
/// paths; the root itself by the empty part. Paths outside are passed over.
pub proof fn law_changes_are_told_by_their_part_below(
    root: Seq<char>,
    paths: Seq<Seq<char>>,
    path: Seq<char>,
    rest: Seq<char>,
)
    ensures
        ({
            let top = crate::paths::compared_path(root);
            let place = crate::paths::compared_path(path);
            let before = crate::refresh::parts_below(root, paths);
            let after = crate::refresh::parts_below(root, paths.push(path));
            &&& !crate::paths::within(place, top) ==> after == before
            &&& place == top ==> after == before.push(Seq::empty())
            &&& top.len() > 0 && top.last() != '/' && place == top + seq!['/'] + rest ==> after
                == before.push(rest)
            &&& top.len() > 0 && top.last() == '/' && rest.len() > 0 && place == top + rest ==> after
                == before.push(rest)
            &&& crate::refresh::parts_below(root, Seq::empty()).len() == 0
        }),
{
    assert(paths.push(path).drop_last() =~= paths);
    let top = crate::paths::compared_path(root);
    let place = crate::paths::compared_path(path);
    if top.len() > 0 {
        crate::path_laws::law_within_is_the_same_or_behind_a_slash(place, top, rest);
        if top.last() != '/' && place == top + seq!['/'] + rest {
            assert(place.skip(top.len() as int + 1) =~= rest);
        }
        if top.last() == '/' && place == top + rest {
            assert(place.skip(top.len() as int) =~= rest);
        }
    }
}

/// What comes later is later by as much as was asked for, as far as there are numbers.
pub proof fn law_later_is_later(now: u64, duration: int)
    requires
        duration >= 0,
    ensures
        crate::maintenance::later(now, duration) >= now,
        now + duration <= 0xffff_ffff_ffff_ffff ==> crate::maintenance::later(now, duration) == now
            + duration,
{
}

// ---------------------------------------------------------------------------
// The window
// ---------------------------------------------------------------------------

/// The panel shows every result in one row with its name and its path, and knows the path of each
/// row.
pub proof fn law_panel_shows_every_result(
    query: Seq<char>,
    items: Seq<ItemView>,
    status: Result<IndexStatus, SearchError>,
    i: int,
)
    requires
        0 <= i < items.len(),
    ensures
        ({
            let panel = crate::search_ui::panel_for(query, Ok(items), status);
            &&& panel.rows.len() == items.len()
            &&& panel.paths.len() == items.len()
            &&& panel.paths[i] == items[i].path
            &&& crate::text::starts_with(panel.rows[i], items[i].name)
            &&& crate::text::ends_with(panel.rows[i], items[i].path)
            &&& crate::text::contains(panel.hint, crate::text::decimal(items.len()))
        }),
{
    let row = crate::search_ui::row_of(items[i]);
    let name = items[i].name;
    let path = items[i].path;
    assert(row.subrange(0, name.len() as int) =~= name);
    assert(row.subrange(row.len() - path.len(), row.len() as int) =~= path);
    let number = crate::text::decimal(items.len());
    crate::text_laws::law_part_has_something_around_it(
        "找到 "@ + number + " 项；双击结果可在资源管理器中定位。"@,
        number,
    );
}

/// Without results the panel shows no rows: after a failure the error, else that nothing was found,
/// with what was searched for, or that there is no index yet.
pub proof fn law_panel_without_results_says_why(
    query: Seq<char>,
    error: SearchErrorView,
    status: Result<IndexStatus, SearchError>,
)
    ensures
        ({
            let failed = crate::search_ui::panel_for(query, Err(error), status);
            let empty = crate::search_ui::panel_for(query, Ok(Seq::empty()), status);
            &&& failed.rows.len() == 0 && failed.paths.len() == 0
            &&& crate::text::ends_with(failed.hint, error.wording())
            &&& empty.rows.len() == 0 && empty.paths.len() == 0
            &&& (status matches Ok(known) && known.roots == 0) ==> empty.hint
                == crate::search_ui::no_index_hint()
            &&& !(status matches Ok(known) && known.roots == 0) ==> crate::text::contains(
                empty.hint,
                query,
            )
            &&& status matches Err(problem) ==> crate::text::ends_with(
                empty.hint,
                problem@.wording(),
            )
        }),
{
    let words = error.wording();
    let hint = "搜索失败："@ + words;
    assert(hint.subrange(hint.len() - words.len(), hint.len() as int) =~= words);
    crate::text_laws::law_part_has_something_around_it(
        "没有找到“"@ + query + "”；可换个名称关键词或扩展名。"@,
        query,
    );
    if let Err(problem) = status {
        let detail = problem@.wording();
        let text = "没有找到“"@ + query + "”；索引状态读取失败："@ + detail;
        let behind = "”；索引状态读取失败："@ + detail;
        assert(text =~= "没有找到“"@ + query + behind);
        crate::text_laws::law_part_has_something_around_it(text, query);
        assert(text.subrange(text.len() - detail.len(), text.len() as int) =~= detail);
    }
}

/// Before a search the panel says how many files and directories are known, or that there is no
/// index yet, or what went wrong.
pub proof fn law_idle_panel_counts(status: IndexStatus, error: SearchError)
    ensures
        status.roots == 0 ==> crate::search_ui::idle_wording(Ok(status))
            == crate::search_ui::no_index_hint(),
        status.roots > 0 ==> crate::text::starts_with(
            crate::search_ui::idle_wording(Ok(status)),
            "已索引 "@ + crate::text::decimal(status.indexed_files as nat) + " 个文件、"@
                + crate::text::decimal(status.indexed_directories as nat) + " 个目录"@,
        ),
        crate::text::ends_with(crate::search_ui::idle_wording(Err(error)), error@.wording()),
{
    let words = error@.wording();
    let hint = "暂时无法读取索引状态："@ + words;
    assert(hint.subrange(hint.len() - words.len(), hint.len() as int) =~= words);
    reveal_strlit(" 个目录；输入关键词后点击“搜索”。");
    reveal_strlit(" 个目录");
    reveal_strlit("；输入关键词后点击“搜索”。");
    assert(" 个目录；输入关键词后点击“搜索”。"@ =~= " 个目录"@ + "；输入关键词后点击“搜索”。"@);
    let front = "已索引 "@ + crate::text::decimal(status.indexed_files as nat) + " 个文件、"@
        + crate::text::decimal(status.indexed_directories as nat);
    let whole = front + (" 个目录"@ + "；输入关键词后点击“搜索”。"@);
    let head = front + " 个目录"@;
    assert(whole.subrange(0, head.len() as int) =~= head);
}

/// The search that the panel makes is for at most a hundred results, anywhere.
pub proof fn law_panel_asks_for_a_hundred_results(query: Seq<char>)
    ensures
        ({
            let request = crate::search_ui::panel_request(query);
            request.query == query && request.limit == 100 && request.root is None
        }),
{
}

/// A window is opened once: while it is there it is brought forward, while it is being opened
/// nothing is done, and else it is opened under a new number.
pub proof fn law_window_is_opened_once(window: SearchWindowLifecycle, hwnd: i64, generation: u64)
    ensures
        ({
            let (after, step) = crate::search_ui::opened(window);
            &&& window.hwnd != 0 ==> step == OpenStep::Focus(window.hwnd) && after == window
            &&& window.hwnd == 0 && window.opening ==> step is Wait && after == window
            &&& window.hwnd == 0 && !window.opening ==> {
                &&& step == OpenStep::Launch(after.generation)
                &&& after.opening
                &&& after.hwnd == 0
                &&& after.generation != window.generation
                &&& window.generation < u64::MAX ==> after.generation == window.generation + 1
            }
        }),
        generation != window.generation ==> crate::search_ui::created(window, generation, hwnd)
            == window && crate::search_ui::launch_over(window, generation) == window,
        crate::search_ui::created(window, window.generation, hwnd).hwnd == hwnd,
        !crate::search_ui::created(window, window.generation, hwnd).opening,
        hwnd != window.hwnd ==> crate::search_ui::destroyed(window, hwnd) == window,
        crate::search_ui::destroyed(window, window.hwnd).hwnd == 0,
        window.hwnd != 0 ==> crate::search_ui::launch_over(window, window.generation) == window,
        window.hwnd == 0 ==> !crate::search_ui::launch_over(window, window.generation).opening,
{
}

/// The widest row decides how far can be scrolled, and no other.
pub proof fn law_longest_row_is_the_longest(rows: Seq<Seq<char>>)
    ensures
        forall|i: int|
            0 <= i < rows.len() ==> crate::utf16::units_of(#[trigger] rows[i]).len()
                <= crate::search_ui::longest_row(rows),
        rows.len() > 0 ==> exists|i: int|
            0 <= i < rows.len() && crate::utf16::units_of(#[trigger] rows[i]).len()
                == crate::search_ui::longest_row(rows),
        rows.len() == 0 ==> crate::search_ui::longest_row(rows) == 0,
    decreases rows.len(),
{
    if rows.len() > 0 {
        let front = rows.drop_last();
        law_longest_row_is_the_longest(front);
        let last = rows.len() - 1;
        let longest = crate::search_ui::longest_row(rows);
        assert forall|i: int| 0 <= i < rows.len() implies crate::utf16::units_of(
            #[trigger] rows[i],
        ).len() <= longest by {
            if i < last {
                assert(rows[i] == front[i]);
            }
        }
        if longest == crate::utf16::units_of(rows.last()).len() {
            assert(crate::utf16::units_of(rows[last]).len() == longest);
        } else {
            let i = choose|i: int|
                0 <= i < front.len() && crate::utf16::units_of(#[trigger] front[i]).len()
                    == crate::search_ui::longest_row(front);
            assert(crate::utf16::units_of(rows[i]).len() == longest);
        }
    }
}

/// The buttons start what they say, and a double click on a row shows where it lies; nothing else
/// does anything.
pub proof fn law_what_commands_do(control: int, notification: int)
    ensures
        crate::search_ui::command_for(control, notification) is Search <==> control == 2
            && notification == 0,
        crate::search_ui::command_for(control, notification) is StartIndex <==> control == 5
            && notification == 0,
        crate::search_ui::command_for(control, notification) is Reveal <==> control == 3
            && notification == 2,
        crate::search_ui::command_for(control, notification) is Nothing <==> !(control == 2
            && notification == 0) && !(control == 5 && notification == 0) && !(control == 3
            && notification == 2),
{
}

/// The path that the system is given has backslashes for slashes and is else the same.
pub proof fn law_native_path_has_backslashes(a: Seq<char>, b: Seq<char>)
    ensures
        crate::search_ui::native_path(a + seq!['/'] + b) == crate::search_ui::native_path(a) + seq![
            '\\',
        ] + crate::search_ui::native_path(b),
        !a.contains('/') ==> crate::search_ui::native_path(a) == a,
        !a.contains('\\') ==> crate::paths::storage_path(crate::search_ui::native_path(a)) == a,
{
    assert(crate::search_ui::native_path(a + seq!['/'] + b) =~= crate::search_ui::native_path(a)
        + seq!['\\'] + crate::search_ui::native_path(b));
    crate::text_laws::law_replacing_changes_one_character(a, b, '/', '\\');
    if !a.contains('\\') {
        let native = crate::search_ui::native_path(a);
        assert forall|i: int| 0 <= i < a.len() implies crate::paths::storage_path(native)[i]
            == a[i] by {
            assert(a.contains(a[i]));
        }
        assert(crate::paths::storage_path(native) =~= a);
    }
}

/// The totals count every report.
pub proof fn law_totals_count_every_report(reports: Seq<ScanReport>, report: ScanReport)
    ensures
        crate::search_ui::total_files(reports.push(report)) == crate::search_ui::total_files(reports)
            + report.indexed_files,
        crate::search_ui::total_directories(reports.push(report))
            == crate::search_ui::total_directories(reports) + report.indexed_directories,
        crate::search_ui::total_files(Seq::empty()) == 0,
        crate::search_ui::total_directories(Seq::empty()) == 0,
{
    assert(reports.push(report).drop_last() =~= reports);
}

/// The summary begins by saying whether all, some or none of the volumes could be read, and names
/// every failure.
pub proof fn law_summary_tells_of_failures(
    files: nat,
    directories: nat,
    reports: nat,
    failures: Seq<Seq<char>>,
)
    ensures
        ({
            let text = crate::search_ui::summary(files, directories, reports, failures);
            let told = crate::text::joined(failures, "；"@);
            let counts = crate::text::decimal(files) + " 个文件、"@ + crate::text::decimal(
                directories,
            ) + " 个目录；"@;
            &&& reports == 0 ==> crate::text::starts_with(text, "索引失败："@)
            &&& reports > 0 && failures.len() == 0 ==> crate::text::starts_with(
                text,
                "索引完成："@ + counts,
            )
            &&& reports > 0 && failures.len() > 0 ==> crate::text::starts_with(
                text,
                "部分索引完成："@ + counts,
            )
            &&& reports == 0 || failures.len() > 0 ==> crate::text::ends_with(text, told)
        }),
{
    let text = crate::search_ui::summary(files, directories, reports, failures);
    let told = crate::text::joined(failures, "；"@);
    let counts = crate::text::decimal(files) + " 个文件、"@ + crate::text::decimal(directories)
        + " 个目录；"@;
    if reports == 0 {
        let head = "索引失败："@;
        assert(text.subrange(0, head.len() as int) =~= head);
        assert(text.subrange(text.len() - told.len(), text.len() as int) =~= told);
    } else if failures.len() == 0 {
        let head = "索引完成："@ + counts;
        assert(text.subrange(0, head.len() as int) =~= head);
    } else {
        let head = "部分索引完成："@ + counts;
        assert(text.subrange(0, head.len() as int) =~= head);
        assert(text.subrange(text.len() - told.len(), text.len() as int) =~= told);
    }
}

// ---------------------------------------------------------------------------
// Starting
// ---------------------------------------------------------------------------

/// The window opens without arguments, the service starts with the one argument for it, and every
/// other argument is explained.
pub proof fn law_what_arguments_start(arguments: Seq<Seq<char>>)
    ensures
        crate::startup::gui_start_of(arguments) is Window <==> arguments.len() <= 1,
        crate::startup::gui_start_of(arguments) is Background <==> arguments.len() == 2
            && arguments[1] == "--background"@,
        crate::startup::gui_start_of(arguments) == GuiStart::Usage <==> arguments.len() > 2 || (
        arguments.len() == 2 && arguments[1] != "--background"@),
{
}

/// A letter is that of a fixed volume exactly if the system lists it and says that it is fixed; the
/// letters come in their order.
pub proof fn law_which_volumes_are_fixed(mask: u32, kinds: Seq<u32>, count: nat, position: int)
    requires
        count <= 26,
        0 <= position < 26,
    ensures
        ({
            let letters = crate::startup::fixed_letters(mask, kinds, count);
            let letter = (65 + position) as u8 as char;
            &&& letters.contains(letter) <==> position < count && (mask >> (position as u32)) & 1
                == 1 && kinds[position] == 3
            &&& forall|i: int|
                0 <= i < letters.len() ==> 'A' <= #[trigger] letters[i] && (letters[i] as int) < 65
                    + count
            &&& forall|i: int, j: int|
                0 <= i < j < letters.len() ==> (#[trigger] letters[i]) < (#[trigger] letters[j])
        }),
    decreases count,
{
    let letter = (65 + position) as u8 as char;
    let letters = crate::startup::fixed_letters(mask, kinds, count);
    if count > 0 {
        law_which_volumes_are_fixed(mask, kinds, (count - 1) as nat, position);
        let front = crate::startup::fixed_letters(mask, kinds, (count - 1) as nat);
        let last = crate::startup::letter(count - 1);
        assert(letters == front || letters == front.push(last));
        if letters == front.push(last) {
            assert(letters.last() == last);
            if front.contains(letter) {
                let i = choose|i: int| 0 <= i < front.len() && front[i] == letter;
                assert(letters[i] == letter);
            }
            if letters.contains(letter) {
                let i = choose|i: int| 0 <= i < letters.len() && letters[i] == letter;
                if i < front.len() {
                    assert(front[i] == letter);
                    assert(front.contains(letter));
                } else {
                    assert(last as int == 65 + count - 1);
                    assert(letter as int == 65 + position);
                    assert(position == count - 1);
                }
            }
            if position == count - 1 {
                assert(letters[front.len() as int] == letter);
            }
        } else if position == count - 1 && front.contains(letter) {
            let i = choose|i: int| 0 <= i < front.len() && front[i] == letter;
            assert((front[i] as int) < 65 + count - 1);
        }
    }
}

/// The tray says how many files, directories and roots are known, and how many roots have to be
/// read again where there are any.
pub proof fn law_tray_counts(status: IndexStatus)
    ensures
        ({
            let text = crate::tray::status_wording(Ok(status));
            let counts = "待命："@ + crate::text::decimal(status.indexed_files as nat) + " 文件，"@
                + crate::text::decimal(status.indexed_directories as nat) + " 目录，"@
                + crate::text::decimal(status.roots as nat) + " 根目录"@;
            &&& crate::text::starts_with(text, counts)
            &&& status.incomplete_roots == 0 ==> text.len() == counts.len()
            &&& status.incomplete_roots > 0 ==> crate::text::ends_with(
                text,
                crate::text::decimal(status.incomplete_roots as nat) + " 根需重建"@,
            )
        }),
{
    let text = crate::tray::status_wording(Ok(status));
    let counts = "待命："@ + crate::text::decimal(status.indexed_files as nat) + " 文件，"@
        + crate::text::decimal(status.indexed_directories as nat) + " 目录，"@
        + crate::text::decimal(status.roots as nat) + " 根目录"@;
    assert(text.subrange(0, counts.len() as int) =~= counts);
    if status.incomplete_roots > 0 {
        let tail = crate::text::decimal(status.incomplete_roots as nat) + " 根需重建"@;
        assert(text =~= counts + "；"@ + tail);
        assert(text.subrange(text.len() - tail.len(), text.len() as int) =~= tail);
    }
}

/// The icon is opaque everywhere, the same along its four edges, and the same in all of its inside,
/// which differs from the edges.
pub proof fn law_icon_has_an_edge(x: int, y: int)
    requires
        0 <= x < 16,
        0 <= y < 16,
    ensures
        ({
            let at = 4 * (16 * y + x);
            let icon = crate::tray::icon_bytes();
            let edge = x == 0 || y == 0 || x == 15 || y == 15;
            &&& icon.len() == 16 * 16 * 4
            &&& icon.subrange(at, at + 4) == (if edge {
                seq![17u8, 110, 158, 255]
            } else {
                seq![12u8, 155, 214, 255]
            })
        }),
{
    let at = 4 * (16 * y + x);
    let icon = crate::tray::icon_bytes();
    let pixel = crate::tray::pixel(x, y);
    assert forall|k: int| 0 <= k < 4 implies #[trigger] icon[at + k] == pixel[k] by {
        assert((at + k) / 4 == 16 * y + x);
        assert((at + k) % 4 == k);
        assert((16 * y + x) % 16 == x);
        assert((16 * y + x) / 16 == y);
    }
    assert(icon.subrange(at, at + 4) =~= pixel);
}

/// An error names what it is about: the path and what was wrong with it.
pub proof fn law_errors_name_what_they_are_about(path: Seq<char>, detail: Seq<char>)
    ensures
        crate::text::ends_with(
            (SearchErrorView::Io { path, source: detail }).wording(),
            path + ": "@ + detail,
        ),
        crate::text::ends_with(SearchErrorView::Database(detail).wording(), detail),
        crate::text::ends_with(SearchErrorView::NotDirectory(path).wording(), path),
{
    let io = (SearchErrorView::Io { path, source: detail }).wording();
    let tail = path + ": "@ + detail;
    assert(io.subrange(io.len() - tail.len(), io.len() as int) =~= tail);
    let database = SearchErrorView::Database(detail).wording();
    assert(database.subrange(database.len() - detail.len(), database.len() as int) =~= detail);
    let directory = SearchErrorView::NotDirectory(path).wording();
    assert(directory.subrange(directory.len() - path.len(), directory.len() as int) =~= path);
}

/// What the panel searches for is what was typed without the spaces at its ends; where nothing is
/// left, it says what is known.
pub proof fn law_panel_searches_for_what_was_typed(
    index: crate::index::IndexView,
    input: Seq<char>,
    view: crate::search_ui::PanelView,
)
    requires
        crate::search_ui::shows(index, input, view),
    ensures
        crate::text::trimmed(input).len() == 0 ==> view.rows.len() == 0 && view.paths.len() == 0,
        view.rows.len() == view.paths.len() <= 100,
        crate::text::trimmed(input).len() > 512 ==> view.rows.len() == 0,
{
    let query = crate::text::trimmed(input);
    let status = choose|status: IndexStatus| #[trigger]
        index.has_status(status) && if query.len() == 0 {
            view == crate::search_ui::only_hint(crate::search_ui::idle_wording(Ok(status)))
        } else {
            exists|result: Result<Seq<ItemView>, SearchErrorView>| #[trigger]
                index.answers(
                    crate::search_ui::panel_request(query),
                    crate::normalize::normalized(query),
                    result,
                ) && view == crate::search_ui::panel_for(query, result, Ok(status))
        };
    if query.len() > 0 {
        let result = choose|result: Result<Seq<ItemView>, SearchErrorView>| #[trigger]
            index.answers(
                crate::search_ui::panel_request(query),
                crate::normalize::normalized(query),
                result,
            ) && view == crate::search_ui::panel_for(query, result, Ok(status));
        crate::result_laws::law_requests_are_answered_within_their_limits(
            index,
            crate::search_ui::panel_request(query),
            crate::normalize::normalized(query),
            result,
        );
    }
}

/// A place is known by its corner and its size, and the larger of two numbers is one of them and
/// not below either.
pub proof fn law_places_are_known_by_corner_and_size(
    place: crate::search_ui::Place,
    x: int,
    y: int,
    width: int,
    height: int,
)
    ensures
        crate::search_ui::lies(place, x, y, width, height) <==> (
            place.x as int,
            place.y as int,
            place.width as int,
            place.height as int,
        ) == (x, y, width, height),
        crate::search_ui::larger(x, y) >= x,
        crate::search_ui::larger(x, y) >= y,
        crate::search_ui::larger(x, y) == x || crate::search_ui::larger(x, y) == y,
{
}

/// A directory that is given in full is looked up as it is given; else it is looked up where the
/// system says that it lies, and a failure names the directory.
pub proof fn law_where_a_directory_is_looked_up(
    root: Seq<char>,
    path: Seq<char>,
    error: crate::errors::IoErrorView,
    joined: Result<Seq<char>, crate::errors::IoErrorView>,
)
    ensures
        crate::startup::looked_up(root, true, joined) == Ok::<Seq<char>, SearchErrorView>(root),
        crate::startup::looked_up(root, false, Ok(path)) == Ok::<Seq<char>, SearchErrorView>(path),
        crate::startup::looked_up(root, false, Err(error)) == Err::<Seq<char>, SearchErrorView>(
            SearchErrorView::Io { path: root, source: error.message },
        ),
{
}

/// Which events mean that changes were missed.
pub proof fn law_which_events_miss_changes(event: crate::maintenance::WatchEvent)
    ensures
        event is Started || event is ReconcileDue || event is Reported || event is Quiet
            || event is Disconnected || event is Refreshed
            <==> !crate::maintenance::misses_changes(event),
{
}

// ---------------------------------------------------------------------------
// What functions return
// ---------------------------------------------------------------------------

/// The parts of the window stand side by side and one below the other, with a margin of 14 all
/// around: nothing overlaps, and the last of each row and column reaches to the margin.
pub proof fn law_parts_of_the_window_do_not_overlap(
    width: i32,
    height: i32,
    layout: crate::search_ui::Layout,
)
    requires
        call_ensures(crate::search_ui::layout, (width, height), layout),
    ensures
        layout.input.x == 14,
        layout.input.x + layout.input.width + 14 == layout.button.x,
        layout.button.x + layout.button.width + 14 == layout.index_button.x,
        layout.input.y == layout.button.y == layout.index_button.y,
        layout.input.height == layout.button.height == layout.index_button.height,
        width >= 436 ==> layout.index_button.x + layout.index_button.width + 14 == width,
        layout.input.y + layout.input.height < layout.status.y,
        layout.status.y + layout.status.height < layout.results.y,
        layout.status.x == 14 && layout.results.x == 14,
        width >= 300 ==> layout.status.x + layout.status.width + 14 == width,
        width >= 300 ==> layout.results.x + layout.results.width + 14 == width,
        height >= 180 ==> layout.results.y + layout.results.height + 14 == height,
        layout.input.width >= 120,
        layout.status.width >= 272,
        layout.results.height >= 50,
{
}

/// The rows can be scrolled by eight for each unit of the longest one.
pub proof fn law_rows_can_be_scrolled_to_their_end(
    rows: Vec<String>,
    row: int,
    extent: usize,
)
    requires
        call_ensures(crate::search_ui::horizontal_extent, (&rows,), extent),
        0 <= row < rows@.len(),
    ensures
        crate::utf16::units_of(rows@[row]@).len() * 8 <= extent || extent == usize::MAX,
{
    let views = crate::text::views(rows@);
    law_longest_row_is_the_longest(views);
    assert(views[row] == rows@[row]@);
}

/// A command is told by the lower half of its parameter, the control, and the half above it.
pub proof fn law_commands_are_told_by_two_halves(
    control: u16,
    notification: u16,
    rest: u32,
    command: PanelCommand,
)
    requires
        call_ensures(
            crate::search_ui::decode_command,
            ((control + 0x1_0000 * notification + 0x1_0000_0000 * rest) as u64,),
            command,
        ),
    ensures
        command == crate::search_ui::command_for(control as int, notification as int),
{
    let parameter = (control + 0x1_0000 * notification + 0x1_0000_0000 * rest) as u64;
    assert(parameter % 0x1_0000 == control);
    assert(parameter / 0x1_0000 % 0x1_0000 == notification);
}

/// A row that is selected has the path at its place, and without a selection there is none.
pub proof fn law_selected_row_has_its_path(
    paths: Vec<String>,
    selected: i64,
    path: Option<&String>,
)
    requires
        call_ensures(crate::search_ui::selected_path, (&paths, selected), path),
    ensures
        0 <= selected < paths@.len() ==> path == Some(&paths@[selected as int]),
        selected < 0 || selected >= paths@.len() ==> path is None,
{
}

/// What is there is shown selected; of what is gone the directory is shown that it lay in, where
/// there is one.
pub proof fn law_what_is_shown_of_a_path(
    path: &str,
    present: bool,
    parent: Option<&str>,
    arguments: Vec<String>,
)
    requires
        call_ensures(crate::search_ui::explorer_arguments, (path, present, parent), arguments),
    ensures
        present ==> arguments@.len() == 2 && arguments@[0]@ == "/select,"@ && arguments@[1]@
            == crate::search_ui::native_path(path@),
        !present && parent is None ==> arguments@.len() == 1 && arguments@[0]@
            == crate::search_ui::native_path(path@),
        !present && parent is Some ==> arguments@.len() == 1 && arguments@[0]@
            == crate::search_ui::native_path(parent->0@),
{
    let views = crate::text::views(arguments@);
    assert(views.len() == arguments@.len());
    assert(arguments@.len() > 0 ==> views[0] == arguments@[0]@);
    assert(arguments@.len() > 1 ==> views[1] == arguments@[1]@);
}

/// Changes that were missed force a full scan, a start or a due scan does not force one, and a
/// queue that is gone ends the watch.
pub proof fn law_what_the_watch_does(event: WatchEvent, step: WatchStep)
    requires
        call_ensures(crate::maintenance::watch_step, (event,), step),
    ensures
        event is QueueOverflowed || event is ReportFailed || event is ChangesMissed
            || event is RefreshFailed ==> step == (WatchStep::Reconcile { force_non_usn: true }),
        event is Started || event is ReconcileDue ==> step == (WatchStep::Reconcile {
            force_non_usn: false,
        }),
        event is Reported ==> step is Collect,
        event is Quiet || event is Refreshed ==> step is GoOn,
        event is Disconnected ==> step is Stop,
{
}

/// A volume is read from its table; where that fails by a walk; and where that fails too both
/// errors are told.
pub proof fn law_what_a_full_scan_does(
    report: ScanReport,
    table_error: SearchError,
    walk_error: SearchError,
    read: ScanStep,
    unread: ScanStep,
    walked: ScanStep,
    failed: ScanStep,
)
    requires
        call_ensures(crate::maintenance::full_scan_step, (ScanEvent::Table(Ok(report)),), read),
        call_ensures(
            crate::maintenance::full_scan_step,
            (ScanEvent::Table(Err(table_error)),),
            unread,
        ),
        call_ensures(
            crate::maintenance::full_scan_step,
            (ScanEvent::Walk { table_error, result: Ok(report) },),
            walked,
        ),
        call_ensures(
            crate::maintenance::full_scan_step,
            (ScanEvent::Walk { table_error, result: Err(walk_error) },),
            failed,
        ),
    ensures
        read == ScanStep::Record(report),
        unread == (ScanStep::Walk { table_error }),
        walked == ScanStep::Record(report),
        failed == (ScanStep::Done { table_error, walk_error }),
{
}

/// A batch of changes is refreshed path by path as long as none was missed and there are fewer than
/// twenty thousand; else everything is scanned.
pub proof fn law_what_a_batch_leads_to(batch: EventBatch, outcome: BatchOutcome)
    requires
        call_ensures(EventBatch::finish, (batch,), outcome),
    ensures
        batch@.force_reconcile || batch@.paths.len() >= 20_000 <==> outcome is Reconcile,
        outcome matches BatchOutcome::Refresh(paths) ==> crate::text::views(paths@) == batch@.paths,
{
}

/// The journals are read every fifteen seconds and everything is reconciled every six hours;
/// between them at most a second is waited at a time, and never beyond what is due next.
pub proof fn law_schedule_keeps_its_times(
    now: u64,
    later: u64,
    schedule: Schedule,
    sync_due: bool,
    reconcile_due: bool,
    wait: u64,
)
    requires
        now < 0x7fff_ffff_ffff_ffff,
        now <= later,
        call_ensures(Schedule::new, (now,), schedule),
        call_ensures(Schedule::usn_sync_due, (&schedule, later), sync_due),
        call_ensures(Schedule::full_reconcile_due, (&schedule, later), reconcile_due),
        call_ensures(Schedule::wait_ms, (&schedule, later), wait),
    ensures
        sync_due <==> later - now >= 15_000,
        reconcile_due <==> later - now >= 6 * 60 * 60 * 1000,
        wait <= 1_000,
        sync_due ==> wait == 0,
        !sync_due ==> later + wait <= now + 15_000,
        later - now <= 14_000 ==> wait == 1_000,
{
}

/// A time is kept where it fits, and the present is zero where it does not.
pub proof fn law_times_are_kept_where_they_fit(ms: u128, kept: Option<i64>, now: i64, never: i64)
    requires
        call_ensures(crate::clock::system_time_to_ms, (ms,), kept),
        call_ensures(crate::clock::current_unix_ms, (Some(ms),), now),
        call_ensures(crate::clock::current_unix_ms, (None,), never),
    ensures
        ms <= 0x7fff_ffff_ffff_ffff ==> kept is Some && kept->0 == ms && now == ms,
        ms > 0x7fff_ffff_ffff_ffff ==> kept is None && now == 0,
        never == 0,
{
}

/// In the tray only failures are shown, and elsewhere both are printed.
pub proof fn law_what_is_made_of_an_outcome(
    succeeded: bool,
    in_tray: bool,
    show_dialogs: bool,
    step: OutcomeStep,
)
    requires
        call_ensures(crate::startup::outcome_step, (succeeded, in_tray, show_dialogs), step),
    ensures
        step is Quiet <==> in_tray && show_dialogs && succeeded,
        step is ShowDialog <==> in_tray && show_dialogs && !succeeded,
        step is Print <==> !(in_tray && show_dialogs) && succeeded,
        step is PrintError <==> !(in_tray && show_dialogs) && !succeeded,
{
}

/// A root is looked up only if it is a directory; else the error says that it is none, or why that
/// could not be told.
pub proof fn law_only_directories_are_roots(
    root: &str,
    is_directory: Result<bool, IoError>,
    absolute: bool,
    joined: Result<String, IoError>,
    result: Result<String, SearchError>,
)
    requires
        call_ensures(
            crate::startup::absolute_root,
            (root, is_directory, absolute, joined),
            result,
        ),
    ensures
        is_directory == Ok::<bool, IoError>(false) ==> (result matches Err(error) && error@
            == SearchErrorView::NotDirectory(root@)),
        is_directory matches Err(problem) ==> (result matches Err(error) && error@ == (
        SearchErrorView::Io { path: root@, source: problem@.message })),
        is_directory == Ok::<bool, IoError>(true) && absolute ==> (result matches Ok(path) && path@
            == root@),
{
}

/// What was indexed is told with its files and directories, and a failure with its error.
pub proof fn law_finished_index_is_told(
    report: ScanReport,
    error: String,
    done: String,
    failed: String,
)
    requires
        call_ensures(crate::tray::index_finished_label, (&Ok(report),), done),
        call_ensures(crate::tray::index_finished_label, (&Err(error),), failed),
    ensures
        crate::text::contains(done@, crate::text::decimal(report.indexed_files as nat)),
        crate::text::contains(done@, crate::text::decimal(report.indexed_directories as nat)),
        crate::text::ends_with(failed@, error@),
{
    let files = crate::text::decimal(report.indexed_files as nat);
    let directories = crate::text::decimal(report.indexed_directories as nat);
    let front = "C: 索引完成："@;
    let middle = " 文件，"@;
    let behind = " 目录"@;
    assert(done@ =~= front + files + (middle + directories + behind));
    crate::text_laws::law_part_has_something_around_it(done@, files);
    assert(done@ =~= (front + files + middle) + directories + behind);
    crate::text_laws::law_part_has_something_around_it(done@, directories);
    assert(failed@.subrange(failed@.len() - error@.len(), failed@.len() as int) =~= error@);
}

/// Recording that a volume was read as a whole changes nothing else of the index, and decides what
/// is done next: a volume that is followed is read from its journal, another one is only watched
/// for the next six hours.
pub proof fn law_recorded_scan_decides_what_is_done_next(
    index: IndexView,
    volume: char,
    now: i64,
    later: i64,
    other: Seq<char>,
)
    requires
        index.roots.contains_key(seq![volume, ':', '/']),
        now > i64::MIN,
    ensures
        ({
            let name = seq![volume, ':', '/'];
            let before = index.roots[name];
            let after = index.with_auto_state(name, before.cursor is Some, now);
            let root = after.roots[name];
            let listed = crate::overview::listed_root(name, root);
            let state = AutoStateView { root: name, record: root.auto_record->0 };
            let next = crate::maintenance::action_for(
                volume,
                Some(listed),
                Some(state),
                later,
                false,
            );
            &&& root.auto_record is Some
            &&& root.auto_record->0.last_reconcile_unix_ms == now
            &&& root.auto_record->0.uses_ntfs_usn == (before.cursor is Some)
            &&& root.tree == before.tree
            &&& root.cursor == before.cursor
            &&& root.complete == before.complete
            &&& root.skipped_entries == before.skipped_entries
            &&& root.last_scan_unix_ms == before.last_scan_unix_ms
            &&& after.last_generation == index.last_generation
            &&& before.cursor is Some ==> next == VolumeAction::SyncUsn(volume)
            &&& before.cursor is None && later - now < 6 * 60 * 60 * 1000 ==> next
                == VolumeAction::WatchOnly(volume)
            &&& before.cursor is None && later - now >= 6 * 60 * 60 * 1000 ==> next
                == VolumeAction::FullSnapshot(volume)
            &&& other != name ==> {
                &&& after.roots.contains_key(other) <==> index.roots.contains_key(other)
                &&& after.roots[other] == index.roots[other]
            }
        }),
        !index.roots.contains_key(other) ==> index.with_auto_state(other, true, now) == index,
{
}

} // verus!

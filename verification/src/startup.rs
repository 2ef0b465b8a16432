//! How the programs start and end.
use crate::errors::{IoError, IoErrorView, SearchError, SearchErrorView};
use crate::text::{concat, same_text};
use vstd::prelude::*;

verus! {

/// How the program with the window starts.
#[derive(Clone, Copy, Debug, PartialEq, Eq, Structural)]
pub enum GuiStart {
    /// In the tray, with the search window open.
    Window,
    /// In the tray alone.
    Background,
    /// Not at all: it is no program for the command line.
    Usage,
}

/// How the program with the window starts, given its arguments with its own name before them.
pub open spec fn gui_start_of(arguments: Seq<Seq<char>>) -> GuiStart {
    if arguments.len() <= 1 {
        GuiStart::Window
    } else if arguments.len() == 2 && arguments[1] == "--background"@ {
        GuiStart::Background
    } else {
        GuiStart::Usage
    }
}

/// How the program with the window starts, given its arguments with its own name before them.
pub fn gui_start(arguments: &Vec<String>) -> (start: GuiStart)
    ensures
        start == gui_start_of(crate::text::views(arguments@)),
{
    if arguments.len() <= 1 {
        GuiStart::Window
    } else if arguments.len() == 2 && same_text(arguments[1].as_str(), "--background") {
        GuiStart::Background
    } else {
        GuiStart::Usage
    }
}

/// What is done with the outcome of a command.
#[derive(Clone, Copy, Debug, PartialEq, Eq, Structural)]
pub enum OutcomeStep {
    /// Nothing: the program was a window.
    Quiet,
    Print,
    /// A message on the screen.
    ShowDialog,
    /// A line on the error output.
    PrintError,
}

/// What is done with the outcome of a command. `in_tray` says that no command was given, so that
/// the program ran in the tray, and `show_dialogs` that it is the program with the window.
pub fn outcome_step(succeeded: bool, in_tray: bool, show_dialogs: bool) -> (step: OutcomeStep)
    ensures
        step == if in_tray && show_dialogs {
            if succeeded {
                OutcomeStep::Quiet
            } else {
                OutcomeStep::ShowDialog
            }
        } else if succeeded {
            OutcomeStep::Print
        } else {
            OutcomeStep::PrintError
        },
{
    if in_tray && show_dialogs {
        if succeeded {
            OutcomeStep::Quiet
        } else {
            OutcomeStep::ShowDialog
        }
    } else if succeeded {
        OutcomeStep::Print
    } else {
        OutcomeStep::PrintError
    }
}

/// The message where the program could not go to the tray.
pub fn tray_failure(message: &str) -> (text: String)
    ensures
        text@ == "金福搜索没有成功进入系统托盘。\n\n"@ + message@
            + "\n\n如果已经运行一个实例，请在时钟旁的 ^ 中检查托盘图标；可先从托盘菜单选择“退出金福搜索”，再重试。"@,
{
    let mut text = concat("金福搜索没有成功进入系统托盘。\n\n", message);
    text.append(
        "\n\n如果已经运行一个实例，请在时钟旁的 ^ 中检查托盘图标；可先从托盘菜单选择“退出金福搜索”，再重试。",
    );
    text
}

/// The error for a failure of the pipe.
pub fn pipe_error(error: IoError) -> (result: SearchError)
    ensures
        result@ == (SearchErrorView::Io { path: "<named pipe>"@, source: error@.message }),
{
    SearchError::Io { path: "<named pipe>".to_owned(), source: error.message }
}

/// The error for a failure of the tray.
pub fn tray_error(error: String) -> (result: SearchError)
    ensures
        result@ == (SearchErrorView::Io { path: "<system tray>"@, source: error@ }),
{
    SearchError::Io { path: "<system tray>".to_owned(), source: error }
}

/// The error for a result of a command that cannot be written as JSON.
pub fn json_error(error: SearchError) -> (result: SearchError)
    ensures
        match error@ {
            SearchErrorView::Io { path, source } => result@ == (SearchErrorView::Io {
                path: "<json output>"@,
                source,
            }),
            _ => result@ == error@,
        },
{
    match error {
        SearchError::Io { path: _, source } => SearchError::Io {
            path: "<json output>".to_owned(),
            source,
        },
        other => other,
    }
}

// ---------------------------------------------------------------------------
// Roots as they are given
// ---------------------------------------------------------------------------

/// The error for a path that cannot be accessed.
pub open spec fn inaccessible(path: Seq<char>, error: IoErrorView) -> SearchErrorView {
    SearchErrorView::Io { path, source: error.message }
}

/// The view of an attempt to find a path.
pub open spec fn path_result(result: Result<String, IoError>) -> Result<Seq<char>, IoErrorView> {
    match result {
        Ok(path) => Ok(path@),
        Err(error) => Err(error@),
    }
}

/// A root as an absolute path. `joined` is the root below the current directory, where that can be
/// found.
pub open spec fn looked_up(
    root: Seq<char>,
    absolute: bool,
    joined: Result<Seq<char>, IoErrorView>,
) -> Result<Seq<char>, SearchErrorView> {
    if absolute {
        Ok(root)
    } else {
        match joined {
            Ok(path) => Ok(path),
            Err(error) => Err(inaccessible(root, error)),
        }
    }
}

/// A root as an absolute path. It need not exist: what was indexed can be removed when its disk is
/// gone.
pub fn root_for_lookup(root: &str, absolute: bool, joined: Result<String, IoError>) -> (result:
    Result<String, SearchError>)
    ensures
        crate::json::written_result(result) == looked_up(root@, absolute, path_result(joined)),
{
    if absolute {
        return Ok(root.to_owned());
    }
    match joined {
        Ok(path) => Ok(path),
        Err(error) => Err(SearchError::Io { path: root.to_owned(), source: error.message }),
    }
}

/// A root that is to be indexed, as an absolute path. `is_directory` is what is known about it.
pub fn absolute_root(
    root: &str,
    is_directory: Result<bool, IoError>,
    absolute: bool,
    joined: Result<String, IoError>,
) -> (result: Result<String, SearchError>)
    ensures
        crate::json::written_result(result) == match crate::volume::io_view(is_directory) {
            Err(error) => Err::<Seq<char>, SearchErrorView>(inaccessible(root@, error)),
            Ok(false) => Err(SearchErrorView::NotDirectory(root@)),
            Ok(true) => looked_up(root@, absolute, path_result(joined)),
        },
{
    match is_directory {
        Err(error) => Err(SearchError::Io { path: root.to_owned(), source: error.message }),
        Ok(false) => Err(SearchError::NotDirectory(root.to_owned())),
        Ok(true) => root_for_lookup(root, absolute, joined),
    }
}

// ---------------------------------------------------------------------------
// Disks
// ---------------------------------------------------------------------------

/// What the operating system says of a disk that stays in the machine.
pub const DRIVE_FIXED: u32 = 3;

/// The letter at a position of the alphabet.
pub open spec fn letter(position: int) -> char {
    (65 + position) as u8 as char
}

/// The letters of the first disks that are mounted and stay in the machine.
pub open spec fn fixed_letters(mask: u32, kinds: Seq<u32>, count: nat) -> Seq<char>
    decreases count,
{
    if count == 0 {
        Seq::empty()
    } else {
        let position = (count - 1) as u32;
        let front = fixed_letters(mask, kinds, (count - 1) as nat);
        if (mask >> position) & 1 == 1 && kinds[count - 1] == DRIVE_FIXED {
            front.push(letter(count - 1))
        } else {
            front
        }
    }
}

/// The volumes of the disks that are mounted and stay in the machine. `mask` has a bit for each
/// mounted letter, and `kinds` what the operating system says of each letter's disk. Removable and
/// network disks are never indexed unasked.
pub fn local_fixed_volumes(mask: u32, kinds: &Vec<u32>) -> (volumes: Vec<char>)
    requires
        kinds@.len() == 26,
    ensures
        volumes@ == fixed_letters(mask, kinds@, 26),
{
    let mut volumes: Vec<char> = Vec::new();
    let mut position: u32 = 0;
    while position < 26
        invariant
            position <= 26,
            kinds@.len() == 26,
            volumes@ == fixed_letters(mask, kinds@, position as nat),
        decreases 26 - position,
    {
        if (mask >> position) & 1 == 1 && kinds[position as usize] == DRIVE_FIXED {
            volumes.push((65u8 + position as u8) as char);
        }
        position += 1;
    }
    volumes
}

} // verus!

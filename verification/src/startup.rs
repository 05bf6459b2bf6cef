//! What the program does when it starts: its arguments, whether another instance
//! takes over, and the windows that it opens.

use crate::ipc::{
    are_read_from, command_prefix, fits_one_line, is_delivered, law_sent_command_is_queued,
    received, wire_text, LineView, Queues,
};
use crate::pending::{command_actions, ActionView};
use crate::search::{
    find_id, first_index, lemma_first_index, lemma_first_index_is, lemma_first_index_none, with_id,
};
use crate::text::{any_text, copy_texts, decimal, decimal_text, lemma_texts_push, same_text, texts};
use vstd::prelude::*;

verus! {

/// Seconds after which the first window looks for updates.
pub const UPDATE_CHECK_DELAY_SECS: u64 = 5;

/// The texts that are `wanted`.
pub open spec fn is_text(wanted: Seq<char>) -> spec_fn(Seq<char>) -> bool {
    |text: Seq<char>| text == wanted
}

/// The place of the first `-d` among the arguments, if an argument follows it.
pub open spec fn dev_flag(args: Seq<Seq<char>>) -> Option<int> {
    match first_index(args, is_text("-d"@)) {
        Some(pos) if pos + 1 < args.len() => Some(pos),
        _ => None,
    }
}

/// Take the development flag `-d <path>` out of the arguments.
///
/// Returns the path.
pub fn take_dev_dir(args: &mut Vec<String>) -> (res: Option<String>)
    ensures
        match dev_flag(texts(old(args)@)) {
            Some(pos) => {
                &&& res is Some
                &&& res->0@ == texts(old(args)@)[pos + 1]
                &&& texts(final(args)@) == texts(old(args)@).take(pos) + texts(old(args)@).skip(
                    pos + 2,
                )
            },
            None => res is None && final(args)@ == old(args)@,
        },
{
    let ghost all = texts(args@);
    let mut pos: usize = 0;
    while pos < args.len() && !same_text(args[pos].as_str(), "-d")
        invariant
            pos <= args.len(),
            args@ == old(args)@,
            all == texts(args@),
            forall|j: int| 0 <= j < pos ==> !is_text("-d"@)(#[trigger] all[j]),
        decreases args.len() - pos,
    {
        pos += 1;
    }
    if pos >= args.len() {
        proof {
            lemma_first_index_none(all, is_text("-d"@));
        }
        return None;
    }
    proof {
        lemma_first_index_is(all, is_text("-d"@), pos as int);
    }
    if args.len() - pos < 2 {
        return None;
    }
    let dev_dir: String = args.remove(pos + 1);
    let _flag: String = args.remove(pos);
    assert(texts(args@) =~= all.take(pos as int) + all.skip(pos + 2));
    Some(dev_dir)
}

/// The command that the arguments ask a running instance for; `--new-tab` comes
/// before `--new-window`.
pub open spec fn requested_command(args: Seq<Seq<char>>) -> Option<Seq<char>> {
    if args.contains("--new-tab"@) {
        Some("new-tab"@)
    } else if args.contains("--new-window"@) {
        Some("new-window"@)
    } else {
        None
    }
}

/// Tell which command the arguments ask a running instance for.
pub fn jump_list_command(args: &Vec<String>) -> (res: Option<&'static str>)
    ensures
        match res {
            Some(cmd) => requested_command(texts(args@)) == Some(cmd@),
            None => requested_command(texts(args@)) is None,
        },
{
    if any_text(args, "--new-tab") {
        Some("new-tab")
    } else if any_text(args, "--new-window") {
        Some("new-window")
    } else {
        None
    }
}

/// An argument, and whether it is the path of an existing file.
pub struct CliArgument {
    pub text: String,
    pub is_file: bool,
}

/// Whether an argument is a file to open: it exists, and it is no flag.
pub open spec fn is_file_argument(arg: CliArgument) -> bool {
    arg.is_file && arg.text@ != "--new-tab"@ && arg.text@ != "--new-window"@
}

/// The files to open that the arguments name, in order. The first argument is the
/// program itself.
pub open spec fn cli_paths(args: Seq<CliArgument>) -> Seq<Seq<char>>
    decreases args.len(),
{
    if args.len() <= 1 {
        Seq::empty()
    } else {
        let before = cli_paths(args.drop_last());
        if is_file_argument(args.last()) {
            before.push(args.last().text@)
        } else {
            before
        }
    }
}

/// Collect the files to open that the arguments name.
pub fn cli_file_paths(args: &Vec<CliArgument>) -> (res: Vec<String>)
    ensures
        texts(res@) == cli_paths(args@),
{
    let mut res: Vec<String> = Vec::new();
    assert(texts(res@) =~= cli_paths(args@.take(0)));
    for i in 0..args.len()
        invariant
            texts(res@) == cli_paths(args@.take(i as int)),
    {
        let arg: &CliArgument = &args[i];
        assert(args@.take(i + 1).drop_last() =~= args@.take(i as int));
        assert(args@.take(i + 1).last() == args@[i as int]);
        if i > 0 && arg.is_file && !same_text(arg.text.as_str(), "--new-tab") && !same_text(
            arg.text.as_str(),
            "--new-window",
        ) {
            proof {
                lemma_texts_push(res@, arg.text);
            }
            res.push(arg.text.clone());
        }
    }
    assert(args@.take(args.len() as int) =~= args@);
    res
}

/// A step on the way from the start of the process to its windows.
#[derive(Clone, Copy, PartialEq, Eq, Debug, Structural)]
pub enum StartupStep {
    /// Nothing has been tried.
    Begin,
    /// The command is sent to a running instance.
    SendCommand,
    /// The files are forwarded to a running instance.
    ForwardFiles,
    /// A running instance has taken over.
    Exit,
    /// This process opens windows.
    Launch,
}

/// The step that follows when no command was delivered.
pub open spec fn after_command(on_windows: bool, files: nat) -> StartupStep {
    if on_windows && files > 0 {
        StartupStep::ForwardFiles
    } else {
        StartupStep::Launch
    }
}

/// The step that follows `step`. `delivered` says whether what was sent was handed
/// over to a running instance.
pub open spec fn next_step(
    step: StartupStep,
    on_windows: bool,
    command: bool,
    files: nat,
    delivered: bool,
) -> StartupStep {
    match step {
        StartupStep::Begin => if on_windows && command {
            StartupStep::SendCommand
        } else {
            after_command(on_windows, files)
        },
        StartupStep::SendCommand => if delivered {
            StartupStep::Exit
        } else {
            after_command(on_windows, files)
        },
        StartupStep::ForwardFiles => if delivered {
            StartupStep::Exit
        } else {
            StartupStep::Launch
        },
        StartupStep::Exit => StartupStep::Exit,
        StartupStep::Launch => StartupStep::Launch,
    }
}

/// Tell which step follows `step`: on Windows a command is sent to a running
/// instance, then the files are forwarded to it; the process opens windows itself
/// only if neither was taken.
pub fn next_startup_step(
    step: StartupStep,
    on_windows: bool,
    command: bool,
    files: usize,
    delivered: bool,
) -> (res: StartupStep)
    ensures
        res == next_step(step, on_windows, command, files as nat, delivered),
        on_windows && files >= 1 && !command && step is Begin ==> res is ForwardFiles,
        on_windows && files >= 1 && !delivered && step is SendCommand ==> res is ForwardFiles,
        on_windows && files >= 1 && res is Launch ==> step is Launch || (step is ForwardFiles
            && !delivered),
{
    match step {
        StartupStep::Begin => {
            if on_windows && command {
                StartupStep::SendCommand
            } else if on_windows && files > 0 {
                StartupStep::ForwardFiles
            } else {
                StartupStep::Launch
            }
        },
        StartupStep::SendCommand => {
            if delivered {
                StartupStep::Exit
            } else if on_windows && files > 0 {
                StartupStep::ForwardFiles
            } else {
                StartupStep::Launch
            }
        },
        StartupStep::ForwardFiles => {
            if delivered {
                StartupStep::Exit
            } else {
                StartupStep::Launch
            }
        },
        StartupStep::Exit => StartupStep::Exit,
        StartupStep::Launch => StartupStep::Launch,
    }
}

/// The appearance of the desktop.
#[derive(Clone, Copy, PartialEq, Eq, Debug, Structural)]
pub enum Appearance {
    Light,
    VibrantLight,
    Dark,
    VibrantDark,
}

/// Whether an appearance is dark.
pub open spec fn is_dark(appearance: Appearance) -> bool {
    appearance is Dark || appearance is VibrantDark
}

/// Choose the theme: on the first run the one that suits the desktop, later the
/// one that is set.
pub fn startup_theme(is_first_run: bool, appearance: Appearance, current: String) -> (theme: String)
    ensures
        theme@ == (if !is_first_run {
            current@
        } else if is_dark(appearance) {
            "Default Dark"@
        } else {
            "Default Light"@
        }),
{
    if !is_first_run {
        return current;
    }
    match appearance {
        Appearance::Dark | Appearance::VibrantDark => "Default Dark".to_owned(),
        _ => "Default Light".to_owned(),
    }
}

/// A window to open at the start.
pub struct WindowLaunch {
    /// The place of the window, and of the saved state that it restores.
    pub index: usize,
    /// Whether the window has saved bounds.
    pub restoring: bool,
    /// The files to open in it.
    pub files: Vec<String>,
}

/// Whether `launch` is the window at `index` of a start that restores `saved`
/// windows: the first window gets the files of the command line.
pub open spec fn is_launch(
    launch: WindowLaunch,
    index: int,
    saved: nat,
    cli_files: Seq<Seq<char>>,
) -> bool {
    &&& launch.index == index
    &&& launch.restoring == (saved > 0)
    &&& texts(launch.files@) == (if index == 0 {
        cli_files
    } else {
        Seq::empty()
    })
}

/// Plan the windows to open: the `saved` windows of the last session, or else a
/// single new one.
pub fn plan_windows(saved: usize, cli_files: &Vec<String>) -> (res: Vec<WindowLaunch>)
    ensures
        res.len() == (if saved == 0 {
            1
        } else {
            saved as int
        }),
        forall|i: int|
            0 <= i < res.len() ==> is_launch(
                #[trigger] res@[i],
                i,
                saved as nat,
                texts(cli_files@),
            ),
        texts(res@[0].files@) == texts(cli_files@),
        forall|i: int| 0 < i < res.len() ==> (#[trigger] res@[i]).files@.len() == 0,
{
    let mut res: Vec<WindowLaunch> = Vec::new();
    if saved == 0 {
        res.push(WindowLaunch { index: 0, restoring: false, files: copy_texts(cli_files) });
        return res;
    }
    for index in 0..saved
        invariant
            saved > 0,
            res.len() == index,
            forall|i: int|
                0 <= i < index ==> is_launch(
                    #[trigger] res@[i],
                    i,
                    saved as nat,
                    texts(cli_files@),
                ),
            forall|i: int| 0 < i < index ==> (#[trigger] res@[i]).files@.len() == 0,
    {
        let files: Vec<String> = if index == 0 {
            copy_texts(cli_files)
        } else {
            Vec::new()
        };
        assert(index > 0 ==> texts(files@) =~= Seq::empty());
        res.push(WindowLaunch { index, restoring: true, files });
    }
    assert(is_launch(res@[0], 0, saved as nat, texts(cli_files@)));
    res
}

/// What was saved of a window: its bounds, and the display that it was on.
pub struct SavedWindow<B> {
    pub bounds: B,
    pub display_id: Option<u64>,
}

/// How one window is set up.
pub struct WindowSetup<B> {
    /// The title of the window.
    pub title: String,
    /// The bounds that the window had, if they were saved.
    pub window_bounds: Option<B>,
    /// The place of the saved state that the window restores.
    pub restore_index: usize,
    /// The display that the window was on, if it is still there.
    pub display_id: Option<u64>,
    /// The application identifier, on Linux.
    pub app_id: Option<String>,
    /// Whether the program draws the window frame, as it does on Linux.
    pub client_decorations: bool,
    /// The files to open in it, in order.
    pub files: Vec<String>,
    /// Whether the active tab gets the focus instead.
    pub focus_active_tab: bool,
}

/// The bounds that were saved of a window.
pub open spec fn bounds_of<B>(saved: Option<SavedWindow<B>>) -> Option<B> {
    match saved {
        Some(saved) => Some(saved.bounds),
        None => None,
    }
}

/// The display that was saved of a window.
pub open spec fn display_of<B>(saved: Option<SavedWindow<B>>) -> Option<u64> {
    match saved {
        Some(saved) => saved.display_id,
        None => None,
    }
}

/// The display that a window is put on: the saved one, if it is still there.
pub open spec fn chosen_display(saved: Option<u64>, displays: Seq<u64>) -> Option<u64> {
    match saved {
        Some(id) if displays.contains(id) => Some(id),
        _ => None,
    }
}

/// Set up the window at `window_index`, with what was saved of it, if anything was,
/// and the files to open in it. It gets its bounds back whether or not the display
/// that it was on is still there.
pub fn create_window<B>(
    window_index: usize,
    saved_bounds: Option<SavedWindow<B>>,
    displays: &Vec<u64>,
    cli_file_paths: &Vec<String>,
    on_linux: bool,
) -> (res: WindowSetup<B>)
    ensures
        res.title@ == "Fulgur"@,
        res.window_bounds == bounds_of(saved_bounds),
        res.restore_index == window_index,
        res.display_id == chosen_display(display_of(saved_bounds), displays@),
        match res.app_id {
            Some(app_id) => on_linux && app_id@ == "Fulgur"@,
            None => !on_linux,
        },
        res.client_decorations == on_linux,
        texts(res.files@) == texts(cli_file_paths@),
        res.focus_active_tab == (cli_file_paths@.len() == 0),
{
    let (window_bounds, saved_display_id): (Option<B>, Option<u64>) = match saved_bounds {
        Some(saved) => (Some(saved.bounds), saved.display_id),
        None => (None, None),
    };
    let display_id: Option<u64> = match saved_display_id {
        Some(id) => {
            proof {
                lemma_first_index(displays@, with_id(id));
                if displays@.contains(id) {
                    let i = choose|i: int| 0 <= i < displays@.len() && displays@[i] == id;
                    assert(with_id(id)(displays@[i]));
                }
            }
            match find_id(displays, id) {
                Some(i) => Some(displays[i]),
                None => None,
            }
        },
        None => None,
    };
    let app_id: Option<String> = if on_linux {
        Some("Fulgur".to_owned())
    } else {
        None
    };
    WindowSetup {
        title: "Fulgur".to_owned(),
        window_bounds,
        restore_index: window_index,
        display_id,
        app_id,
        client_decorations: on_linux,
        files: copy_texts(cli_file_paths),
        focus_active_tab: cli_file_paths.len() == 0,
    }
}

/// A step of opening a window.
#[derive(Clone, Copy, PartialEq, Eq, Debug, Structural)]
pub enum WindowStep {
    /// The window is opened, with its tabs and files.
    Open,
    /// The window is activated.
    Activate,
    /// Updates are looked for, once the program has been running for a while.
    CheckUpdates,
    /// The window is there.
    Done,
    /// The window could not be opened, which is reported.
    Report,
}

/// The step that follows `step` for the window at `window_index`, where `succeeded`
/// says how `step` went.
pub open spec fn next_window_step(
    step: WindowStep,
    window_index: nat,
    succeeded: bool,
) -> WindowStep {
    match step {
        WindowStep::Open => if succeeded {
            WindowStep::Activate
        } else {
            WindowStep::Report
        },
        WindowStep::Activate => if !succeeded {
            WindowStep::Report
        } else if window_index == 0 {
            WindowStep::CheckUpdates
        } else {
            WindowStep::Done
        },
        WindowStep::CheckUpdates => WindowStep::Done,
        WindowStep::Done => WindowStep::Done,
        WindowStep::Report => WindowStep::Report,
    }
}

/// Tell which step follows `step`. Only the first window looks for updates, and
/// how that goes makes no difference to the window.
pub fn window_step(step: WindowStep, window_index: usize, succeeded: bool) -> (res: WindowStep)
    ensures
        res == next_window_step(step, window_index as nat, succeeded),
{
    match step {
        WindowStep::Open => {
            if succeeded {
                WindowStep::Activate
            } else {
                WindowStep::Report
            }
        },
        WindowStep::Activate => {
            if !succeeded {
                WindowStep::Report
            } else if window_index == 0 {
                WindowStep::CheckUpdates
            } else {
                WindowStep::Done
            }
        },
        WindowStep::CheckUpdates => WindowStep::Done,
        WindowStep::Done => WindowStep::Done,
        WindowStep::Report => WindowStep::Report,
    }
}

/// What the user is told when a window could not be opened; the windows are
/// counted from one.
pub open spec fn creation_failure(window_index: nat, restoring: bool, error: Seq<char>) -> Seq<
    char,
> {
    if restoring {
        "Window "@ + decimal_text(window_index + 1)
            + " could not be restored, its tabs are lost: "@ + error
    } else {
        "The window could not be opened: "@ + error
    }
}

/// Word the notification about a window that could not be opened.
pub fn report_window_creation_failure(window_index: usize, restoring: bool, error: &str) -> (message:
    String)
    requires
        restoring ==> window_index < usize::MAX,
    ensures
        message@ == creation_failure(window_index as nat, restoring, error@),
{
    if restoring {
        let mut message: String = "Window ".to_owned();
        message.append(decimal(window_index + 1).as_str());
        message.append(" could not be restored, its tabs are lost: ");
        message.append(error);
        message
    } else {
        let mut message: String = "The window could not be opened: ".to_owned();
        message.append(error);
        message
    }
}

/// How a look for updates ended.
pub enum UpdateCheck<T> {
    /// There is an update.
    Available(T),
    /// There is none.
    UpToDate,
    /// It is not known.
    Failed,
}

/// Keep what a look for updates found; what was found before stays otherwise.
pub fn record_update_check<T>(update_info: &mut Option<T>, outcome: UpdateCheck<T>)
    ensures
        *final(update_info) == (match outcome {
            UpdateCheck::Available(info) => Some(info),
            _ => *old(update_info),
        }),
{
    match outcome {
        UpdateCheck::Available(info) => {
            *update_info = Some(info);
        },
        _ => {},
    }
}

/// The start comes to an end after at most three steps. The process leaves only
/// when a running instance took what was sent to it; on systems other than Windows
/// nothing is sent, and the process opens windows at once.
pub proof fn law_startup_settles(
    on_windows: bool,
    command: bool,
    files: nat,
    first_delivered: bool,
    second_delivered: bool,
)
    ensures
        ({
            let first = next_step(StartupStep::Begin, on_windows, command, files, false);
            let second = next_step(first, on_windows, command, files, first_delivered);
            let third = next_step(second, on_windows, command, files, second_delivered);
            &&& third is Exit || third is Launch
            &&& third is Exit ==> on_windows && (first_delivered || second_delivered)
            &&& !on_windows ==> first is Launch
        }),
{
}

/// A process that sends something leaves exactly if a running instance was there
/// and all of it was written; otherwise it goes on, and nothing is lost.
pub proof fn law_process_leaves_only_when_all_was_written(
    step: StartupStep,
    on_windows: bool,
    command: bool,
    files: nat,
    connected: bool,
    written: bool,
)
    requires
        step is SendCommand || step is ForwardFiles,
    ensures
        next_step(step, on_windows, command, files, is_delivered(connected, written)) is Exit <==> (
        connected && written),
{
}

/// A path is opened from the command line exactly if an argument behind the first
/// is that path, and an existing file; the flags for a running instance never are.
pub proof fn law_cli_paths(args: Seq<CliArgument>, path: Seq<char>)
    ensures
        cli_paths(args).contains(path) <==> path != "--new-tab"@ && path != "--new-window"@
            && exists|i: int| 1 <= i < args.len() && (#[trigger] args[i]).text@ == path && args[i].is_file,
    decreases args.len(),
{
    let all = cli_paths(args);
    if args.len() > 1 {
        let front = args.drop_last();
        let before = cli_paths(front);
        let last = args[args.len() - 1];
        law_cli_paths(front, path);
        if before.contains(path) {
            let i = choose|i: int| 0 <= i < before.len() && before[i] == path;
            assert(all[i] == path);
            let k = choose|k: int| 1 <= k < front.len() && (#[trigger] front[k]).text@ == path && front[k].is_file;
            assert(args[k].text@ == path);
        }
        if exists|i: int| 1 <= i < args.len() && (#[trigger] args[i]).text@ == path && args[i].is_file {
            let i = choose|i: int|
                1 <= i < args.len() && (#[trigger] args[i]).text@ == path && args[i].is_file;
            if i < front.len() {
                assert(front[i].text@ == path);
            }
        }
        if is_file_argument(last) {
            assert(all == before.push(last.text@));
            assert(all[before.len() as int] == last.text@);
            if all.contains(path) && path != last.text@ {
                let i = choose|i: int| 0 <= i < all.len() && all[i] == path;
                assert(before[i] == path);
            }
        }
    }
}

/// A process started with `--new-tab` makes the instance that takes its command
/// open a tab, and one started with `--new-window` a window: the command arrives
/// behind those that are queued there, and asks for just that.
pub proof fn law_flag_reaches_the_running_instance(
    args: Seq<Seq<char>>,
    cmd: Seq<char>,
    queues: Queues,
    lines: Seq<LineView>,
)
    requires
        requested_command(args) == Some(cmd),
        are_read_from(lines, wire_text(seq![command_prefix() + cmd])),
    ensures
        received(queues, lines).files == queues.files,
        command_actions(received(queues, lines).commands) == command_actions(queues.commands).push(
            if args.contains("--new-tab"@) {
                ActionView::NewTab
            } else {
                ActionView::NewWindow
            },
        ),
{
    reveal_strlit("new-tab");
    reveal_strlit("new-window");
    assert("new-tab"@ != "new-window"@) by {
        assert("new-tab"@.len() != "new-window"@.len());
    }
    assert(fits_one_line(cmd)) by {
        assert(forall|i: int| 0 <= i < cmd.len() ==> cmd[i] != '\n');
    }
    law_sent_command_is_queued(queues, cmd, lines);
    let after = queues.commands.push(cmd);
    assert(command_actions(after) =~= command_actions(queues.commands).push(
        if args.contains("--new-tab"@) {
            ActionView::NewTab
        } else {
            ActionView::NewWindow
        },
    ));
}

/// On Windows, a process that was given any file, be it a single one, and has not
/// handed over a command forwards its files next.
pub proof fn law_files_are_forwarded(command: bool, files: nat, delivered: bool)
    requires
        files >= 1,
    ensures
        next_step(StartupStep::Begin, true, false, files, delivered) is ForwardFiles,
        next_step(StartupStep::SendCommand, true, command, files, false) is ForwardFiles,
{
}

/// A command is sent exactly on Windows and before anything else. Without one, and
/// without files, the process opens windows itself; so it does on other systems. A
/// process that has left or opens windows keeps to that.
pub proof fn law_startup_steps(on_windows: bool, command: bool, files: nat, delivered: bool)
    ensures
        next_step(StartupStep::Begin, on_windows, command, files, delivered) is SendCommand <==> (
        on_windows && command),
        next_step(StartupStep::Begin, on_windows, false, 0, delivered) is Launch,
        next_step(StartupStep::Begin, false, command, files, delivered) is Launch,
        next_step(StartupStep::SendCommand, on_windows, command, files, true) is Exit,
        next_step(StartupStep::SendCommand, on_windows, command, 0, false) is Launch,
        next_step(StartupStep::SendCommand, false, command, files, false) is Launch,
        next_step(StartupStep::ForwardFiles, on_windows, command, files, true) is Exit,
        next_step(StartupStep::ForwardFiles, on_windows, command, files, false) is Launch,
        next_step(StartupStep::Exit, on_windows, command, files, delivered) is Exit,
        next_step(StartupStep::Launch, on_windows, command, files, delivered) is Launch,
{
}

/// On Windows, a process that was given files opens windows itself only after it
/// tried to forward them and no running instance took them.
pub proof fn law_launch_only_after_a_refused_forward(
    command: bool,
    files: nat,
    steps: Seq<StartupStep>,
    delivered: Seq<bool>,
)
    requires
        files >= 1,
        steps.len() > 0,
        steps[0] is Begin,
        delivered.len() == steps.len(),
        forall|i: int|
            0 <= i < steps.len() - 1 ==> steps[i + 1] == #[trigger] next_step(
                steps[i],
                true,
                command,
                files,
                delivered[i],
            ),
        steps.last() is Launch,
    ensures
        exists|i: int|
            0 <= i < steps.len() - 1 && #[trigger] steps[i] is ForwardFiles && !delivered[i],
    decreases steps.len(),
{
    if steps.len() > 1 {
        let i = steps.len() - 2;
        assert(steps[i + 1] == next_step(steps[i], true, command, files, delivered[i]));
        if steps[i] is Launch {
            let front = steps.drop_last();
            assert forall|j: int| 0 <= j < front.len() - 1 implies front[j + 1]
                == #[trigger] next_step(
                front[j],
                true,
                command,
                files,
                delivered.drop_last()[j],
            ) by {
                assert(steps[j + 1] == next_step(steps[j], true, command, files, delivered[j]));
            }
            law_launch_only_after_a_refused_forward(command, files, front, delivered.drop_last());
            let k = choose|k: int|
                0 <= k < front.len() - 1 && #[trigger] front[k] is ForwardFiles
                    && !delivered.drop_last()[k];
            assert(steps[k] is ForwardFiles);
        } else {
            assert(steps[i] is ForwardFiles);
        }
    }
}

proof fn lemma_nothing_to_flatten(parts: Seq<Seq<Seq<char>>>)
    requires
        forall|i: int| 0 <= i < parts.len() ==> (#[trigger] parts[i]).len() == 0,
    ensures
        parts.flatten() == Seq::<Seq<char>>::empty(),
    decreases parts.len(),
{
    if parts.len() > 0 {
        assert forall|i: int| 0 <= i < parts.drop_first().len() implies (
        #[trigger] parts.drop_first()[i]).len() == 0 by {
            assert(parts.drop_first()[i] == parts[i + 1]);
        }
        lemma_nothing_to_flatten(parts.drop_first());
        assert(parts.first() == parts[0]);
    }
    assert(parts.flatten() =~= Seq::<Seq<char>>::empty());
}

/// However many windows were saved, the windows of a start open the files of the
/// command line between them, each of them once: the first window opens all of them
/// in order, and the others open none.
pub proof fn law_planned_windows_open_the_files(
    launches: Seq<WindowLaunch>,
    saved: nat,
    cli_files: Seq<Seq<char>>,
)
    requires
        launches.len() == saved || (saved == 0 && launches.len() == 1),
        launches.len() > 0,
        forall|i: int|
            0 <= i < launches.len() ==> is_launch(#[trigger] launches[i], i, saved, cli_files),
    ensures
        launches.map_values(|launch: WindowLaunch| texts(launch.files@)).flatten() == cli_files,
        texts(launches[0].files@) == cli_files,
        forall|i: int| 0 < i < launches.len() ==> (#[trigger] launches[i]).files@.len() == 0,
        forall|i: int|
            0 <= i < launches.len() ==> (#[trigger] launches[i]).index == i
                && launches[i].restoring == (saved > 0),
{
    let parts = launches.map_values(|launch: WindowLaunch| texts(launch.files@));
    assert(is_launch(launches[0], 0, saved, cli_files));
    assert(parts[0] == cli_files);
    assert forall|i: int| 0 < i < launches.len() implies (#[trigger] launches[i]).files@.len()
        == 0 by {
        assert(is_launch(launches[i], i, saved, cli_files));
        assert(texts(launches[i].files@).len() == launches[i].files@.len());
    }
    let rest = parts.drop_first();
    assert forall|i: int| 0 <= i < rest.len() implies (#[trigger] rest[i]).len() == 0 by {
        assert(rest[i] == texts(launches[i + 1].files@));
        assert(launches[i + 1].files@.len() == 0);
    }
    lemma_nothing_to_flatten(rest);
    assert(parts.first() == cli_files);
    assert(parts.flatten() =~= cli_files);
}

/// The development flag is the first `-d`, and it counts exactly if an argument
/// follows it.
pub proof fn law_dev_flag(args: Seq<Seq<char>>)
    ensures
        match dev_flag(args) {
            Some(pos) => {
                &&& 0 <= pos
                &&& pos + 1 < args.len()
                &&& args[pos] == "-d"@
                &&& forall|i: int| 0 <= i < pos ==> #[trigger] args[i] != "-d"@
            },
            None => forall|i: int| 0 <= i < args.len() - 1 ==> #[trigger] args[i] != "-d"@,
        },
{
    lemma_first_index(args, is_text("-d"@));
    assert forall|i: int| 0 <= i < args.len() implies (is_text("-d"@)(#[trigger] args[i])
        <==> args[i] == "-d"@) by {}
}

/// A tab is asked for exactly if `--new-tab` is among the arguments, a window exactly
/// if `--new-window` is and `--new-tab` is not.
pub proof fn law_requested_command(args: Seq<Seq<char>>)
    ensures
        requested_command(args) == Some("new-tab"@) <==> args.contains("--new-tab"@),
        requested_command(args) == Some("new-window"@) <==> args.contains("--new-window"@)
            && !args.contains("--new-tab"@),
        requested_command(args) is None <==> !args.contains("--new-tab"@) && !args.contains(
            "--new-window"@,
        ),
{
    reveal_strlit("new-tab");
    reveal_strlit("new-window");
    assert("new-tab"@.len() != "new-window"@.len());
}

/// The files are kept in the order of the arguments: behind the first argument, an
/// argument adds itself exactly if it is a file and no flag, and takes nothing away.
pub proof fn law_cli_paths_in_order(args: Seq<CliArgument>, arg: CliArgument)
    ensures
        args.len() <= 1 ==> cli_paths(args).len() == 0,
        args.len() >= 1 && arg.is_file && arg.text@ != "--new-tab"@ && arg.text@ != "--new-window"@
            ==> cli_paths(args.push(arg)) == cli_paths(args).push(arg.text@),
        args.len() >= 1 && !(arg.is_file && arg.text@ != "--new-tab"@ && arg.text@
            != "--new-window"@) ==> cli_paths(args.push(arg)) == cli_paths(args),
{
    assert(args.push(arg).drop_last() =~= args);
    assert(args.push(arg).last() == arg);
}

/// Only the two dark appearances are dark.
pub proof fn law_dark_appearances()
    ensures
        is_dark(Appearance::Dark),
        is_dark(Appearance::VibrantDark),
        !is_dark(Appearance::Light),
        !is_dark(Appearance::VibrantLight),
{
}

/// A window gets back the bounds that were saved of it, and its display exactly if
/// that is still there; a window of which nothing was saved gets neither.
pub proof fn law_restored_setup<B>(saved: SavedWindow<B>, id: u64, displays: Seq<u64>)
    ensures
        bounds_of(Some(saved)) == Some(saved.bounds),
        bounds_of(None::<SavedWindow<B>>) is None,
        display_of(Some(saved)) == saved.display_id,
        display_of(None::<SavedWindow<B>>) is None,
        displays.contains(id) ==> chosen_display(Some(id), displays) == Some(id),
        !displays.contains(id) ==> chosen_display(Some(id), displays) is None,
        chosen_display(None, displays) is None,
{
}

/// A window is activated once it is open, and it is reported exactly if one of the
/// two fails. Behind that only the first window looks for updates, and however that
/// goes, the window is there.
pub proof fn law_window_steps(window_index: nat, succeeded: bool)
    ensures
        next_window_step(WindowStep::Open, window_index, succeeded) is Activate <==> succeeded,
        next_window_step(WindowStep::Open, window_index, succeeded) is Report <==> !succeeded,
        next_window_step(WindowStep::Activate, window_index, succeeded) is Report <==> !succeeded,
        next_window_step(WindowStep::Activate, window_index, succeeded) is CheckUpdates <==> (
        succeeded && window_index == 0),
        next_window_step(WindowStep::Activate, window_index, succeeded) is Done <==> (succeeded
            && window_index > 0),
        next_window_step(WindowStep::CheckUpdates, window_index, succeeded) is Done,
        next_window_step(WindowStep::Done, window_index, succeeded) is Done,
        next_window_step(WindowStep::Report, window_index, succeeded) is Report,
{
}

/// The notification about a window names the window by its number, counted from one,
/// if the window was to be restored, and ends with the error in any case.
pub proof fn law_creation_failure(window_index: nat, error: Seq<char>)
    ensures
        creation_failure(window_index, true, error) == "Window "@ + decimal_text(window_index + 1)
            + " could not be restored, its tabs are lost: "@ + error,
        creation_failure(window_index, false, error) == "The window could not be opened: "@ + error,
{
}

} // verus!

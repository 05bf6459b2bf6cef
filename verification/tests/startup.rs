use fulgur_core::ipc::{
    message_delivered, message_lines, parse_line, queue_message, try_send_command_to_existing_instance,
};
use fulgur_core::fulgur::Fulgur;
use fulgur_core::pending::IpcAction;
use fulgur_core::startup::{
    cli_file_paths, create_window, jump_list_command, next_startup_step, plan_windows,
    record_update_check, report_window_creation_failure, startup_theme, take_dev_dir, window_step,
    Appearance, CliArgument, SavedWindow, StartupStep, UpdateCheck, WindowStep, UPDATE_CHECK_DELAY_SECS,
};
use StartupStep::{Begin, Exit, ForwardFiles, Launch, SendCommand};
use WindowStep::{Activate, CheckUpdates, Done, Open, Report};

fn strings(list: &[&str]) -> Vec<String> {
    list.iter().map(|s| s.to_string()).collect()
}

#[test]
fn dev_flag_is_taken_out_with_its_path() {
    let mut args = strings(&["fulgur", "a.txt", "-d", "/dev", "b.txt", "-d", "x"]);
    assert_eq!(take_dev_dir(&mut args), Some("/dev".to_string()));
    assert_eq!(args, ["fulgur", "a.txt", "b.txt", "-d", "x"]);
}

#[test]
fn dev_flag_without_a_path_stays() {
    let mut args = strings(&["fulgur", "-d"]);
    assert_eq!(take_dev_dir(&mut args), None);
    assert_eq!(args, ["fulgur", "-d"]);
    let mut args = strings(&["fulgur", "-dx", "y"]);
    assert_eq!(take_dev_dir(&mut args), None);
    assert_eq!(args.len(), 3);
    let mut args = strings(&["fulgur", "-d", "-d"]);
    assert_eq!(take_dev_dir(&mut args), Some("-d".to_string()));
    assert_eq!(args, ["fulgur"]);
}

#[test]
fn jump_list_flags_ask_for_commands() {
    assert_eq!(jump_list_command(&strings(&["f", "--new-window", "--new-tab"])), Some("new-tab"));
    assert_eq!(jump_list_command(&strings(&["f", "--new-window"])), Some("new-window"));
    assert_eq!(jump_list_command(&strings(&["f", "x", "--new-tabs"])), None);
    assert_eq!(jump_list_command(&Vec::new()), None);
}

#[test]
fn flags_reach_the_running_instance() {
    for (flag, action) in [("--new-tab", IpcAction::NewTab), ("--new-window", IpcAction::NewWindow)] {
        let cmd = jump_list_command(&strings(&["fulgur", flag])).unwrap();
        let text = try_send_command_to_existing_instance(true, cmd).unwrap();
        let mut files = Vec::new();
        let mut commands = Vec::new();
        for line in message_lines(&text) {
            queue_message(parse_line(&line), false, &mut files, &mut commands);
        }
        let window = Fulgur { window_id: 1, tabs: vec![] };
        let taken = window.process_pending_ipc_commands(Some(1), Some(&mut commands));
        assert_eq!(taken.actions, [action]);
        assert!(files.is_empty());
    }
}

#[test]
fn arguments_that_are_files_are_opened() {
    let arg = |text: &str, is_file| CliArgument {
        text: text.to_string(),
        is_file,
    };
    let args = vec![
        arg("fulgur", true),
        arg("a.txt", true),
        arg("--new-tab", true),
        arg("missing", false),
        arg("--new-window", true),
        arg("", false),
        arg("a.txt", true),
        arg("b", true),
    ];
    assert_eq!(cli_file_paths(&args), ["a.txt", "a.txt", "b"]);
    assert!(cli_file_paths(&vec![arg("fulgur", true)]).is_empty());
    assert!(cli_file_paths(&vec![]).is_empty());
}

#[test]
fn a_running_instance_takes_over_on_windows() {
    assert_eq!(next_startup_step(Begin, true, true, 2, false), SendCommand);
    assert_eq!(next_startup_step(SendCommand, true, true, 2, true), Exit);
    assert_eq!(next_startup_step(SendCommand, true, true, 2, false), ForwardFiles);
    assert_eq!(next_startup_step(SendCommand, true, true, 0, false), Launch);
    assert_eq!(next_startup_step(Begin, true, false, 2, false), ForwardFiles);
    assert_eq!(next_startup_step(Begin, true, false, 0, false), Launch);
    assert_eq!(next_startup_step(ForwardFiles, true, false, 2, true), Exit);
    assert_eq!(next_startup_step(ForwardFiles, true, false, 2, false), Launch);
    assert_eq!(next_startup_step(Begin, false, true, 2, true), Launch);
    assert_eq!(next_startup_step(Exit, true, true, 2, true), Exit);
    assert_eq!(next_startup_step(Launch, true, true, 2, true), Launch);
}

#[test]
fn a_message_that_was_not_written_does_not_end_the_process() {
    let delivered = message_delivered(true, false);
    assert_eq!(next_startup_step(ForwardFiles, true, false, 2, delivered), Launch);
    assert_eq!(next_startup_step(SendCommand, true, true, 2, delivered), ForwardFiles);
}

#[test]
fn first_run_follows_the_desktop() {
    let theme = |first, appearance| startup_theme(first, appearance, "Mine".to_string());
    assert_eq!(theme(true, Appearance::Dark), "Default Dark");
    assert_eq!(theme(true, Appearance::VibrantDark), "Default Dark");
    assert_eq!(theme(true, Appearance::Light), "Default Light");
    assert_eq!(theme(true, Appearance::VibrantLight), "Default Light");
    assert_eq!(theme(false, Appearance::Dark), "Mine");
}

#[test]
fn without_saved_windows_one_is_opened() {
    let plan = plan_windows(0, &strings(&["a", "b"]));
    assert_eq!(plan.len(), 1);
    assert_eq!(plan[0].index, 0);
    assert!(!plan[0].restoring);
    assert_eq!(plan[0].files, ["a", "b"]);
}

#[test]
fn saved_windows_are_restored() {
    let plan = plan_windows(3, &strings(&["a"]));
    assert_eq!(plan.len(), 3);
    for (i, launch) in plan.iter().enumerate() {
        assert_eq!(launch.index, i);
        assert!(launch.restoring);
    }
    assert_eq!(plan[0].files, ["a"]);
    assert!(plan[1].files.is_empty() && plan[2].files.is_empty());
}

#[test]
fn window_goes_to_the_display_it_was_on() {
    let files = strings(&["a"]);
    let saved = |display_id| {
        Some(SavedWindow {
            bounds: "120x40",
            display_id,
        })
    };
    let setup = create_window(2, saved(Some(8)), &vec![3, 8], &files, true);
    assert_eq!(setup.title, "Fulgur");
    assert_eq!(setup.window_bounds, Some("120x40"));
    assert_eq!(setup.restore_index, 2);
    assert_eq!(setup.display_id, Some(8));
    assert_eq!(setup.app_id.as_deref(), Some("Fulgur"));
    assert!(setup.client_decorations);
    assert_eq!(setup.files, ["a"]);
    assert!(!setup.focus_active_tab);
    let setup = create_window(0, saved(None), &vec![3], &files, false);
    assert_eq!(setup.window_bounds, Some("120x40"));
    assert_eq!(setup.display_id, None);
    let setup = create_window::<&str>(0, None, &vec![3], &files, false);
    assert_eq!(setup.window_bounds, None);
    assert_eq!(setup.display_id, None);
}

#[test]
fn window_keeps_its_bounds_without_its_display() {
    let saved = SavedWindow {
        bounds: "120x40",
        display_id: Some(7),
    };
    let setup = create_window(1, Some(saved), &vec![1, 2], &Vec::new(), false);
    assert_eq!(setup.display_id, None);
    assert_eq!(setup.window_bounds, Some("120x40"));
    assert_eq!(setup.app_id, None);
    assert!(!setup.client_decorations);
    assert!(setup.focus_active_tab);
}

#[test]
fn only_the_first_window_looks_for_updates() {
    assert_eq!(window_step(Open, 0, true), Activate);
    assert_eq!(window_step(Open, 0, false), Report);
    assert_eq!(window_step(Activate, 0, true), CheckUpdates);
    assert_eq!(window_step(Activate, 1, true), Done);
    assert_eq!(window_step(Activate, 0, false), Report);
    assert_eq!(window_step(CheckUpdates, 0, false), Done);
    assert_eq!(window_step(Done, 0, true), Done);
    assert_eq!(window_step(Report, 0, true), Report);
    assert_eq!(UPDATE_CHECK_DELAY_SECS, 5);
}

#[test]
fn failures_are_worded() {
    assert_eq!(
        report_window_creation_failure(0, true, "no display"),
        "Window 1 could not be restored, its tabs are lost: no display"
    );
    assert_eq!(
        report_window_creation_failure(1029, true, ""),
        "Window 1030 could not be restored, its tabs are lost: "
    );
    assert_eq!(
        report_window_creation_failure(4, false, "no display"),
        "The window could not be opened: no display"
    );
}

#[test]
fn a_found_update_is_kept() {
    let mut info = None;
    record_update_check(&mut info, UpdateCheck::UpToDate);
    assert_eq!(info, None);
    record_update_check(&mut info, UpdateCheck::Available(3));
    assert_eq!(info, Some(3));
    record_update_check(&mut info, UpdateCheck::Failed);
    assert_eq!(info, Some(3));
    record_update_check(&mut info, UpdateCheck::Available(4));
    assert_eq!(info, Some(4));
}

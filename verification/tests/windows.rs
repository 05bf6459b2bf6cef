use fulgur_core::dock::{DeferredActivation, DockActivation};
use fulgur_core::external_sources::{DroppedItem, OpenDecision};
use fulgur_core::file_path::FilePath;
use fulgur_core::focus::{may_handle_queues, wake_minimized_windows, WindowState};
use fulgur_core::fulgur::{Fulgur, Tab, WindowEntry};
use fulgur_core::pending::IpcAction;

fn path(text: &str) -> FilePath {
    FilePath {
        components: text
            .split('/')
            .filter(|part| !part.is_empty())
            .map(|part| part.as_bytes().to_vec())
            .collect(),
    }
}

fn editor(file: Option<&str>, title: &str) -> Tab {
    Tab::Editor {
        file_path: file.map(path),
        title: title.to_string(),
        modified: false,
    }
}

fn settings() -> Tab {
    Tab::Other {
        title: "Settings".to_string(),
    }
}

fn window(window_id: u64, tabs: Vec<Tab>) -> Fulgur {
    Fulgur { window_id, tabs }
}

fn registered(id: u64, tabs: Vec<Tab>) -> WindowEntry {
    WindowEntry {
        id,
        window: Some(window(id, tabs)),
    }
}

fn strings(list: &[&str]) -> Vec<String> {
    list.iter().map(|s| s.to_string()).collect()
}

#[test]
fn only_the_focused_window_takes_pending_files() {
    let one = window(1, vec![]);
    let two = window(2, vec![]);
    let mut pending = strings(&["/tmp/macos-open-url-focus-test.txt"]);
    let taken = one.process_pending_files_from_macos(Some(2), Some(&mut pending));
    assert!(taken.open.is_empty() && !taken.restore_window);
    assert_eq!(
        pending.len(),
        1,
        "non-focused windows must not consume pending files"
    );
    let taken = two.process_pending_files_from_macos(Some(2), Some(&mut pending));
    assert_eq!(taken.open, ["/tmp/macos-open-url-focus-test.txt"]);
    assert!(taken.restore_window);
    assert!(pending.is_empty());
    let taken = two.process_pending_files_from_macos(Some(2), Some(&mut pending));
    assert!(taken.open.is_empty() && !taken.restore_window);
}

#[test]
fn any_window_takes_pending_files_before_one_was_focused() {
    let mut pending = strings(&["/a", "/b"]);
    let taken = window(9, vec![]).process_pending_files_from_macos(None, Some(&mut pending));
    assert_eq!(taken.open, ["/a", "/b"]);
}

#[test]
fn a_locked_queue_is_left_alone() {
    let taken = window(1, vec![]).process_pending_files_from_macos(Some(1), None);
    assert!(taken.open.is_empty() && !taken.restore_window);
    let taken = window(1, vec![]).process_pending_ipc_commands(Some(1), None);
    assert!(taken.actions.is_empty() && !taken.restore_window);
}

#[test]
fn commands_are_told_in_order() {
    let mut pending = strings(&["new-window", "bogus", "new-tab", "new-tab "]);
    let two = window(2, vec![]);
    assert!(two
        .process_pending_ipc_commands(Some(1), Some(&mut pending))
        .actions
        .is_empty());
    assert_eq!(pending.len(), 4);
    let taken = two.process_pending_ipc_commands(Some(2), Some(&mut pending));
    assert_eq!(
        taken.actions,
        [
            IpcAction::NewWindow,
            IpcAction::Unknown("bogus".to_string()),
            IpcAction::NewTab,
            IpcAction::Unknown("new-tab ".to_string()),
        ]
    );
    assert!(taken.restore_window);
    assert!(pending.is_empty());
}

#[test]
fn a_new_window_does_not_bring_this_one_back() {
    let mut pending = strings(&["new-window"]);
    let taken = window(2, vec![]).process_pending_ipc_commands(None, Some(&mut pending));
    assert_eq!(taken.actions, [IpcAction::NewWindow]);
    assert!(!taken.restore_window);
}

#[test]
fn one_window_handles_the_queues() {
    assert!(may_handle_queues(None, 1) && may_handle_queues(None, 2));
    assert!(may_handle_queues(Some(2), 2));
    assert!(!may_handle_queues(Some(2), 1));
}

#[test]
fn minimized_windows_are_woken_for_their_queue() {
    let state = |id, minimized| WindowState { id, minimized };
    let windows = vec![state(1, true), state(2, true), state(3, false), state(2, true)];
    assert_eq!(wake_minimized_windows(Some(2), &windows), [1, 3]);
    assert_eq!(wake_minimized_windows(None, &windows), [0, 1, 3]);
    assert!(wake_minimized_windows(Some(3), &windows).is_empty());
    assert!(wake_minimized_windows(Some(7), &windows).is_empty());
}

#[test]
fn dock_focuses_a_tab_of_the_window_first() {
    let here = window(
        1,
        vec![settings(), editor(Some("/a"), "a"), editor(Some("/a"), "again")],
    );
    let registry = vec![registered(2, vec![editor(Some("/a"), "a")])];
    assert_eq!(
        here.handle_dock_activate_tab(&path("//a/"), &registry),
        DockActivation::FocusTab { tab: 1 }
    );
    assert_eq!(
        here.handle_dock_activate_tab_by_title("again", &registry),
        DockActivation::FocusTab { tab: 2 }
    );
    assert_eq!(
        here.handle_dock_activate_tab_by_title("Settings", &registry),
        DockActivation::FocusTab { tab: 0 }
    );
}

#[test]
fn dock_goes_to_the_first_other_window() {
    let here = window(1, vec![editor(None, "Untitled")]);
    let registry = vec![
        registered(1, vec![editor(Some("/b"), "b")]),
        WindowEntry { id: 4, window: None },
        registered(2, vec![settings()]),
        registered(3, vec![settings(), editor(Some("/b"), "b")]),
        registered(5, vec![editor(Some("/b"), "b")]),
    ];
    assert_eq!(
        here.handle_dock_activate_tab(&path("/b"), &registry),
        DockActivation::SwitchWindow {
            entry: 3,
            window_id: 3
        }
    );
    assert_eq!(
        here.handle_dock_activate_tab_by_title("Settings", &registry),
        DockActivation::SwitchWindow {
            entry: 2,
            window_id: 2
        }
    );
    assert_eq!(
        here.handle_dock_activate_tab(&path("/c"), &registry),
        DockActivation::Ignore
    );
    assert_eq!(
        here.handle_dock_activate_tab_by_title("c", &registry),
        DockActivation::Ignore
    );
}

#[test]
fn dock_switch_finishes_in_the_target() {
    let target = window(3, vec![settings(), editor(Some("/b"), "b")]);
    let open_windows = vec![7, 3, 3];
    assert_eq!(
        target.finish_dock_activate_tab(3, &open_windows, &path("/b")),
        Some(DeferredActivation {
            handle: 1,
            tab: Some(1)
        })
    );
    assert_eq!(
        target.finish_dock_activate_tab_by_title(3, &open_windows, "gone"),
        Some(DeferredActivation {
            handle: 1,
            tab: None
        })
    );
    assert_eq!(
        target.finish_dock_activate_tab_by_title(4, &open_windows, "b"),
        None
    );
    assert_eq!(target.finish_dock_activate_tab(4, &vec![], &path("/b")), None);
}

#[test]
fn opening_a_file_prefers_an_open_tab() {
    let mut here = window(1, vec![settings(), editor(Some("/a"), "a")]);
    here.tabs.push(Tab::Editor {
        file_path: Some(path("/m")),
        title: "m".to_string(),
        modified: true,
    });
    let registry = vec![registered(1, vec![]), registered(2, vec![editor(Some("/b"), "b")])];
    assert_eq!(
        here.handle_open_file_from_cli(&path("/a"), &registry),
        OpenDecision::FocusTab {
            tab: 1,
            prompt: false
        }
    );
    assert_eq!(
        here.handle_open_file_from_cli(&path("/m"), &registry),
        OpenDecision::FocusTab {
            tab: 2,
            prompt: true
        }
    );
    assert_eq!(
        here.handle_open_file_from_cli(&path("/b"), &registry),
        OpenDecision::NotifyOpenElsewhere { entry: 1 }
    );
    assert_eq!(
        here.handle_open_file_from_cli(&path("/c"), &registry),
        OpenDecision::OpenTab
    );
}

fn dropped(text: &str, is_file: bool) -> DroppedItem {
    DroppedItem {
        path: path(text),
        is_file,
    }
}

#[test]
fn drop_opens_each_file_once() {
    let here = window(1, vec![]);
    let items = vec![
        dropped("/a", true),
        dropped("/dir", false),
        dropped("/b", true),
        dropped("//a", true),
        dropped("/b/c", true),
        dropped("/b", true),
    ];
    let outcome = here.handle_external_paths_drop(&items);
    assert_eq!(outcome.open, [0, 2, 4]);
    assert_eq!(
        outcome.notice.as_deref(),
        Some("Ignored 1 dropped item(s) that are not files")
    );
}

#[test]
fn drop_without_files_is_explained() {
    let here = window(1, vec![]);
    let outcome = here.handle_external_paths_drop(&vec![dropped("/d", false), dropped("/d", false)]);
    assert!(outcome.open.is_empty());
    assert_eq!(
        outcome.notice.as_deref(),
        Some("Dropped items contain no files to open")
    );
}

#[test]
fn drop_of_files_alone_is_silent() {
    let here = window(1, vec![]);
    let outcome = here.handle_external_paths_drop(&vec![dropped("/a", true)]);
    assert_eq!(outcome.open, [0]);
    assert_eq!(outcome.notice, None);
    let outcome = here.handle_external_paths_drop(&vec![]);
    assert!(outcome.open.is_empty());
    assert_eq!(outcome.notice, None);
}

#[test]
fn drop_counts_what_it_ignored() {
    let here = window(1, vec![]);
    let mut items = vec![dropped("/a", true)];
    for _ in 0..120 {
        items.push(dropped("/d", false));
    }
    let outcome = here.handle_external_paths_drop(&items);
    assert_eq!(
        outcome.notice.as_deref(),
        Some("Ignored 120 dropped item(s) that are not files")
    );
}

#[test]
fn menus_are_published_on_a_change() {
    let mut here = window(1, vec![settings(), editor(Some("/a"), "a")]);
    let mut published = None;
    assert!(here.publish_window_menu_tabs_if_changed(&mut published));
    let tabs = published.as_ref().unwrap();
    assert_eq!(tabs.len(), 2);
    assert!(tabs[0].path.is_none());
    assert_eq!(tabs[0].title, "Settings");
    assert!(tabs[1].path.as_ref().unwrap().same_path(&path("/a")));
    assert_eq!(tabs[1].title, "a");
    assert!(!here.publish_window_menu_tabs_if_changed(&mut published));
    if let Tab::Editor { modified, .. } = &mut here.tabs[1] {
        *modified = true;
    }
    assert!(!here.publish_window_menu_tabs_if_changed(&mut published));
    here.tabs[1] = editor(Some("//a"), "a");
    assert!(!here.publish_window_menu_tabs_if_changed(&mut published));
    here.tabs[1] = editor(Some("/a"), "a *");
    assert!(here.publish_window_menu_tabs_if_changed(&mut published));
    here.tabs[1] = editor(None, "a *");
    assert!(here.publish_window_menu_tabs_if_changed(&mut published));
    here.tabs.remove(0);
    assert!(here.publish_window_menu_tabs_if_changed(&mut published));
    assert!(!here.publish_window_menu_tabs_if_changed(&mut published));
}

#[test]
fn no_tabs_are_published_too() {
    let here = window(1, vec![]);
    let mut published = None;
    assert!(here.publish_window_menu_tabs_if_changed(&mut published));
    assert!(published.as_ref().unwrap().is_empty());
    assert!(!here.publish_window_menu_tabs_if_changed(&mut published));
}

#[test]
fn paths_are_compared_by_components() {
    assert!(path("/a/b").same_path(&path("/a//b/")));
    assert!(!path("/a/b").same_path(&path("/a")));
    assert!(!path("/a/b").same_path(&path("/a/c")));
    assert!(!path("/ab").same_path(&path("/a/b")));
    assert!(path("/a/b").duplicate().same_path(&path("/a/b")));
}

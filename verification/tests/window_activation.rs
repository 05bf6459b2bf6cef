use fulgur_core::window_activation::{
    is_minimized, restore_minimized_process_windows, restore_minimized_window,
    restore_minimized_windows_callback, NativeCall, NativeWindow, TopLevelWindow,
};

#[test]
fn only_an_iconified_window_is_minimized() {
    assert!(is_minimized(NativeWindow::Win32 { iconic: true }));
    assert!(!is_minimized(NativeWindow::Win32 { iconic: false }));
    assert!(!is_minimized(NativeWindow::Unavailable));
    assert!(!is_minimized(NativeWindow::Other));
}

#[test]
fn background_windows_are_left_alone() {
    assert!(restore_minimized_window(true, NativeWindow::Win32 { iconic: true }));
    assert!(!restore_minimized_window(true, NativeWindow::Win32 { iconic: false }));
    assert!(!restore_minimized_window(true, NativeWindow::Other));
    assert!(!restore_minimized_window(false, NativeWindow::Win32 { iconic: true }));
}

#[test]
fn minimized_windows_of_the_process_are_restored() {
    let window = |pid, iconic| TopLevelWindow { pid, iconic };
    let windows = vec![window(7, true), window(8, true), window(7, false), window(7, true)];
    assert_eq!(restore_minimized_process_windows(7, &windows), [0, 3]);
    assert!(restore_minimized_process_windows(9, &windows).is_empty());
}

#[test]
fn restoring_taps_alt_before_the_foreground_call() {
    let outcome = restore_minimized_windows_callback(7, &TopLevelWindow { pid: 7, iconic: true });
    assert_eq!(
        outcome.calls,
        [
            NativeCall::ShowRestored,
            NativeCall::TapAlt,
            NativeCall::SetForeground
        ]
    );
    assert!(outcome.keep_enumerating);
    let outcome = restore_minimized_windows_callback(7, &TopLevelWindow { pid: 8, iconic: true });
    assert!(outcome.calls.is_empty() && outcome.keep_enumerating);
    let outcome = restore_minimized_windows_callback(7, &TopLevelWindow { pid: 7, iconic: false });
    assert!(outcome.calls.is_empty() && outcome.keep_enumerating);
}

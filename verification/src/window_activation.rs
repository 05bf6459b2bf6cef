//! Bringing back a window that got an open request while it was minimized.

use vstd::prelude::*;

verus! {

/// The native window behind a window, and whether it is iconified.
#[derive(Clone, Copy, PartialEq, Eq, Debug, Structural)]
pub enum NativeWindow {
    /// There is no handle at the moment.
    Unavailable,
    /// A window of Windows.
    Win32 { iconic: bool },
    /// A window of another system.
    Other,
}

/// Whether a native window is minimized; only Windows tells.
pub open spec fn minimized(native: NativeWindow) -> bool {
    native == (NativeWindow::Win32 { iconic: true })
}

/// Tell whether the native window is minimized.
pub fn is_minimized(native: NativeWindow) -> (res: bool)
    ensures
        res == minimized(native),
        res == (native matches NativeWindow::Win32 { iconic } && iconic),
{
    match native {
        NativeWindow::Win32 { iconic } => iconic,
        _ => false,
    }
}

/// Tell whether a window that got something to show is activated. On Windows it
/// is if it is minimized; a window that is merely in the background is left
/// alone, and so is every window of another system.
pub fn restore_minimized_window(on_windows: bool, native: NativeWindow) -> (activate: bool)
    ensures
        activate == (on_windows && minimized(native)),
{
    on_windows && is_minimized(native)
}

/// A top-level window of the system, with the process that owns it.
pub struct TopLevelWindow {
    pub pid: u32,
    pub iconic: bool,
}

/// A call to the system.
#[derive(Clone, Copy, PartialEq, Eq, Debug, Structural)]
pub enum NativeCall {
    /// Restore the window.
    ShowRestored,
    /// Press and release the Alt key, in one input that nothing comes between;
    /// without it a background thread may not bring a window to the foreground.
    TapAlt,
    /// Bring the window to the foreground.
    SetForeground,
}

/// What is done with one of the windows of the system.
pub struct CallbackOutcome {
    /// The calls to make for this window, in order.
    pub calls: Vec<NativeCall>,
    /// Whether the remaining windows are looked at.
    pub keep_enumerating: bool,
}

/// Whether a window of the system is restored: it is minimized and belongs to
/// this process.
pub open spec fn is_restored(own_pid: u32, window: TopLevelWindow) -> bool {
    window.pid == own_pid && window.iconic
}

/// The calls that restore a window and bring it to the foreground.
pub open spec fn restoring_calls() -> Seq<NativeCall> {
    seq![NativeCall::ShowRestored, NativeCall::TapAlt, NativeCall::SetForeground]
}

/// Decide what is done with one of the windows of the system. Whatever it is, the
/// enumeration goes on.
pub fn restore_minimized_windows_callback(own_pid: u32, window: &TopLevelWindow) -> (res:
    CallbackOutcome)
    ensures
        res.keep_enumerating,
        window.pid == own_pid && window.iconic ==> res.calls@ == seq![
            NativeCall::ShowRestored,
            NativeCall::TapAlt,
            NativeCall::SetForeground,
        ],
        window.pid != own_pid || !window.iconic ==> res.calls@.len() == 0,
        res.calls@ == (if is_restored(own_pid, *window) {
            restoring_calls()
        } else {
            Seq::empty()
        }),
{
    let mut calls: Vec<NativeCall> = Vec::new();
    if window.pid != own_pid {
        return CallbackOutcome { calls, keep_enumerating: true };
    }
    if !window.iconic {
        return CallbackOutcome { calls, keep_enumerating: true };
    }
    calls.push(NativeCall::ShowRestored);
    calls.push(NativeCall::TapAlt);
    calls.push(NativeCall::SetForeground);
    assert(calls@ =~= restoring_calls());
    CallbackOutcome { calls, keep_enumerating: true }
}

/// The places of the windows that are restored, in order.
pub open spec fn restored(own_pid: u32, windows: Seq<TopLevelWindow>) -> Seq<usize>
    decreases windows.len(),
{
    if windows.len() == 0 {
        Seq::empty()
    } else {
        let before = restored(own_pid, windows.drop_last());
        if is_restored(own_pid, windows.last()) {
            before.push((windows.len() - 1) as usize)
        } else {
            before
        }
    }
}

/// Pick, of the top-level windows of the system, every minimized one of this
/// process; these are restored and brought to the foreground.
pub fn restore_minimized_process_windows(own_pid: u32, windows: &Vec<TopLevelWindow>) -> (res: Vec<
    usize,
>)
    ensures
        res@ == restored(own_pid, windows@),
{
    let mut res: Vec<usize> = Vec::new();
    for i in 0..windows.len()
        invariant
            res@ == restored(own_pid, windows@.take(i as int)),
    {
        assert(windows@.take(i + 1).drop_last() =~= windows@.take(i as int));
        assert(windows@.take(i + 1).last() == windows@[i as int]);
        let outcome: CallbackOutcome = restore_minimized_windows_callback(own_pid, &windows[i]);
        if outcome.calls.len() > 0 {
            res.push(i);
        }
    }
    assert(windows@.take(windows.len() as int) =~= windows@);
    res
}

/// A window is restored exactly if it is a minimized window of this process: the
/// windows of other processes, and windows that are in view, are left alone.
pub proof fn law_restored_windows(own_pid: u32, windows: Seq<TopLevelWindow>, place: usize)
    requires
        windows.len() <= usize::MAX,
    ensures
        restored(own_pid, windows).contains(place) <==> place < windows.len()
            && windows[place as int].pid == own_pid && windows[place as int].iconic,
    decreases windows.len(),
{
    let all = restored(own_pid, windows);
    if windows.len() > 0 {
        let front = windows.drop_last();
        let before = restored(own_pid, front);
        let last = (windows.len() - 1) as usize;
        law_restored_windows(own_pid, front, place);
        if is_restored(own_pid, windows.last()) {
            assert(all == before.push(last));
            assert(all[before.len() as int] == last);
            if before.contains(place) {
                let i = choose|i: int| 0 <= i < before.len() && before[i] == place;
                assert(all[i] == place);
            }
            if all.contains(place) && place != last {
                let i = choose|i: int| 0 <= i < all.len() && all[i] == place;
                assert(before[i] == place);
            }
        }
    }
}

/// The windows are restored in the order of the system, each at most once.
pub proof fn law_restored_in_order(own_pid: u32, windows: Seq<TopLevelWindow>)
    requires
        windows.len() <= usize::MAX,
    ensures
        forall|a: int, b: int|
            0 <= a < b < restored(own_pid, windows).len() ==> (
            #[trigger] restored(own_pid, windows)[a]) < (#[trigger] restored(own_pid, windows)[b]),
        forall|a: int|
            0 <= a < restored(own_pid, windows).len() ==> (
            #[trigger] restored(own_pid, windows)[a]) < windows.len(),
    decreases windows.len(),
{
    if windows.len() > 0 {
        let before = restored(own_pid, windows.drop_last());
        law_restored_in_order(own_pid, windows.drop_last());
        assert forall|i: int| 0 <= i < restored(own_pid, windows).len() implies (
        #[trigger] restored(own_pid, windows)[i]) < windows.len() && (i < before.len() ==> restored(
            own_pid,
            windows,
        )[i] == before[i]) && (i == before.len() ==> restored(own_pid, windows)[i] == windows.len()
            - 1) by {
            if i < before.len() {
                assert(before[i] < windows.drop_last().len());
            }
        }
    }
}

/// A window that is in view, that has no handle or that belongs to a system which
/// does not tell is not minimized; a minimized one of Windows is.
pub proof fn law_minimized_window(iconic: bool)
    ensures
        !minimized(NativeWindow::Unavailable),
        !minimized(NativeWindow::Other),
        minimized(NativeWindow::Win32 { iconic }) == iconic,
{
}

} // verus!

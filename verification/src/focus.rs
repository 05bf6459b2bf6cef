//! Which window handles what was queued from outside, and which minimized
//! windows come back for it.

use vstd::prelude::*;

verus! {

/// Whether the window `window_id` handles the queues: the window focused last
/// does, and any window does as long as none has been focused.
pub open spec fn handles_queues(last_focused: Option<u64>, window_id: u64) -> bool {
    match last_focused {
        Some(id) => id == window_id,
        None => true,
    }
}

/// Tell whether the window `window_id` handles the queues.
pub fn may_handle_queues(last_focused: Option<u64>, window_id: u64) -> (res: bool)
    ensures
        res == handles_queues(last_focused, window_id),
        res == (last_focused == None::<u64> || last_focused == Some(window_id)),
{
    match last_focused {
        Some(id) => id == window_id,
        None => true,
    }
}

/// A window, as the listener sees it when it has queued something.
pub struct WindowState {
    pub id: u64,
    pub minimized: bool,
}

/// Whether a window is restored when something has been queued: it is minimized
/// and will handle the queues.
pub open spec fn wakes(last_focused: Option<u64>, window: WindowState) -> bool {
    window.minimized && handles_queues(last_focused, window.id)
}

/// The windows that are restored when something has been queued, each by its
/// place among the open windows, in order.
pub open spec fn woken(last_focused: Option<u64>, windows: Seq<WindowState>) -> Seq<usize>
    decreases windows.len(),
{
    if windows.len() == 0 {
        Seq::empty()
    } else {
        let before = woken(last_focused, windows.drop_last());
        if wakes(last_focused, windows.last()) {
            before.push((windows.len() - 1) as usize)
        } else {
            before
        }
    }
}

/// Pick the windows to restore after something has been queued: a minimized
/// window draws no frame, so it would never look at the queues. Windows that
/// will not handle them are left alone.
///
/// Returns the places of the windows to activate and to ask for a frame.
pub fn wake_minimized_windows(last_focused: Option<u64>, windows: &Vec<WindowState>) -> (res: Vec<
    usize,
>)
    ensures
        res@ == woken(last_focused, windows@),
{
    let mut res: Vec<usize> = Vec::new();
    for i in 0..windows.len()
        invariant
            res@ == woken(last_focused, windows@.take(i as int)),
    {
        assert(windows@.take(i + 1).drop_last() =~= windows@.take(i as int));
        assert(windows@.take(i + 1).last() == windows@[i as int]);
        if may_handle_queues(last_focused, windows[i].id) && windows[i].minimized {
            res.push(i);
        }
    }
    assert(windows@.take(windows.len() as int) =~= windows@);
    res
}

/// The window that is restored after something has been queued is one that will
/// handle it: exactly the minimized windows that handle the queues are woken.
pub proof fn law_woken_windows_handle_the_queues(
    last_focused: Option<u64>,
    windows: Seq<WindowState>,
    place: usize,
)
    requires
        windows.len() <= usize::MAX,
    ensures
        woken(last_focused, windows).contains(place) <==> (place < windows.len()
            && windows[place as int].minimized && handles_queues(
            last_focused,
            windows[place as int].id,
        )),
    decreases windows.len(),
{
    let all = woken(last_focused, windows);
    if windows.len() > 0 {
        let front = windows.drop_last();
        let before = woken(last_focused, front);
        let last = (windows.len() - 1) as usize;
        law_woken_windows_handle_the_queues(last_focused, front, place);
        if wakes(last_focused, windows.last()) {
            assert(all == before.push(last));
            if before.contains(place) {
                let i = choose|i: int| 0 <= i < before.len() && before[i] == place;
                assert(all[i] == place);
            }
            assert(all[before.len() as int] == last);
            if all.contains(place) && place != last {
                let i = choose|i: int| 0 <= i < all.len() && all[i] == place;
                assert(before[i] == place);
            }
        }
    }
}

/// Once a window has been focused, no two windows handle the queues.
pub proof fn law_one_window_handles_the_queues(focused: u64, a: u64, b: u64)
    requires
        handles_queues(Some(focused), a),
        handles_queues(Some(focused), b),
    ensures
        a == b,
{
}

/// A window handles the queues exactly if it was focused last, or if no window has
/// been focused.
pub proof fn law_handling_window(focused: u64, window_id: u64)
    ensures
        handles_queues(None, window_id),
        handles_queues(Some(focused), window_id) <==> focused == window_id,
{
}

/// The windows are woken in the order in which they are open, each at most once.
pub proof fn law_woken_in_order(last_focused: Option<u64>, windows: Seq<WindowState>)
    requires
        windows.len() <= usize::MAX,
    ensures
        forall|a: int, b: int|
            0 <= a < b < woken(last_focused, windows).len() ==> (
            #[trigger] woken(last_focused, windows)[a]) < (
            #[trigger] woken(last_focused, windows)[b]),
        forall|a: int|
            0 <= a < woken(last_focused, windows).len() ==> (
            #[trigger] woken(last_focused, windows)[a]) < windows.len(),
    decreases windows.len(),
{
    if windows.len() > 0 {
        let before = woken(last_focused, windows.drop_last());
        law_woken_in_order(last_focused, windows.drop_last());
        assert forall|i: int| 0 <= i < woken(last_focused, windows).len() implies (
        #[trigger] woken(last_focused, windows)[i]) < windows.len() && (i < before.len() ==> woken(
            last_focused,
            windows,
        )[i] == before[i]) && (i == before.len() ==> woken(last_focused, windows)[i] == windows.len()
            - 1) by {
            if i < before.len() {
                assert(before[i] < windows.drop_last().len());
            }
        }
    }
}

} // verus!

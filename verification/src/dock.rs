//! Activating a tab from the dock or task bar menu, in whichever window it is.

use crate::file_path::FilePath;
use crate::fulgur::{others_holding, with_path, with_title, Fulgur, Tab, WindowEntry};
use crate::search::{find_id, first_index, lemma_first_index, place, with_id};
use vstd::prelude::*;

verus! {

/// What a window does about a tab chosen from the menu.
#[derive(Clone, Copy, PartialEq, Eq, Debug, Structural)]
pub enum DockActivation {
    /// Make this tab active, focus it and redraw.
    FocusTab { tab: usize },
    /// Go to the window `window_id`, found at `entry` of the registry.
    SwitchWindow { entry: usize, window_id: u64 },
    /// No window has the tab.
    Ignore,
}

/// A tab of the window itself comes first; otherwise the first other window that
/// holds a wanted tab is gone to.
pub open spec fn dock_outcome(
    window: Fulgur,
    registry: Seq<WindowEntry>,
    wanted: spec_fn(Tab) -> bool,
) -> DockActivation {
    match first_index(window.tabs@, wanted) {
        Some(tab) => DockActivation::FocusTab { tab: tab as usize },
        None => match first_index(registry, others_holding(window.window_id, wanted)) {
            Some(entry) => DockActivation::SwitchWindow {
                entry: entry as usize,
                window_id: registry[entry].window->0.window_id,
            },
            None => DockActivation::Ignore,
        },
    }
}

/// The second half of going to another window, once that window can be changed.
#[derive(Clone, Copy, PartialEq, Eq, Debug, Structural)]
pub struct DeferredActivation {
    /// The place of the window among the open windows; it is activated.
    pub handle: usize,
    /// The tab to make active first, if the window still has it.
    pub tab: Option<usize>,
}

/// Whether `res` is what the second half does: nothing if the window is no longer
/// open; otherwise it is activated, with the first wanted tab that it has by then.
pub open spec fn deferred_outcome(
    target: Fulgur,
    window_id: u64,
    open_windows: Seq<u64>,
    wanted: spec_fn(Tab) -> bool,
    res: Option<DeferredActivation>,
) -> bool {
    match first_index(open_windows, with_id(window_id)) {
        Some(handle) => {
            &&& res is Some
            &&& res->0.handle == handle
            &&& place(res->0.tab) == first_index(target.tabs@, wanted)
        },
        None => res is None,
    }
}

impl Fulgur {
    /// Activate the tab that shows the file `path`, in this window or else in
    /// another one of the registry.
    pub fn handle_dock_activate_tab(&self, path: &FilePath, registry: &Vec<WindowEntry>) -> (res:
        DockActivation)
        ensures
            res == dock_outcome(*self, registry@, with_path(path@)),
    {
        proof {
            lemma_first_index(registry@, others_holding(self.window_id, with_path(path@)));
        }
        if let Some(tab) = self.find_tab_by_path(path) {
            return DockActivation::FocusTab { tab };
        }
        if let Some(entry) = self.find_other_by_path(path, registry) {
            if let Some(window) = &registry[entry].window {
                return DockActivation::SwitchWindow { entry, window_id: window.window_id };
            }
        }
        DockActivation::Ignore
    }

    /// Activate the tab titled `title`, in this window or else in another one of
    /// the registry.
    pub fn handle_dock_activate_tab_by_title(
        &self,
        title: &str,
        registry: &Vec<WindowEntry>,
    ) -> (res: DockActivation)
        ensures
            res == dock_outcome(*self, registry@, with_title(title@)),
    {
        proof {
            lemma_first_index(registry@, others_holding(self.window_id, with_title(title@)));
        }
        if let Some(tab) = self.find_tab_by_title(title) {
            return DockActivation::FocusTab { tab };
        }
        if let Some(entry) = self.find_other_by_title(title, registry) {
            if let Some(window) = &registry[entry].window {
                return DockActivation::SwitchWindow { entry, window_id: window.window_id };
            }
        }
        DockActivation::Ignore
    }

    /// Finish going to this window, registered as `window_id`, for the tab that
    /// shows the file `path`.
    pub fn finish_dock_activate_tab(
        &self,
        window_id: u64,
        open_windows: &Vec<u64>,
        path: &FilePath,
    ) -> (res: Option<DeferredActivation>)
        ensures
            deferred_outcome(*self, window_id, open_windows@, with_path(path@), res),
    {
        match find_id(open_windows, window_id) {
            Some(handle) => Some(DeferredActivation { handle, tab: self.find_tab_by_path(path) }),
            None => None,
        }
    }

    /// Finish going to this window, registered as `window_id`, for the tab titled
    /// `title`.
    pub fn finish_dock_activate_tab_by_title(
        &self,
        window_id: u64,
        open_windows: &Vec<u64>,
        title: &str,
    ) -> (res: Option<DeferredActivation>)
        ensures
            deferred_outcome(*self, window_id, open_windows@, with_title(title@), res),
    {
        match find_id(open_windows, window_id) {
            Some(handle) => Some(DeferredActivation { handle, tab: self.find_tab_by_title(title) }),
            None => None,
        }
    }
}

/// A tab that this window or a registered window that is there holds is always
/// found, and the window itself has precedence.
pub proof fn law_dock_finds_the_tab(
    window: Fulgur,
    registry: Seq<WindowEntry>,
    wanted: spec_fn(Tab) -> bool,
)
    ensures
        dock_outcome(window, registry, wanted) is FocusTab <==> exists|i: int|
            0 <= i < window.tabs@.len() && wanted(#[trigger] window.tabs@[i]),
        dock_outcome(window, registry, wanted) is Ignore <==> {
            &&& forall|i: int| 0 <= i < window.tabs@.len() ==> !wanted(#[trigger] window.tabs@[i])
            &&& forall|k: int, i: int|
                #![trigger registry[k].window->0.tabs@[i]]
                0 <= k < registry.len() && registry[k].id != window.window_id
                    && registry[k].window is Some && 0 <= i < registry[k].window->0.tabs@.len()
                    ==> !wanted(registry[k].window->0.tabs@[i])
        },
{
    let others = others_holding(window.window_id, wanted);
    lemma_first_index(window.tabs@, wanted);
    lemma_first_index(registry, others);
    assert forall|k: int| 0 <= k < registry.len() implies (others(#[trigger] registry[k]) <==> {
        &&& registry[k].id != window.window_id
        &&& registry[k].window is Some
        &&& exists|i: int|
            0 <= i < registry[k].window->0.tabs@.len() && wanted(
                #[trigger] registry[k].window->0.tabs@[i],
            )
    }) by {
        if registry[k].window is Some {
            lemma_first_index(registry[k].window->0.tabs@, wanted);
        }
    }
}

/// A switch that nothing interferes with reaches a tab that was asked for: if the
/// window gone to is open and has the tabs that it had, it is activated with its
/// first wanted tab.
pub proof fn law_dock_switch_reaches_the_tab(
    window: Fulgur,
    registry: Seq<WindowEntry>,
    wanted: spec_fn(Tab) -> bool,
    open_windows: Seq<u64>,
    res: Option<DeferredActivation>,
)
    requires
        registry.len() <= usize::MAX,
        dock_outcome(window, registry, wanted) is SwitchWindow,
        ({
            let target = registry[dock_outcome(
                window,
                registry,
                wanted,
            )->entry as int].window->0;
            &&& open_windows.contains(target.window_id)
            &&& deferred_outcome(target, target.window_id, open_windows, wanted, res)
        }),
    ensures
        ({
            let entry = registry[dock_outcome(window, registry, wanted)->entry as int];
            let target = entry.window->0;
            &&& entry.id != window.window_id
            &&& res is Some
            &&& open_windows[res->0.handle as int] == target.window_id
            &&& res->0.tab is Some
            &&& res->0.tab->0 < target.tabs@.len()
            &&& wanted(target.tabs@[res->0.tab->0 as int])
        }),
{
    let others = others_holding(window.window_id, wanted);
    lemma_first_index(registry, others);
    let target = registry[dock_outcome(window, registry, wanted)->entry as int].window->0;
    lemma_first_index(target.tabs@, wanted);
    lemma_first_index(open_windows, with_id(target.window_id));
    let i = choose|i: int| 0 <= i < open_windows.len() && open_windows[i] == target.window_id;
    assert(with_id(target.window_id)(open_windows[i]));
}

/// The tab that a window focuses is its first wanted one. The window that it goes to
/// instead is the first other one that is there and has a wanted tab, and no tab of
/// its own is wanted then.
pub proof fn law_dock_takes_the_first(
    window: Fulgur,
    registry: Seq<WindowEntry>,
    wanted: spec_fn(Tab) -> bool,
)
    requires
        window.tabs@.len() <= usize::MAX,
        registry.len() <= usize::MAX,
    ensures
        match dock_outcome(window, registry, wanted) {
            DockActivation::FocusTab { tab } => {
                &&& tab < window.tabs@.len()
                &&& wanted(window.tabs@[tab as int])
                &&& forall|i: int| 0 <= i < tab ==> !wanted(#[trigger] window.tabs@[i])
            },
            DockActivation::SwitchWindow { entry, window_id } => {
                &&& forall|i: int|
                    0 <= i < window.tabs@.len() ==> !wanted(#[trigger] window.tabs@[i])
                &&& entry < registry.len()
                &&& registry[entry as int].id != window.window_id
                &&& registry[entry as int].window is Some
                &&& registry[entry as int].window->0.window_id == window_id
                &&& exists|i: int|
                    0 <= i < registry[entry as int].window->0.tabs@.len() && wanted(
                        #[trigger] registry[entry as int].window->0.tabs@[i],
                    )
                &&& forall|k: int, i: int|
                    #![trigger registry[k].window->0.tabs@[i]]
                    0 <= k < entry && registry[k].id != window.window_id
                        && registry[k].window is Some && 0 <= i < registry[k].window->0.tabs@.len()
                        ==> !wanted(registry[k].window->0.tabs@[i])
            },
            DockActivation::Ignore => true,
        },
{
    let others = others_holding(window.window_id, wanted);
    lemma_first_index(window.tabs@, wanted);
    lemma_first_index(registry, others);
    assert forall|k: int| 0 <= k < registry.len() implies (others(#[trigger] registry[k]) <==> {
        &&& registry[k].id != window.window_id
        &&& registry[k].window is Some
        &&& exists|i: int|
            0 <= i < registry[k].window->0.tabs@.len() && wanted(
                #[trigger] registry[k].window->0.tabs@[i],
            )
    }) by {
        if registry[k].window is Some {
            lemma_first_index(registry[k].window->0.tabs@, wanted);
        }
    }
}

/// A window is activated exactly if it is still open. It is the first open one with
/// the identifier, and its first wanted tab becomes active, if it has one.
pub proof fn law_deferred_activation(
    target: Fulgur,
    window_id: u64,
    open_windows: Seq<u64>,
    wanted: spec_fn(Tab) -> bool,
    res: Option<DeferredActivation>,
)
    requires
        deferred_outcome(target, window_id, open_windows, wanted, res),
    ensures
        res is Some <==> open_windows.contains(window_id),
        match res {
            Some(activation) => {
                &&& activation.handle < open_windows.len()
                &&& open_windows[activation.handle as int] == window_id
                &&& forall|i: int|
                    0 <= i < activation.handle ==> #[trigger] open_windows[i] != window_id
                &&& match activation.tab {
                    Some(tab) => {
                        &&& tab < target.tabs@.len()
                        &&& wanted(target.tabs@[tab as int])
                        &&& forall|i: int| 0 <= i < tab ==> !wanted(#[trigger] target.tabs@[i])
                    },
                    None => forall|i: int|
                        0 <= i < target.tabs@.len() ==> !wanted(#[trigger] target.tabs@[i]),
                }
            },
            None => true,
        },
{
    lemma_first_index(open_windows, with_id(window_id));
    lemma_first_index(target.tabs@, wanted);
    assert forall|i: int| 0 <= i < open_windows.len() implies (with_id(window_id)(
        #[trigger] open_windows[i],
    ) <==> open_windows[i] == window_id) by {}
}

} // verus!

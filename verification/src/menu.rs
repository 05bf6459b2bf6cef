//! The snapshot of a window's tabs from which the system menus are built.

use crate::file_path::{optional_path, FilePath};
use crate::fulgur::{Fulgur, Tab};
use vstd::prelude::*;

verus! {

/// What the menus show of a tab.
pub struct WindowMenuTab {
    pub path: Option<FilePath>,
    pub title: String,
}

/// The path and the title that a [`WindowMenuTab`] holds.
pub ghost struct MenuTabView {
    pub path: Option<Seq<Seq<u8>>>,
    pub title: Seq<char>,
}

impl View for WindowMenuTab {
    type V = MenuTabView;

    open spec fn view(&self) -> MenuTabView {
        MenuTabView { path: optional_path(self.path), title: self.title@ }
    }
}

/// What the menus show of a list of tabs.
pub open spec fn menu_tabs(list: Seq<WindowMenuTab>) -> Seq<MenuTabView> {
    list.map_values(|tab: WindowMenuTab| tab@)
}

/// What the menus should show of the tabs of a window.
pub open spec fn snapshot(tabs: Seq<Tab>) -> Seq<MenuTabView> {
    tabs.map_values(|tab: Tab| MenuTabView { path: tab.spec_path(), title: tab.spec_title() })
}

/// What was published for a window, if anything was.
pub open spec fn published_tabs(published: Option<Vec<WindowMenuTab>>) -> Option<Seq<MenuTabView>> {
    match published {
        Some(tabs) => Some(menu_tabs(tabs@)),
        None => None,
    }
}

/// Whether the tabs of a window have to be published: the menus show something
/// else.
pub open spec fn must_publish(published: Option<Seq<MenuTabView>>, tabs: Seq<Tab>) -> bool {
    published != Some(snapshot(tabs))
}

fn same_optional_path(a: &Option<FilePath>, b: &Option<FilePath>) -> (res: bool)
    ensures
        res == (optional_path(*a) == optional_path(*b)),
{
    match (a, b) {
        (Some(a), Some(b)) => a.same_path(b),
        (None, None) => true,
        _ => false,
    }
}

fn same_tabs(a: &Vec<WindowMenuTab>, b: &Vec<WindowMenuTab>) -> (res: bool)
    ensures
        res == (menu_tabs(a@) == menu_tabs(b@)),
{
    if a.len() != b.len() {
        assert(menu_tabs(a@).len() != menu_tabs(b@).len());
        return false;
    }
    for i in 0..a.len()
        invariant
            a.len() == b.len(),
            forall|j: int| 0 <= j < i ==> menu_tabs(a@)[j] == menu_tabs(b@)[j],
    {
        if !(a[i].title == b[i].title && same_optional_path(&a[i].path, &b[i].path)) {
            assert(menu_tabs(a@)[i as int] != menu_tabs(b@)[i as int]);
            return false;
        }
    }
    assert(menu_tabs(a@) =~= menu_tabs(b@));
    true
}

impl Tab {
    /// What the menus show of the tab: the file only if it is an editor's.
    pub fn menu_tab(&self) -> (res: WindowMenuTab)
        ensures
            res@ == (MenuTabView { path: self.spec_path(), title: self.spec_title() }),
    {
        match self {
            Tab::Editor { file_path: Some(path), title, .. } => WindowMenuTab {
                path: Some(path.duplicate()),
                title: title.clone(),
            },
            Tab::Editor { file_path: None, title, .. } => WindowMenuTab {
                path: None,
                title: title.clone(),
            },
            Tab::Other { title } => WindowMenuTab { path: None, title: title.clone() },
        }
    }
}

impl Fulgur {
    /// Publish what the menus show of this window, unless that is what `published`
    /// holds already.
    ///
    /// Returns whether something was published, and the menus have to be rebuilt.
    pub fn publish_window_menu_tabs_if_changed(
        &self,
        published: &mut Option<Vec<WindowMenuTab>>,
    ) -> (changed: bool)
        ensures
            changed == must_publish(published_tabs(*old(published)), self.tabs@),
            published_tabs(*final(published)) == Some(snapshot(self.tabs@)),
            !changed ==> *final(published) == *old(published),
    {
        let mut tabs: Vec<WindowMenuTab> = Vec::new();
        for i in 0..self.tabs.len()
            invariant
                tabs.len() == i,
                forall|j: int| 0 <= j < i ==> (#[trigger] tabs@[j])@ == snapshot(self.tabs@)[j],
        {
            tabs.push(self.tabs[i].menu_tab());
        }
        assert(menu_tabs(tabs@) =~= snapshot(self.tabs@));
        let unchanged: bool = match &*published {
            Some(known) => same_tabs(known, &tabs),
            None => false,
        };
        if unchanged {
            return false;
        }
        *published = Some(tabs);
        true
    }
}

/// Once the tabs of a window have been published, they are published again only
/// when a title or a file has changed, or tabs were added, removed or moved.
pub proof fn law_published_again_only_on_a_change(before: Seq<Tab>, after: Seq<Tab>)
    ensures
        must_publish(Some(snapshot(before)), after) <==> {
            ||| before.len() != after.len()
            ||| exists|i: int|
                0 <= i < after.len() && ((#[trigger] before[i]).spec_title() != (
                #[trigger] after[i]).spec_title() || before[i].spec_path() != after[i].spec_path())
        },
{
    let old_view = snapshot(before);
    let new_view = snapshot(after);
    if before.len() == after.len() {
        if forall|i: int|
            0 <= i < after.len() ==> (#[trigger] before[i]).spec_title() == (
            #[trigger] after[i]).spec_title() && before[i].spec_path() == after[i].spec_path() {
            assert(old_view =~= new_view);
        } else {
            let i = choose|i: int|
                0 <= i < after.len() && ((#[trigger] before[i]).spec_title() != (
                #[trigger] after[i]).spec_title() || before[i].spec_path() != after[i].spec_path());
            assert(old_view[i] != new_view[i]);
        }
    } else {
        assert(old_view.len() != new_view.len());
    }
}

/// The menus show the file and the title of every tab of the window, in order.
pub proof fn law_snapshot(tabs: Seq<Tab>, i: int)
    requires
        0 <= i < tabs.len(),
    ensures
        snapshot(tabs).len() == tabs.len(),
        snapshot(tabs)[i].path == tabs[i].spec_path(),
        snapshot(tabs)[i].title == tabs[i].spec_title(),
{
}

/// A list that was published stands for the file and the title of each of its tabs,
/// in order; nothing stands for itself.
pub proof fn law_published_list(list: Vec<WindowMenuTab>, i: int)
    requires
        0 <= i < list@.len(),
    ensures
        published_tabs(None) is None,
        published_tabs(Some(list)) == Some(menu_tabs(list@)),
        menu_tabs(list@).len() == list@.len(),
        menu_tabs(list@)[i].title == list@[i].title@,
        match list@[i].path {
            Some(path) => menu_tabs(list@)[i].path == Some(path@),
            None => menu_tabs(list@)[i].path is None,
        },
{
}

/// Tabs have to be published exactly if nothing was, or if something else was.
pub proof fn law_must_publish(known: Seq<MenuTabView>, tabs: Seq<Tab>)
    ensures
        must_publish(None, tabs),
        must_publish(Some(known), tabs) <==> known != snapshot(tabs),
{
}

} // verus!

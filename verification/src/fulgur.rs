//! What an editor window makes of requests that reach it from outside: files to
//! open, tabs to activate, commands of another process.

use crate::file_path::{optional_path, FilePath};
use crate::search::{
    first_index, lemma_first_index, lemma_first_index_is, lemma_first_index_none, place,
};
use crate::text::same_text;
use vstd::prelude::*;

verus! {

/// A tab of a window.
pub enum Tab {
    /// An editor, with the file that it shows, if any.
    Editor { file_path: Option<FilePath>, title: String, modified: bool },
    /// A tab that shows no file, such as the settings.
    Other { title: String },
}

impl Tab {
    /// The title of the tab.
    pub open spec fn spec_title(self) -> Seq<char> {
        match self {
            Tab::Editor { title, .. } => title@,
            Tab::Other { title } => title@,
        }
    }

    /// The file that the tab shows.
    pub open spec fn spec_path(self) -> Option<Seq<Seq<u8>>> {
        match self {
            Tab::Editor { file_path, .. } => optional_path(file_path),
            Tab::Other { .. } => None,
        }
    }

    /// Whether the tab holds changes that are not saved.
    pub open spec fn spec_modified(self) -> bool {
        match self {
            Tab::Editor { modified, .. } => modified,
            Tab::Other { .. } => false,
        }
    }

    /// The title of the tab.
    pub fn title(&self) -> (res: &String)
        ensures
            res@ == self.spec_title(),
    {
        match self {
            Tab::Editor { title, .. } => title,
            Tab::Other { title } => title,
        }
    }

    /// Whether the tab shows the file `path`.
    pub fn shows(&self, path: &FilePath) -> (res: bool)
        ensures
            res == (self.spec_path() == Some(path@)),
    {
        match self {
            Tab::Editor { file_path: Some(own), .. } => own.same_path(path),
            _ => false,
        }
    }

    /// Whether the tab holds changes that are not saved.
    pub fn is_modified(&self) -> (res: bool)
        ensures
            res == self.spec_modified(),
    {
        match self {
            Tab::Editor { modified, .. } => *modified,
            Tab::Other { .. } => false,
        }
    }
}

/// An editor window.
pub struct Fulgur {
    pub window_id: u64,
    pub tabs: Vec<Tab>,
}

/// The tabs that show the file `path`.
pub open spec fn with_path(path: Seq<Seq<u8>>) -> spec_fn(Tab) -> bool {
    |tab: Tab| tab.spec_path() == Some(path)
}

/// The tabs that are titled `title`.
pub open spec fn with_title(title: Seq<char>) -> spec_fn(Tab) -> bool {
    |tab: Tab| tab.spec_title() == title
}

impl Fulgur {
    /// The first tab that shows the file `path`.
    pub fn find_tab_by_path(&self, path: &FilePath) -> (res: Option<usize>)
        ensures
            place(res) == first_index(self.tabs@, with_path(path@)),
            match res {
                Some(i) => {
                    &&& i < self.tabs@.len()
                    &&& self.tabs@[i as int].spec_path() == Some(path@)
                    &&& forall|j: int|
                        0 <= j < i ==> (#[trigger] self.tabs@[j]).spec_path() != Some(path@)
                },
                None => forall|j: int|
                    0 <= j < self.tabs@.len() ==> (#[trigger] self.tabs@[j]).spec_path() != Some(
                        path@,
                    ),
            },
    {
        for i in 0..self.tabs.len()
            invariant
                forall|j: int| 0 <= j < i ==> !with_path(path@)(#[trigger] self.tabs@[j]),
        {
            if self.tabs[i].shows(path) {
                proof {
                    lemma_first_index_is(self.tabs@, with_path(path@), i as int);
                }
                return Some(i);
            }
        }
        proof {
            lemma_first_index_none(self.tabs@, with_path(path@));
        }
        None
    }

    /// The first tab titled `title`.
    pub fn find_tab_by_title(&self, title: &str) -> (res: Option<usize>)
        ensures
            place(res) == first_index(self.tabs@, with_title(title@)),
            match res {
                Some(i) => {
                    &&& i < self.tabs@.len()
                    &&& self.tabs@[i as int].spec_title() == title@
                    &&& forall|j: int|
                        0 <= j < i ==> (#[trigger] self.tabs@[j]).spec_title() != title@
                },
                None => forall|j: int|
                    0 <= j < self.tabs@.len() ==> (#[trigger] self.tabs@[j]).spec_title() != title@,
            },
    {
        for i in 0..self.tabs.len()
            invariant
                forall|j: int| 0 <= j < i ==> !with_title(title@)(#[trigger] self.tabs@[j]),
        {
            if same_text(self.tabs[i].title().as_str(), title) {
                proof {
                    lemma_first_index_is(self.tabs@, with_title(title@), i as int);
                }
                return Some(i);
            }
        }
        proof {
            lemma_first_index_none(self.tabs@, with_title(title@));
        }
        None
    }
}

/// A window that is registered, by the identifier it was registered under. The
/// window itself may be gone.
pub struct WindowEntry {
    pub id: u64,
    pub window: Option<Fulgur>,
}

/// The registered windows, other than `window_id`, that are there and hold a
/// wanted tab.
pub open spec fn others_holding(window_id: u64, wanted: spec_fn(Tab) -> bool) -> spec_fn(
    WindowEntry,
) -> bool {
    |entry: WindowEntry|
        entry.id != window_id && match entry.window {
            Some(window) => first_index(window.tabs@, wanted) is Some,
            None => false,
        }
}

impl Fulgur {
    /// The first registered window, other than this one, that shows the file `path`.
    pub fn find_other_by_path(&self, path: &FilePath, registry: &Vec<WindowEntry>) -> (res: Option<
        usize,
    >)
        ensures
            place(res) == first_index(registry@, others_holding(self.window_id, with_path(path@))),
    {
        let ghost wanted = others_holding(self.window_id, with_path(path@));
        for i in 0..registry.len()
            invariant
                wanted == others_holding(self.window_id, with_path(path@)),
                forall|j: int| 0 <= j < i ==> !wanted(#[trigger] registry@[j]),
        {
            if registry[i].id != self.window_id {
                if let Some(window) = &registry[i].window {
                    if window.find_tab_by_path(path).is_some() {
                        proof {
                            lemma_first_index_is(registry@, wanted, i as int);
                        }
                        return Some(i);
                    }
                }
            }
        }
        proof {
            lemma_first_index_none(registry@, wanted);
        }
        None
    }

    /// The first registered window, other than this one, that has a tab titled
    /// `title`.
    pub fn find_other_by_title(&self, title: &str, registry: &Vec<WindowEntry>) -> (res: Option<
        usize,
    >)
        ensures
            place(res) == first_index(registry@, others_holding(self.window_id, with_title(title@))),
    {
        let ghost wanted = others_holding(self.window_id, with_title(title@));
        for i in 0..registry.len()
            invariant
                wanted == others_holding(self.window_id, with_title(title@)),
                forall|j: int| 0 <= j < i ==> !wanted(#[trigger] registry@[j]),
        {
            if registry[i].id != self.window_id {
                if let Some(window) = &registry[i].window {
                    if window.find_tab_by_title(title).is_some() {
                        proof {
                            lemma_first_index_is(registry@, wanted, i as int);
                        }
                        return Some(i);
                    }
                }
            }
        }
        proof {
            lemma_first_index_none(registry@, wanted);
        }
        None
    }
}

/// An editor tab shows the file, the title and the changes that it was given; any
/// other tab shows its title alone.
pub proof fn law_tab(path: FilePath, title: String, modified: bool)
    ensures
        (Tab::Editor { file_path: Some(path), title, modified }).spec_path() == Some(path@),
        (Tab::Editor { file_path: None, title, modified }).spec_path() is None,
        (Tab::Other { title }).spec_path() is None,
        (Tab::Editor { file_path: Some(path), title, modified }).spec_title() == title@,
        (Tab::Editor { file_path: None, title, modified }).spec_title() == title@,
        (Tab::Other { title }).spec_title() == title@,
        (Tab::Editor { file_path: Some(path), title, modified }).spec_modified() == modified,
        (Tab::Editor { file_path: None, title, modified }).spec_modified() == modified,
        !(Tab::Other { title }).spec_modified(),
{
}

/// A tab is wanted for a path exactly if it shows that file, and for a title exactly
/// if it is titled so.
pub proof fn law_wanted_tab(tab: Tab, path: Seq<Seq<u8>>, title: Seq<char>)
    ensures
        with_path(path)(tab) <==> tab.spec_path() == Some(path),
        with_title(title)(tab) <==> tab.spec_title() == title,
{
}

/// A registered window holds a wanted tab for another window exactly if it is not
/// that window, is there, and some tab of it is wanted.
pub proof fn law_other_window_holding(
    window_id: u64,
    wanted: spec_fn(Tab) -> bool,
    entry: WindowEntry,
)
    ensures
        others_holding(window_id, wanted)(entry) <==> {
            &&& entry.id != window_id
            &&& entry.window is Some
            &&& exists|i: int|
                0 <= i < entry.window->0.tabs@.len() && wanted(
                    #[trigger] entry.window->0.tabs@[i],
                )
        },
{
    if entry.window is Some {
        lemma_first_index(entry.window->0.tabs@, wanted);
    }
}

} // verus!

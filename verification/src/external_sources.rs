//! Opening files that come from outside the editor: from the command line, or
//! dropped onto a window.

use crate::file_path::FilePath;
use crate::fulgur::{others_holding, with_path, Fulgur, WindowEntry};
use crate::search::{first_index, lemma_first_index};
use crate::text::{decimal, decimal_text};
use vstd::prelude::*;

verus! {

/// What a window does about a file that it is asked to open.
#[derive(Clone, Copy, PartialEq, Eq, Debug, Structural)]
pub enum OpenDecision {
    /// The window has the file open: focus that tab, and ask about its unsaved
    /// changes if there are any.
    FocusTab { tab: usize, prompt: bool },
    /// Another window has the file open, the one at `entry` of the registry: say so.
    NotifyOpenElsewhere { entry: usize },
    /// No window has the file open: open it in a tab and focus that.
    OpenTab,
}

/// A tab of the window itself comes first, then a tab of another window; a file
/// that no window has open gets a tab.
pub open spec fn open_decision(
    window: Fulgur,
    path: Seq<Seq<u8>>,
    registry: Seq<WindowEntry>,
) -> OpenDecision {
    match first_index(window.tabs@, with_path(path)) {
        Some(tab) => OpenDecision::FocusTab {
            tab: tab as usize,
            prompt: window.tabs@[tab].spec_modified(),
        },
        None => match first_index(registry, others_holding(window.window_id, with_path(path))) {
            Some(entry) => OpenDecision::NotifyOpenElsewhere { entry: entry as usize },
            None => OpenDecision::OpenTab,
        },
    }
}

/// An item dropped onto a window, and whether it is a file.
pub struct DroppedItem {
    pub path: FilePath,
    pub is_file: bool,
}

/// Whether the item at `i` is opened: it is a file, and no file before it has the
/// same path.
pub open spec fn opens(items: Seq<DroppedItem>, i: int) -> bool {
    &&& items[i].is_file
    &&& forall|j: int| 0 <= j < i && (#[trigger] items[j]).is_file ==> items[j].path@ != items[i].path@
}

/// The places of the items that are opened, in order.
pub open spec fn opened(items: Seq<DroppedItem>) -> Seq<usize>
    decreases items.len(),
{
    if items.len() == 0 {
        Seq::empty()
    } else if opens(items, items.len() - 1) {
        opened(items.drop_last()).push((items.len() - 1) as usize)
    } else {
        opened(items.drop_last())
    }
}

/// How many items are not files.
pub open spec fn skipped(items: Seq<DroppedItem>) -> nat
    decreases items.len(),
{
    if items.len() == 0 {
        0
    } else {
        skipped(items.drop_last()) + if items.last().is_file {
            0nat
        } else {
            1nat
        }
    }
}

/// What the user is told about items that are not files.
pub open spec fn drop_notice(opened: nat, skipped: nat) -> Option<Seq<char>> {
    if skipped == 0 {
        None
    } else if opened == 0 {
        Some("Dropped items contain no files to open"@)
    } else {
        Some("Ignored "@ + decimal_text(skipped) + " dropped item(s) that are not files"@)
    }
}

/// What a window does about dropped items.
pub struct DropOutcome {
    /// The places of the items to open, in order.
    pub open: Vec<usize>,
    /// What to tell the user afterwards.
    pub notice: Option<String>,
}

fn repeats_a_file(items: &Vec<DroppedItem>, i: usize) -> (res: bool)
    requires
        i < items.len(),
    ensures
        res == exists|j: int|
            0 <= j < i && (#[trigger] items@[j]).is_file && items@[j].path@ == items@[i as int].path@,
{
    for j in 0..i
        invariant
            i < items.len(),
            forall|k: int|
                0 <= k < j && (#[trigger] items@[k]).is_file ==> items@[k].path@
                    != items@[i as int].path@,
    {
        if items[j].is_file && items[j].path.same_path(&items[i].path) {
            return true;
        }
    }
    false
}

impl Fulgur {
    /// Decide how the file `path`, named on the command line or opened by the
    /// system, is opened.
    pub fn handle_open_file_from_cli(&self, path: &FilePath, registry: &Vec<WindowEntry>) -> (res:
        OpenDecision)
        ensures
            res == open_decision(*self, path@, registry@),
    {
        proof {
            lemma_first_index(self.tabs@, with_path(path@));
        }
        if let Some(tab) = self.find_tab_by_path(path) {
            return OpenDecision::FocusTab { tab, prompt: self.tabs[tab].is_modified() };
        }
        match self.find_other_by_path(path, registry) {
            Some(entry) => OpenDecision::NotifyOpenElsewhere { entry },
            None => OpenDecision::OpenTab,
        }
    }

    /// Decide what to open of the items dropped onto the window. Items that are
    /// not files are skipped, and a file dropped more than once is opened once.
    pub fn handle_external_paths_drop(&self, items: &Vec<DroppedItem>) -> (res: DropOutcome)
        ensures
            res.open@ == opened(items@),
            match res.notice {
                Some(notice) => drop_notice(opened(items@).len(), skipped(items@)) == Some(notice@),
                None => drop_notice(opened(items@).len(), skipped(items@)) is None,
            },
    {
        let mut open: Vec<usize> = Vec::new();
        let mut skipped_non_files: usize = 0;
        for i in 0..items.len()
            invariant
                open@ == opened(items@.take(i as int)),
                skipped_non_files == skipped(items@.take(i as int)),
                skipped_non_files <= i,
        {
            proof {
                let upto = items@.take(i + 1);
                assert(upto.drop_last() =~= items@.take(i as int));
                assert(upto.last() == items@[i as int]);
                assert forall|j: int| 0 <= j <= i implies upto[j] == #[trigger] items@[j] by {}
                assert(opens(upto, i as int) == opens(items@, i as int)) by {
                    if opens(upto, i as int) {
                        assert forall|j: int| 0 <= j < i && (#[trigger] items@[j]).is_file implies items@[j].path@
                            != items@[i as int].path@ by {
                            assert(upto[j] == items@[j]);
                        }
                    }
                }
            }
            if !items[i].is_file {
                skipped_non_files += 1;
            } else if !repeats_a_file(items, i) {
                open.push(i);
            }
        }
        assert(items@.take(items.len() as int) =~= items@);
        let notice: Option<String> = if skipped_non_files == 0 {
            None
        } else if open.len() == 0 {
            Some("Dropped items contain no files to open".to_owned())
        } else {
            let mut text: String = "Ignored ".to_owned();
            text.append(decimal(skipped_non_files).as_str());
            text.append(" dropped item(s) that are not files");
            Some(text)
        };
        DropOutcome { open, notice }
    }
}

/// The file that a window opens is one that no window it knows of has open.
pub proof fn law_opened_file_is_open_nowhere(
    window: Fulgur,
    path: Seq<Seq<u8>>,
    registry: Seq<WindowEntry>,
)
    requires
        open_decision(window, path, registry) is OpenTab,
    ensures
        forall|i: int|
            0 <= i < window.tabs@.len() ==> (#[trigger] window.tabs@[i]).spec_path() != Some(path),
        forall|k: int, i: int|
            #![trigger registry[k].window->0.tabs@[i]]
            0 <= k < registry.len() && registry[k].id != window.window_id
                && registry[k].window is Some && 0 <= i < registry[k].window->0.tabs@.len()
                ==> registry[k].window->0.tabs@[i].spec_path() != Some(path),
{
    let wanted = with_path(path);
    lemma_first_index(window.tabs@, wanted);
    lemma_first_index(registry, others_holding(window.window_id, wanted));
    assert forall|i: int| 0 <= i < window.tabs@.len() implies (
    #[trigger] window.tabs@[i]).spec_path() != Some(path) by {
        assert(!wanted(window.tabs@[i]));
    }
    assert forall|k: int, i: int|
        #![trigger registry[k].window->0.tabs@[i]]
        0 <= k < registry.len() && registry[k].id != window.window_id && registry[k].window is Some
            && 0 <= i < registry[k].window->0.tabs@.len() implies registry[k].window->0.tabs@[i].spec_path()
        != Some(path) by {
        assert(!others_holding(window.window_id, wanted)(registry[k]));
        lemma_first_index(registry[k].window->0.tabs@, wanted);
        assert(!wanted(registry[k].window->0.tabs@[i]));
    }
}

proof fn lemma_opened_places(items: Seq<DroppedItem>, i: usize)
    requires
        items.len() <= usize::MAX,
    ensures
        opened(items).contains(i) <==> (i < items.len() && opens(items, i as int)),
        forall|a: int, b: int|
            0 <= a < b < opened(items).len() ==> (#[trigger] opened(items)[a]) < (
            #[trigger] opened(items)[b]),
        forall|a: int| 0 <= a < opened(items).len() ==> (#[trigger] opened(items)[a]) < items.len(),
    decreases items.len(),
{
    let all = opened(items);
    if items.len() > 0 {
        let front = items.drop_last();
        let before = opened(front);
        let last = (items.len() - 1) as usize;
        lemma_opened_places(front, i);
        if i < front.len() {
            assert(opens(front, i as int) == opens(items, i as int)) by {
                assert(forall|j: int| 0 <= j < front.len() ==> front[j] == #[trigger] items[j]);
                if opens(front, i as int) {
                    assert forall|j: int| 0 <= j < i && (#[trigger] items[j]).is_file implies items[j].path@
                        != items[i as int].path@ by {
                        assert(front[j] == items[j]);
                    }
                }
            }
        }
        if opens(items, items.len() - 1) {
            assert(all == before.push(last));
            assert(all[before.len() as int] == last);
            if before.contains(i) {
                let a = choose|a: int| 0 <= a < before.len() && before[a] == i;
                assert(all[a] == i);
            }
            if all.contains(i) && i != last {
                let a = choose|a: int| 0 <= a < all.len() && all[a] == i;
                assert(before[a] == i);
            }
        }
    }
}

proof fn lemma_first_file_opens(items: Seq<DroppedItem>, i: int)
    requires
        0 <= i < items.len(),
        items[i].is_file,
    ensures
        exists|k: int|
            0 <= k <= i && (#[trigger] items[k]).path@ == items[i].path@ && opens(items, k),
    decreases i,
{
    if opens(items, i) {
        assert(items[i].path@ == items[i].path@);
    } else {
        let j = choose|j: int|
            0 <= j < i && (#[trigger] items[j]).is_file && items[j].path@ == items[i].path@;
        lemma_first_file_opens(items, j);
    }
}

/// Of the files in one drop, each distinct path is opened exactly once, at its
/// first place and in the order of the drop; nothing else is opened.
pub proof fn law_drop_opens_each_file_once(items: Seq<DroppedItem>)
    requires
        items.len() <= usize::MAX,
    ensures
        forall|a: int, b: int|
            0 <= a < b < opened(items).len() ==> {
                &&& (#[trigger] opened(items)[a]) < (#[trigger] opened(items)[b])
                &&& items[opened(items)[a] as int].path@ != items[opened(items)[b] as int].path@
            },
        forall|a: int|
            0 <= a < opened(items).len() ==> (#[trigger] opened(items)[a]) < items.len()
                && items[opened(items)[a] as int].is_file,
        forall|i: int|
            0 <= i < items.len() && (#[trigger] items[i]).is_file ==> exists|a: int|
                0 <= a < opened(items).len() && (#[trigger] opened(items)[a]) <= i
                    && items[opened(items)[a] as int].path@ == items[i].path@,
{
    let all = opened(items);
    lemma_opened_places(items, 0);
    assert forall|a: int| 0 <= a < all.len() implies (#[trigger] all[a]) < items.len() && opens(
        items,
        all[a] as int,
    ) by {
        lemma_opened_places(items, all[a]);
        assert(all.contains(all[a]));
    }
    assert forall|a: int, b: int| 0 <= a < b < all.len() implies (#[trigger] all[a]) < (
    #[trigger] all[b]) && items[all[a] as int].path@ != items[all[b] as int].path@ by {
        assert(opens(items, all[b] as int));
        assert(opens(items, all[a] as int));
        assert(items[all[a] as int].is_file);
    }
    assert forall|i: int| 0 <= i < items.len() && (#[trigger] items[i]).is_file implies exists|
        a: int,
    |
        0 <= a < all.len() && (#[trigger] all[a]) <= i && items[all[a] as int].path@
            == items[i].path@ by {
        lemma_first_file_opens(items, i);
        let k = choose|k: int|
            0 <= k <= i && (#[trigger] items[k]).path@ == items[i].path@ && opens(items, k);
        lemma_opened_places(items, k as usize);
        let a = choose|a: int| 0 <= a < all.len() && all[a] == k as usize;
        assert(all[a] <= i);
    }
}

/// The user hears of a drop exactly if it holds something that is not a file.
pub proof fn law_drop_notice(items: Seq<DroppedItem>)
    ensures
        drop_notice(opened(items).len(), skipped(items)) is Some <==> exists|i: int|
            0 <= i < items.len() && !(#[trigger] items[i]).is_file,
    decreases items.len(),
{
    if items.len() > 0 {
        let front = items.drop_last();
        law_drop_notice(front);
        if exists|i: int| 0 <= i < items.len() && !(#[trigger] items[i]).is_file {
            let i = choose|i: int| 0 <= i < items.len() && !(#[trigger] items[i]).is_file;
            if i < front.len() {
                assert(!front[i].is_file);
            }
        }
        if exists|i: int| 0 <= i < front.len() && !(#[trigger] front[i]).is_file {
            let i = choose|i: int| 0 <= i < front.len() && !(#[trigger] front[i]).is_file;
            assert(!items[i].is_file);
        }
        if !items.last().is_file {
            assert(!items[items.len() - 1].is_file);
        }
    }
}

/// A window focuses the tab of its own that shows the file, asking about its unsaved
/// changes exactly if there are any. Only if no tab of its own shows the file does
/// it point to another registered window that is there and shows it, the first such
/// one. It opens a tab exactly if no tab of either kind shows the file, however many
/// windows are registered.
pub proof fn law_open_decision(window: Fulgur, path: Seq<Seq<u8>>, registry: Seq<WindowEntry>)
    requires
        window.tabs@.len() <= usize::MAX,
        registry.len() <= usize::MAX,
    ensures
        open_decision(window, path, registry) is FocusTab <==> exists|i: int|
            0 <= i < window.tabs@.len() && (#[trigger] window.tabs@[i]).spec_path() == Some(path),
        open_decision(window, path, registry) is OpenTab <==> {
            &&& forall|i: int|
                0 <= i < window.tabs@.len() ==> (#[trigger] window.tabs@[i]).spec_path() != Some(
                    path,
                )
            &&& forall|k: int, i: int|
                #![trigger registry[k].window->0.tabs@[i]]
                0 <= k < registry.len() && registry[k].id != window.window_id
                    && registry[k].window is Some && 0 <= i < registry[k].window->0.tabs@.len()
                    ==> registry[k].window->0.tabs@[i].spec_path() != Some(path)
        },
        match open_decision(window, path, registry) {
            OpenDecision::FocusTab { tab, prompt } => {
                &&& tab < window.tabs@.len()
                &&& window.tabs@[tab as int].spec_path() == Some(path)
                &&& prompt == window.tabs@[tab as int].spec_modified()
                &&& forall|i: int|
                    0 <= i < tab ==> (#[trigger] window.tabs@[i]).spec_path() != Some(path)
            },
            OpenDecision::NotifyOpenElsewhere { entry } => {
                &&& entry < registry.len()
                &&& registry[entry as int].id != window.window_id
                &&& registry[entry as int].window is Some
                &&& exists|i: int|
                    0 <= i < registry[entry as int].window->0.tabs@.len() && (
                    #[trigger] registry[entry as int].window->0.tabs@[i]).spec_path() == Some(path)
                &&& forall|k: int, i: int|
                    #![trigger registry[k].window->0.tabs@[i]]
                    0 <= k < entry && registry[k].id != window.window_id
                        && registry[k].window is Some && 0 <= i < registry[k].window->0.tabs@.len()
                        ==> registry[k].window->0.tabs@[i].spec_path() != Some(path)
            },
            OpenDecision::OpenTab => true,
        },
{
    let wanted = with_path(path);
    let others = others_holding(window.window_id, wanted);
    lemma_first_index(window.tabs@, wanted);
    lemma_first_index(registry, others);
    assert forall|i: int| 0 <= i < window.tabs@.len() implies (wanted(#[trigger] window.tabs@[i])
        <==> window.tabs@[i].spec_path() == Some(path)) by {}
    assert forall|k: int| 0 <= k < registry.len() implies (others(#[trigger] registry[k]) <==> {
        &&& registry[k].id != window.window_id
        &&& registry[k].window is Some
        &&& exists|i: int|
            0 <= i < registry[k].window->0.tabs@.len() && (
            #[trigger] registry[k].window->0.tabs@[i]).spec_path() == Some(path)
    }) by {
        if registry[k].window is Some {
            let tabs = registry[k].window->0.tabs@;
            lemma_first_index(tabs, wanted);
            assert forall|i: int| 0 <= i < tabs.len() implies (wanted(#[trigger] tabs[i])
                <==> tabs[i].spec_path() == Some(path)) by {}
        }
    }
}

/// Every item that is not a file counts as skipped, and no other does.
pub proof fn law_skipped_items(a: Seq<DroppedItem>, b: Seq<DroppedItem>, item: DroppedItem)
    ensures
        skipped(Seq::empty()) == 0,
        skipped(a + b) == skipped(a) + skipped(b),
        skipped(seq![item]) == (if item.is_file {
            0nat
        } else {
            1nat
        }),
    decreases b.len(),
{
    assert(skipped(Seq::empty()) == 0);
    assert(seq![item].drop_last() =~= Seq::empty());
    assert(seq![item].last() == item);
    if b.len() == 0 {
        assert(a + b =~= a);
    } else {
        law_skipped_items(a, b.drop_last(), item);
        assert((a + b).drop_last() =~= a + b.drop_last());
        assert((a + b).last() == b.last());
    }
}

/// The user is told how many items were ignored if anything is opened, and that there
/// is nothing to open if not; nothing is said if every item was a file.
pub proof fn law_drop_notice_text(opened: nat, skipped: nat)
    ensures
        drop_notice(opened, 0) is None,
        skipped > 0 ==> drop_notice(0, skipped) == Some("Dropped items contain no files to open"@),
        opened > 0 && skipped > 0 ==> drop_notice(opened, skipped) == Some(
            "Ignored "@ + decimal_text(skipped) + " dropped item(s) that are not files"@,
        ),
{
}

} // verus!

//! The first item of a sequence that is wanted.

use vstd::prelude::*;

verus! {

/// The place of the first item of `items` that is wanted, if there is one.
pub open spec fn first_index<T>(items: Seq<T>, wanted: spec_fn(T) -> bool) -> Option<int>
    decreases items.len(),
{
    if items.len() == 0 {
        None
    } else {
        match first_index(items.drop_last(), wanted) {
            Some(i) => Some(i),
            None => if wanted(items.last()) {
                Some(items.len() - 1)
            } else {
                None
            },
        }
    }
}

/// A place that executable code found, as a mathematical integer.
pub open spec fn place(found: Option<usize>) -> Option<int> {
    match found {
        Some(i) => Some(i as int),
        None => None,
    }
}

/// What [`first_index`] finds is wanted, and nothing before it is; if it finds
/// nothing, nothing is wanted.
pub proof fn lemma_first_index<T>(items: Seq<T>, wanted: spec_fn(T) -> bool)
    ensures
        match first_index(items, wanted) {
            Some(i) => 0 <= i < items.len() && wanted(items[i]) && forall|j: int|
                0 <= j < i ==> !wanted(#[trigger] items[j]),
            None => forall|j: int| 0 <= j < items.len() ==> !wanted(#[trigger] items[j]),
        },
    decreases items.len(),
{
    if items.len() > 0 {
        let front = items.drop_last();
        lemma_first_index(front, wanted);
        match first_index(items, wanted) {
            Some(i) => {
                assert forall|j: int| 0 <= j < i implies !wanted(#[trigger] items[j]) by {
                    assert(front[j] == items[j]);
                }
            },
            None => {
                assert forall|j: int| 0 <= j < items.len() implies !wanted(#[trigger] items[j]) by {
                    if j < front.len() {
                        assert(front[j] == items[j]);
                    }
                }
            },
        }
    }
}

/// A wanted item with none before it is the one that [`first_index`] finds.
pub proof fn lemma_first_index_is<T>(items: Seq<T>, wanted: spec_fn(T) -> bool, i: int)
    requires
        0 <= i < items.len(),
        wanted(items[i]),
        forall|j: int| 0 <= j < i ==> !wanted(#[trigger] items[j]),
    ensures
        first_index(items, wanted) == Some(i),
{
    lemma_first_index(items, wanted);
    let found = first_index(items, wanted)->0;
    if found < i {
        assert(!wanted(items[found]));
    }
}

/// Where nothing is wanted, [`first_index`] finds nothing.
pub proof fn lemma_first_index_none<T>(items: Seq<T>, wanted: spec_fn(T) -> bool)
    requires
        forall|j: int| 0 <= j < items.len() ==> !wanted(#[trigger] items[j]),
    ensures
        first_index(items, wanted) is None,
{
    lemma_first_index(items, wanted);
}

/// The identifiers that are `id`.
pub open spec fn with_id(id: u64) -> spec_fn(u64) -> bool {
    |other: u64| other == id
}

/// The place of the first identifier of `ids` that is `id`.
pub fn find_id(ids: &Vec<u64>, id: u64) -> (res: Option<usize>)
    ensures
        place(res) == first_index(ids@, with_id(id)),
{
    for i in 0..ids.len()
        invariant
            forall|j: int| 0 <= j < i ==> !with_id(id)(#[trigger] ids@[j]),
    {
        if ids[i] == id {
            proof {
                lemma_first_index_is(ids@, with_id(id), i as int);
            }
            return Some(i);
        }
    }
    proof {
        lemma_first_index_none(ids@, with_id(id));
    }
    None
}

/// A found place is the same number, and nothing found is nothing.
pub proof fn law_place(i: usize)
    ensures
        place(Some(i)) == Some(i as int),
        place(None) == None::<int>,
{
}

} // verus!

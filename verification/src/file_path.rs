//! File paths, as far as the library compares them.

use vstd::prelude::*;

verus! {

/// A file path, held as its components in the encoding of the platform. Two
/// paths are the same when they have the same components, however the
/// separators between them were written.
pub struct FilePath {
    pub components: Vec<Vec<u8>>,
}

impl View for FilePath {
    type V = Seq<Seq<u8>>;

    open spec fn view(&self) -> Seq<Seq<u8>> {
        self.components@.map_values(|component: Vec<u8>| component@)
    }
}

fn same_bytes(a: &Vec<u8>, b: &Vec<u8>) -> (res: bool)
    ensures
        res == (a@ == b@),
{
    if a.len() != b.len() {
        return false;
    }
    for i in 0..a.len()
        invariant
            a.len() == b.len(),
            forall|j: int| 0 <= j < i ==> a@[j] == b@[j],
    {
        if a[i] != b[i] {
            return false;
        }
    }
    assert(a@ =~= b@);
    true
}

fn copy_bytes(bytes: &Vec<u8>) -> (res: Vec<u8>)
    ensures
        res@ == bytes@,
{
    let mut res: Vec<u8> = Vec::new();
    for i in 0..bytes.len()
        invariant
            res@ == bytes@.take(i as int),
    {
        res.push(bytes[i]);
        assert(bytes@.take(i + 1) =~= bytes@.take(i as int).push(bytes@[i as int]));
    }
    assert(bytes@.take(bytes.len() as int) =~= bytes@);
    res
}

impl FilePath {
    /// Whether the two paths have the same components.
    pub fn same_path(&self, other: &FilePath) -> (res: bool)
        ensures
            res == (self@ == other@),
    {
        if self.components.len() != other.components.len() {
            assert(self@.len() != other@.len());
            return false;
        }
        for i in 0..self.components.len()
            invariant
                self.components.len() == other.components.len(),
                forall|j: int| 0 <= j < i ==> self@[j] == other@[j],
        {
            if !same_bytes(&self.components[i], &other.components[i]) {
                assert(self@[i as int] != other@[i as int]);
                return false;
            }
        }
        assert(self@ =~= other@);
        true
    }

    /// A copy of the path.
    pub fn duplicate(&self) -> (res: FilePath)
        ensures
            res@ == self@,
    {
        let mut components: Vec<Vec<u8>> = Vec::new();
        for i in 0..self.components.len()
            invariant
                components.len() == i,
                forall|j: int| 0 <= j < i ==> #[trigger] components@[j]@ == self@[j],
        {
            components.push(copy_bytes(&self.components[i]));
        }
        let res: FilePath = FilePath { components };
        assert(res@ =~= self@);
        res
    }
}

/// The components of a path that may be absent.
pub open spec fn optional_path(path: Option<FilePath>) -> Option<Seq<Seq<u8>>> {
    match path {
        Some(path) => Some(path@),
        None => None,
    }
}

/// A path is the row of its components, each the row of its bytes; two paths are
/// the same exactly if they agree in all of them.
pub proof fn law_path_components(a: FilePath, b: FilePath)
    ensures
        a@.len() == a.components@.len(),
        forall|i: int| 0 <= i < a@.len() ==> #[trigger] a@[i] == a.components@[i]@,
        a@ == b@ <==> a.components@.len() == b.components@.len() && forall|i: int|
            0 <= i < a.components@.len() ==> (#[trigger] a.components@[i])@ == (
            #[trigger] b.components@[i])@,
        optional_path(Some(a)) == Some(a@),
        optional_path(None) == None::<Seq<Seq<u8>>>,
{
    if a@ == b@ {
        assert(a@.len() == a.components@.len() && b@.len() == b.components@.len());
        assert forall|i: int| 0 <= i < a.components@.len() implies (
        #[trigger] a.components@[i])@ == (#[trigger] b.components@[i])@ by {
            assert(a@[i] == a.components@[i]@);
            assert(b@[i] == b.components@[i]@);
        }
    }
    if a.components@.len() == b.components@.len() && forall|i: int|
        0 <= i < a.components@.len() ==> (#[trigger] a.components@[i])@ == (
        #[trigger] b.components@[i])@ {
        assert(a@ =~= b@);
    }
}

} // verus!

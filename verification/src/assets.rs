//! The assets that the program carries: icons and images, found by name.

use crate::search::{first_index, lemma_first_index, lemma_first_index_is, lemma_first_index_none};
use crate::text::{chars_of, lemma_texts_push, starts_with, strip_prefix, texts};
use vstd::prelude::*;

verus! {

/// An asset, under its path in the assets folder.
pub struct AssetFile {
    pub name: String,
    pub data: Vec<u8>,
}

/// The assets that the program carries.
pub struct Assets {
    pub files: Vec<AssetFile>,
}

/// A name with the separators that asset names are written with.
pub open spec fn slashed(name: Seq<char>) -> Seq<char> {
    name.map_values(
        |c: char|
            if c == '\\' {
                '/'
            } else {
                c
            },
    )
}

/// The assets that `name` stands for; a backslash is read as a slash.
pub open spec fn named(name: Seq<char>) -> spec_fn(AssetFile) -> bool {
    |file: AssetFile| file.name@ == slashed(name)
}

/// The data stored under a name.
pub open spec fn stored(files: Seq<AssetFile>, name: Seq<char>) -> Option<Seq<u8>> {
    match first_index(files, named(name)) {
        Some(i) => Some(files[i].data@),
        None => None,
    }
}

/// The data that a path stands for: what is stored under the path itself, or else
/// under what follows a leading `assets/`. The empty path stands for nothing.
pub open spec fn loaded(files: Seq<AssetFile>, path: Seq<char>) -> Option<Seq<u8>> {
    if path.len() == 0 {
        None
    } else if stored(files, path) is Some {
        stored(files, path)
    } else if "assets/"@.is_prefix_of(path) {
        stored(files, path.skip("assets/"@.len() as int))
    } else {
        None
    }
}

/// The names of the assets that begin with `path`, in order.
pub open spec fn listed(files: Seq<AssetFile>, path: Seq<char>) -> Seq<Seq<char>>
    decreases files.len(),
{
    if files.len() == 0 {
        Seq::empty()
    } else {
        let before = listed(files.drop_last(), path);
        if path.is_prefix_of(files.last().name@) {
            before.push(files.last().name@)
        } else {
            before
        }
    }
}

fn is_named(file: &AssetFile, name: &str) -> (res: bool)
    ensures
        res == named(name@)(*file),
{
    let own: Vec<char> = chars_of(file.name.as_str());
    let asked: Vec<char> = chars_of(name);
    if own.len() != asked.len() {
        assert(file.name@.len() != slashed(name@).len());
        return false;
    }
    for i in 0..own.len()
        invariant
            own.len() == asked.len(),
            own@ == file.name@,
            asked@ == name@,
            forall|j: int| 0 <= j < i ==> own@[j] == slashed(name@)[j],
    {
        let c: char = if asked[i] == '\\' {
            '/'
        } else {
            asked[i]
        };
        if own[i] != c {
            assert(own@[i as int] != slashed(name@)[i as int]);
            return false;
        }
    }
    assert(own@ =~= slashed(name@));
    true
}

impl Assets {
    /// The data stored under `name`.
    pub fn get(&self, name: &str) -> (res: Option<&Vec<u8>>)
        ensures
            match res {
                Some(data) => stored(self.files@, name@) == Some(data@),
                None => stored(self.files@, name@) is None,
            },
    {
        for i in 0..self.files.len()
            invariant
                forall|j: int| 0 <= j < i ==> !named(name@)(#[trigger] self.files@[j]),
        {
            if is_named(&self.files[i], name) {
                proof {
                    lemma_first_index_is(self.files@, named(name@), i as int);
                }
                return Some(&self.files[i].data);
            }
        }
        proof {
            lemma_first_index_none(self.files@, named(name@));
        }
        None
    }

    /// Load an asset, by its path with or without a leading `assets/`.
    pub fn load(&self, path: &str) -> (res: Option<&Vec<u8>>)
        ensures
            match res {
                Some(data) => loaded(self.files@, path@) == Some(data@),
                None => loaded(self.files@, path@) is None,
            },
    {
        if path.is_empty() {
            return None;
        }
        if let Some(data) = self.get(path) {
            return Some(data);
        }
        match strip_prefix(path, "assets/") {
            Some(name) => {
                assert(name@ =~= path@.skip("assets/"@.len() as int));
                assert("assets/"@.is_prefix_of(path@)) by {
                    assert(path@.subrange(0, "assets/"@.len() as int) =~= "assets/"@);
                }
                self.get(name)
            },
            None => None,
        }
    }

    /// List the assets whose names begin with `path`.
    pub fn list(&self, path: &str) -> (res: Vec<String>)
        ensures
            texts(res@) == listed(self.files@, path@),
    {
        let mut res: Vec<String> = Vec::new();
        assert(texts(res@) =~= listed(self.files@.take(0), path@));
        for i in 0..self.files.len()
            invariant
                texts(res@) == listed(self.files@.take(i as int), path@),
        {
            let name: &String = &self.files[i].name;
            assert(self.files@.take(i + 1).drop_last() =~= self.files@.take(i as int));
            assert(self.files@.take(i + 1).last() == self.files@[i as int]);
            if starts_with(name.as_str(), path) {
                proof {
                    lemma_texts_push(res@, *name);
                }
                res.push(name.clone());
            }
        }
        assert(self.files@.take(self.files.len() as int) =~= self.files@);
        res
    }
}

/// An asset is listed under a path exactly if its name begins with the path; under
/// the empty path all of them are.
pub proof fn law_listed_names(files: Seq<AssetFile>, path: Seq<char>, name: Seq<char>)
    ensures
        listed(files, path).contains(name) <==> path.is_prefix_of(name) && exists|i: int|
            0 <= i < files.len() && (#[trigger] files[i]).name@ == name,
        path.len() == 0 ==> listed(files, path) == files.map_values(|file: AssetFile| file.name@),
    decreases files.len(),
{
    let all = listed(files, path);
    let names = files.map_values(|file: AssetFile| file.name@);
    if files.len() == 0 {
        assert(all =~= names);
    } else {
        let front = files.drop_last();
        let before = listed(front, path);
        let last = files.last().name@;
        law_listed_names(front, path, name);
        if path.len() == 0 {
            assert(path.is_prefix_of(last)) by {
                assert(last.subrange(0, 0) =~= path);
            }
            assert(names =~= front.map_values(|file: AssetFile| file.name@).push(last));
        }
        if before.contains(name) {
            let i = choose|i: int| 0 <= i < before.len() && before[i] == name;
            assert(all[i] == name);
        }
        if exists|i: int| 0 <= i < front.len() && (#[trigger] front[i]).name@ == name {
            let i = choose|i: int| 0 <= i < front.len() && (#[trigger] front[i]).name@ == name;
            assert(files[i].name@ == name);
        }
        if exists|i: int| 0 <= i < files.len() && (#[trigger] files[i]).name@ == name {
            let i = choose|i: int| 0 <= i < files.len() && (#[trigger] files[i]).name@ == name;
            if i < front.len() {
                assert(front[i].name@ == name);
            }
        }
        if path.is_prefix_of(last) {
            assert(all == before.push(last));
            assert(all[before.len() as int] == last);
            assert(files[files.len() - 1].name@ == last);
            if all.contains(name) && name != last {
                let i = choose|i: int| 0 <= i < all.len() && all[i] == name;
                assert(before[i] == name);
            }
        }
    }
}

/// Every asset that is listed can be loaded, under its name and with a leading
/// `assets/`, if its name is not empty and is written with slashes. Both give the
/// same data, unless something is stored under the longer path.
pub proof fn law_listed_assets_load(files: Seq<AssetFile>, path: Seq<char>, name: Seq<char>)
    requires
        listed(files, path).contains(name),
        name.len() > 0,
        !name.contains('\\'),
    ensures
        loaded(files, name) is Some,
        loaded(files, "assets/"@ + name) is Some,
        stored(files, "assets/"@ + name) is None ==> loaded(files, "assets/"@ + name) == loaded(
            files,
            name,
        ),
{
    law_listed_names(files, path, name);
    lemma_first_index(files, named(name));
    assert forall|i: int| 0 <= i < name.len() implies name[i] != '\\' by {
        assert(name.contains(name[i]));
    }
    assert(slashed(name) =~= name);
    let i = choose|i: int| 0 <= i < files.len() && (#[trigger] files[i]).name@ == name;
    assert(named(name)(files[i]));
    if stored(files, "assets/"@ + name) is None {
        law_assets_prefix_is_optional(files, name);
    }
}

/// A leading `assets/` changes nothing, unless an asset is stored under the longer
/// path, or the path has such a prefix itself and is found only without it.
pub proof fn law_assets_prefix_is_optional(files: Seq<AssetFile>, path: Seq<char>)
    requires
        path.len() > 0,
        stored(files, "assets/"@ + path) is None,
        "assets/"@.is_prefix_of(path) && stored(files, path) is None ==> stored(
            files,
            path.skip("assets/"@.len() as int),
        ) is None,
    ensures
        loaded(files, "assets/"@ + path) == loaded(files, path),
{
    let longer = "assets/"@ + path;
    assert("assets/"@.is_prefix_of(longer)) by {
        assert(longer.subrange(0, "assets/"@.len() as int) =~= "assets/"@);
    }
    assert(longer.skip("assets/"@.len() as int) =~= path);
}

/// A name is looked up with every backslash turned into a slash, and otherwise as it
/// is.
pub proof fn law_slashed_name(name: Seq<char>, i: int)
    requires
        0 <= i < name.len(),
    ensures
        slashed(name).len() == name.len(),
        name[i] == '\\' ==> slashed(name)[i] == '/',
        name[i] != '\\' ==> slashed(name)[i] == name[i],
{
}

/// What is stored under a name is the data of the first asset of that name, and
/// nothing exactly if there is no such asset.
pub proof fn law_stored_data(files: Seq<AssetFile>, name: Seq<char>)
    ensures
        match stored(files, name) {
            Some(data) => exists|i: int|
                0 <= i < files.len() && (#[trigger] files[i]).name@ == slashed(name)
                    && files[i].data@ == data && forall|j: int|
                    0 <= j < i ==> (#[trigger] files[j]).name@ != slashed(name),
            None => forall|i: int|
                0 <= i < files.len() ==> (#[trigger] files[i]).name@ != slashed(name),
        },
{
    lemma_first_index(files, named(name));
    assert forall|i: int| 0 <= i < files.len() implies (named(name)(#[trigger] files[i])
        <==> files[i].name@ == slashed(name)) by {}
    if let Some(i) = first_index(files, named(name)) {
        assert(files[i].name@ == slashed(name));
    }
}

/// A path gives what is stored under it. If nothing is, a path that begins with
/// `assets/` gives what is stored under the rest of it, and any other path nothing;
/// the empty path gives nothing in any case.
pub proof fn law_loaded_data(files: Seq<AssetFile>, path: Seq<char>)
    ensures
        loaded(files, Seq::empty()) is None,
        path.len() > 0 && stored(files, path) is Some ==> loaded(files, path) == stored(
            files,
            path,
        ),
        stored(files, "assets/"@ + path) is None ==> loaded(files, "assets/"@ + path) == stored(
            files,
            path,
        ),
        stored(files, path) is None && !"assets/"@.is_prefix_of(path) ==> loaded(
            files,
            path,
        ) is None,
{
    reveal_strlit("assets/");
    let longer = "assets/"@ + path;
    assert("assets/"@.is_prefix_of(longer)) by {
        assert(longer.subrange(0, "assets/"@.len() as int) =~= "assets/"@);
    }
    assert(longer.skip("assets/"@.len() as int) =~= path);
}

/// Assets are listed one after the other: each adds its name exactly if the name
/// begins with the path.
pub proof fn law_listed_in_order(
    a: Seq<AssetFile>,
    b: Seq<AssetFile>,
    file: AssetFile,
    path: Seq<char>,
)
    ensures
        listed(Seq::empty(), path) == Seq::<Seq<char>>::empty(),
        listed(a + b, path) == listed(a, path) + listed(b, path),
        listed(seq![file], path) == (if path.is_prefix_of(file.name@) {
            seq![file.name@]
        } else {
            Seq::empty()
        }),
    decreases b.len(),
{
    assert(listed(Seq::empty(), path) =~= Seq::<Seq<char>>::empty());
    assert(seq![file].drop_last() =~= Seq::empty());
    assert(seq![file].last() == file);
    assert(listed(seq![file], path) =~= (if path.is_prefix_of(file.name@) {
        seq![file.name@]
    } else {
        Seq::empty()
    }));
    if b.len() == 0 {
        assert(a + b =~= a);
        assert(listed(a + b, path) =~= listed(a, path) + listed(b, path));
    } else {
        law_listed_in_order(a, b.drop_last(), file, path);
        assert((a + b).drop_last() =~= a + b.drop_last());
        assert((a + b).last() == b.last());
        assert(listed(a + b, path) =~= listed(a, path) + listed(b, path));
    }
}

} // verus!

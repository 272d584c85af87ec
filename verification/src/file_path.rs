//! File paths, as far as the choice of a profile depends on them.

use vstd::prelude::*;

verus! {

/// A file path. How paths are joined and which of them are the same is for the platform
/// to say: each kind of path brings both. What a kind of path leaves open is some function
/// of which nothing is known.
pub trait FilePath: Sized {
    /// The bytes that spell the path.
    closed spec fn spelling(&self) -> Seq<u8> {
        arbitrary()
    }

    /// The spelling of `path` below `base`.
    closed spec fn joined(base: Seq<u8>, path: Seq<u8>) -> Seq<u8> {
        arbitrary()
    }

    /// Whether two different spellings stand for the same path.
    closed spec fn same(a: Seq<u8>, b: Seq<u8>) -> bool {
        arbitrary()
    }

    /// The path that `path` spells.
    fn new(path: &str) -> (res: Self)
        ensures
            res.spelling() == vstd::utf8::encode_utf8(path@),
    ;

    /// `path` below this path.
    fn join(&self, path: &str) -> (res: Self)
        ensures
            res.spelling() == Self::joined(self.spelling(), vstd::utf8::encode_utf8(path@)),
    ;

    /// Whether this path and `other` are the same path.
    fn same_as(&self, other: &Self) -> (res: bool)
        ensures
            res == (self.spelling() == other.spelling() || Self::same(
                self.spelling(),
                other.spelling(),
            )),
    ;

    /// The same path once more.
    fn duplicate(&self) -> (res: Self)
        ensures
            res.spelling() == self.spelling(),
    ;
}

/// Whether two spellings stand for the same path.
pub open spec fn is_same<P: FilePath>(a: Seq<u8>, b: Seq<u8>) -> bool {
    a == b || P::same(a, b)
}

/// The spellings of a list of paths.
pub open spec fn spellings<P: FilePath>(paths: Seq<P>) -> Seq<Seq<u8>> {
    paths.map_values(|path: P| path.spelling())
}

/// Whether `paths` holds a path that is the same as `path`.
pub open spec fn holds_path<P: FilePath>(paths: Seq<Seq<u8>>, path: Seq<u8>) -> bool {
    exists|i: int| 0 <= i < paths.len() && is_same::<P>(#[trigger] paths[i], path)
}

/// Whether `paths` holds `path`.
pub fn is_among<P: FilePath>(path: &P, paths: &Vec<P>) -> (res: bool)
    ensures
        res == holds_path::<P>(spellings(paths@), path.spelling()),
{
    let ghost all = spellings(paths@);
    let mut i: usize = 0;
    while i < paths.len()
        invariant
            all == spellings(paths@),
            i <= paths.len(),
            forall|k: int| 0 <= k < i ==> !is_same::<P>(#[trigger] all[k], path.spelling()),
        decreases paths.len() - i,
    {
        if paths[i].same_as(path) {
            assert(is_same::<P>(all[i as int], path.spelling()));
            return true;
        }
        i = i + 1;
    }
    false
}

/// The spelling of each path of a list stands where the path stands.
pub proof fn law_spellings_stand_where_their_paths_stand<P: FilePath>(paths: Seq<P>, i: int)
    requires
        0 <= i < paths.len(),
    ensures
        spellings(paths).len() == paths.len(),
        spellings(paths)[i] == paths[i].spelling(),
{
}

/// A list holds each of its paths and each path that is the same as one of them, wherever
/// that stands, and no other.
pub proof fn law_list_holds_its_paths<P: FilePath>(
    paths: Seq<Seq<u8>>,
    path: Seq<u8>,
    other: Seq<u8>,
    i: int,
)
    requires
        0 <= i < paths.len(),
        paths[i] == path || P::same(paths[i], path),
        forall|k: int| 0 <= k < paths.len() ==> #[trigger] paths[k] != other && !P::same(
            paths[k],
            other,
        ),
    ensures
        holds_path::<P>(paths, path),
        !holds_path::<P>(paths, other),
{
    assert(is_same::<P>(paths[i], path));
}

} // verus!

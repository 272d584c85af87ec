//! File paths in the syntax of Linux, Android and macOS, held as bytes.

use crate::file_path::FilePath;
use crate::text;
use vstd::prelude::*;

verus! {

/// The byte `/`.
pub const SLASH: u8 = 0x2f;

/// The byte `.`.
pub const DOT: u8 = 0x2e;

/// A file path in Unix syntax: the kind of path that these platforms have.
pub struct UnixPath {
    bytes: Vec<u8>,
}

impl View for UnixPath {
    type V = Seq<u8>;

    closed spec fn view(&self) -> Seq<u8> {
        self.bytes@
    }
}

/// Whether `path` starts at the root of the file system.
pub open spec fn is_absolute(path: Seq<u8>) -> bool {
    path.len() > 0 && path[0] == SLASH
}

/// `path` below `base`. An absolute path stands for itself.
pub open spec fn joined(base: Seq<u8>, path: Seq<u8>) -> Seq<u8> {
    if is_absolute(path) {
        path
    } else if base.len() == 0 || base.last() == SLASH {
        base + path
    } else {
        base.push(SLASH) + path
    }
}

/// Whether a piece between slashes names something: it is neither empty nor a dot.
pub open spec fn is_named(piece: Seq<u8>) -> bool {
    piece.len() > 0 && piece != seq![DOT]
}

/// The components of a path: its pieces between slashes that name something. A dot
/// counts where a relative path starts with it.
pub open spec fn components(path: Seq<u8>) -> Seq<Seq<u8>> {
    let pieces = text::split_on(path, SLASH);
    pieces.take(1).filter(|piece: Seq<u8>| piece.len() > 0) + pieces.skip(1).filter(
        |piece: Seq<u8>| is_named(piece),
    )
}

/// Whether two paths are the same: both absolute or both relative, with the same
/// components.
pub open spec fn same_path(a: Seq<u8>, b: Seq<u8>) -> bool {
    is_absolute(a) == is_absolute(b) && components(a) == components(b)
}

fn bytes_eq(a: &Vec<u8>, b: &Vec<u8>) -> (res: bool)
    ensures
        res == (a@ == b@),
{
    if a.len() != b.len() {
        return false;
    }
    let mut i: usize = 0;
    while i < a.len()
        invariant
            a.len() == b.len(),
            i <= a.len(),
            forall|k: int| 0 <= k < i ==> a@[k] == b@[k],
        decreases a.len() - i,
    {
        if a[i] != b[i] {
            return false;
        }
        i = i + 1;
    }
    assert(a@ == b@);
    true
}

/// The bytes of a list of byte strings.
spec fn pieces_of(parts: Seq<Vec<u8>>) -> Seq<Seq<u8>> {
    parts.map_values(|part: Vec<u8>| part@)
}

fn copy_range(bytes: &Vec<u8>, from: usize, to: usize) -> (res: Vec<u8>)
    requires
        from <= to <= bytes.len(),
    ensures
        res@ == bytes@.subrange(from as int, to as int),
{
    let mut out: Vec<u8> = Vec::new();
    let mut i: usize = from;
    while i < to
        invariant
            from <= i <= to <= bytes.len(),
            out@ == bytes@.subrange(from as int, i as int),
        decreases to - i,
    {
        out.push(bytes[i]);
        i = i + 1;
    }
    out
}

impl UnixPath {
    /// The path with these bytes.
    pub fn from_bytes(bytes: Vec<u8>) -> (res: UnixPath)
        ensures
            res@ == bytes@,
    {
        UnixPath { bytes }
    }

    /// The bytes of the path.
    pub fn as_bytes(&self) -> (res: &Vec<u8>)
        ensures
            res@ == self@,
    {
        &self.bytes
    }

    /// The pieces of the path between slashes.
    fn split_pieces(&self) -> (res: Vec<Vec<u8>>)
        ensures
            pieces_of(res@) == text::split_on(self@, SLASH),
    {
        let mut parts: Vec<Vec<u8>> = Vec::new();
        let mut start: usize = 0;
        let mut i: usize = 0;
        assert(self@.skip(0) == self@);
        assert(pieces_of(parts@) + text::split_on(self@, SLASH) == text::split_on(self@, SLASH));
        while i < self.bytes.len()
            invariant
                start <= i <= self.bytes.len(),
                forall|k: int| start <= k < i ==> self@[k] != SLASH,
                text::split_on(self@, SLASH) == pieces_of(parts@) + text::split_on(
                    self@.skip(start as int),
                    SLASH,
                ),
            decreases self.bytes.len() - i,
        {
            if self.bytes[i] == SLASH {
                let ghost rest = self@.skip(start as int);
                let ghost before = pieces_of(parts@);
                let part = copy_range(&self.bytes, start, i);
                proof {
                    text::lemma_find_is(rest, SLASH, i - start);
                    assert(rest.take(i - start) == part@);
                    assert(rest.skip(i - start + 1) == self@.skip(i + 1));
                }
                let ghost piece = part@;
                parts.push(part);
                assert(pieces_of(parts@) == before.push(piece));
                assert(before.push(piece) + text::split_on(self@.skip(i + 1), SLASH) == before + (
                seq![piece] + text::split_on(self@.skip(i + 1), SLASH)));
                start = i + 1;
            }
            i = i + 1;
        }
        let ghost before = pieces_of(parts@);
        let part = copy_range(&self.bytes, start, i);
        let ghost piece = part@;
        proof {
            text::lemma_find_is(self@.skip(start as int), SLASH, i - start);
            assert(self@.skip(start as int) == piece);
        }
        parts.push(part);
        assert(pieces_of(parts@) == before.push(piece));
        assert(before.push(piece) == before + seq![piece]);
        parts
    }

    /// The components of the path.
    fn list_components(&self) -> (res: Vec<Vec<u8>>)
        ensures
            pieces_of(res@) == components(self@),
    {
        let pieces = self.split_pieces();
        let ghost all = pieces_of(pieces@);
        proof {
            text::lemma_split_on_pieces(self@, SLASH);
        }
        let ghost first = |piece: Seq<u8>| piece.len() > 0;
        let ghost named = |piece: Seq<u8>| is_named(piece);
        let mut parts: Vec<Vec<u8>> = Vec::new();
        let dot: Vec<u8> = vec![DOT];
        assert(dot@ == seq![DOT]);
        let head = copy_range(&pieces[0], 0, pieces[0].len());
        assert(head@ == all[0]);
        let ghost head_view = head@;
        assert(all.take(1) == Seq::<Seq<u8>>::empty().push(head_view));
        proof {
            Seq::<Seq<u8>>::empty().lemma_filter_push(head_view, first);
            reveal(Seq::filter);
            assert(Seq::<Seq<u8>>::empty().filter(first) == Seq::<Seq<u8>>::empty());
        }
        assert(pieces_of(parts@) == Seq::<Seq<u8>>::empty());
        if head.len() > 0 {
            parts.push(head);
        }
        assert(pieces_of(parts@) == all.take(1).filter(first));
        let mut i: usize = 1;
        assert(all.subrange(1, 1) == Seq::<Seq<u8>>::empty());
        assert(pieces_of(parts@) == all.take(1).filter(first) + all.subrange(1, 1).filter(named)) by {
            reveal(Seq::filter);
        }
        while i < pieces.len()
            invariant
                all == pieces_of(pieces@),
                dot@ == seq![DOT],
                named == (|piece: Seq<u8>| is_named(piece)),
                1 <= i <= pieces.len(),
                pieces_of(parts@) == all.take(1).filter(first) + all.subrange(1, i as int).filter(
                    named,
                ),
            decreases pieces.len() - i,
        {
            let part = copy_range(&pieces[i], 0, pieces[i].len());
            let ghost piece = part@;
            let ghost before = pieces_of(parts@);
            assert(piece == all[i as int]);
            assert(all.subrange(1, i + 1) == all.subrange(1, i as int).push(piece));
            proof {
                all.subrange(1, i as int).lemma_filter_push(piece, named);
            }
            if part.len() > 0 && !bytes_eq(&part, &dot) {
                parts.push(part);
                assert(pieces_of(parts@) == before.push(piece));
            }
            assert(pieces_of(parts@) == all.take(1).filter(first) + all.subrange(
                1,
                i + 1,
            ).filter(named));
            i = i + 1;
        }
        assert(all.subrange(1, i as int) == all.skip(1));
        parts
    }
}

impl FilePath for UnixPath {
    open spec fn spelling(&self) -> Seq<u8> {
        self@
    }

    open spec fn joined(base: Seq<u8>, path: Seq<u8>) -> Seq<u8> {
        joined(base, path)
    }

    open spec fn same(a: Seq<u8>, b: Seq<u8>) -> bool {
        same_path(a, b)
    }

    fn new(path: &str) -> (res: UnixPath) {
        UnixPath { bytes: path.as_bytes_vec() }
    }

    fn join(&self, path: &str) -> (res: UnixPath) {
        let tail = path.as_bytes_vec();
        if tail.len() > 0 && tail[0] == SLASH {
            return UnixPath { bytes: tail };
        }
        let n: usize = self.bytes.len();
        let mut bytes = copy_range(&self.bytes, 0, n);
        assert(bytes@ == self.bytes@);
        if n > 0 && bytes[n - 1] != SLASH {
            bytes.push(SLASH);
        }
        let mut rest = tail;
        bytes.append(&mut rest);
        UnixPath { bytes }
    }

    fn same_as(&self, other: &UnixPath) -> (res: bool) {
        let absolute = self.bytes.len() > 0 && self.bytes[0] == SLASH;
        let other_absolute = other.bytes.len() > 0 && other.bytes[0] == SLASH;
        if absolute != other_absolute {
            return false;
        }
        let a = self.list_components();
        let b = other.list_components();
        let ghost left = pieces_of(a@);
        let ghost right = pieces_of(b@);
        if a.len() != b.len() {
            assert(left.len() != right.len());
            return false;
        }
        let mut i: usize = 0;
        while i < a.len()
            invariant
                left == pieces_of(a@),
                right == pieces_of(b@),
                left == components(self@),
                right == components(other@),
                a.len() == b.len(),
                i <= a.len(),
                forall|k: int| 0 <= k < i ==> left[k] == right[k],
            decreases a.len() - i,
        {
            if !bytes_eq(&a[i], &b[i]) {
                assert(left[i as int] != right[i as int]);
                return false;
            }
            i = i + 1;
        }
        assert(left == right);
        true
    }

    fn duplicate(&self) -> (res: UnixPath) {
        let bytes = copy_range(&self.bytes, 0, self.bytes.len());
        assert(bytes@ == self.bytes@);
        UnixPath { bytes }
    }
}

/// A path that starts with a slash stands for itself below any other; any other path goes
/// behind the base, with one slash in between unless the base is empty or ends with one.
pub proof fn law_paths_are_joined_with_one_slash(base: Seq<u8>, path: Seq<u8>)
    ensures
        joined(base, seq![0x2fu8] + path) == seq![0x2fu8] + path,
        path.len() == 0 || path[0] != 0x2f ==> {
            &&& joined(Seq::empty(), path) == path
            &&& joined(base.push(0x2f), path) == base + seq![0x2fu8] + path
            &&& base.len() > 0 && base[base.len() - 1] != 0x2f ==> joined(base, path) == base
                + seq![0x2fu8] + path
        },
{
    assert(base.push(0x2f) + path == base + seq![0x2fu8] + path);
    assert(Seq::<u8>::empty() + path == path);
    assert((seq![0x2fu8] + path)[0] == 0x2f);
}

/// The components of a path are its pieces between slashes, in order and whole: each further
/// piece is one more component, unless it is empty or a dot.
pub proof fn law_each_piece_is_a_component(path: Seq<u8>, piece: Seq<u8>)
    requires
        !piece.contains(0x2f),
    ensures
        components(piece) == (if piece.len() > 0 {
            seq![piece]
        } else {
            Seq::<Seq<u8>>::empty()
        }),
        components(path.push(0x2f) + piece) == (if piece.len() == 0 || piece == seq![0x2eu8] {
            components(path)
        } else {
            components(path).push(piece)
        }),
{
    let none = Seq::<Seq<u8>>::empty();
    let first = |piece: Seq<u8>| piece.len() > 0;
    let named = |piece: Seq<u8>| is_named(piece);
    reveal(Seq::filter);
    text::lemma_split_on_single(piece, SLASH);
    let one = seq![piece];
    assert(one.take(1) == none.push(piece));
    assert(one.skip(1) == none);
    none.lemma_filter_push(piece, first);
    assert(none.filter(first) == none);
    assert(none.filter(named) == none);
    assert(none.push(piece) == one);
    text::lemma_split_on_joined(path, SLASH, piece);
    text::lemma_split_on_pieces(path, SLASH);
    let pieces = text::split_on(path, SLASH);
    let all = pieces + one;
    assert(all.take(1) == pieces.take(1));
    assert(all.skip(1) == pieces.skip(1).push(piece));
    pieces.skip(1).lemma_filter_push(piece, named);
    assert(components(path.push(SLASH) + piece) == pieces.take(1).filter(first) + pieces.skip(
        1,
    ).push(piece).filter(named));
    if is_named(piece) {
        assert(pieces.take(1).filter(first) + pieces.skip(1).filter(named).push(piece)
            == components(path).push(piece));
    }
}

/// Two paths are the same exactly if both or neither start with a slash and they have the
/// same components; so slashes and dots more or less in between make no difference.
pub proof fn law_same_paths_have_the_same_components(a: Seq<u8>, b: Seq<u8>)
    ensures
        same_path(a, b) <==> (a.len() > 0 && a[0] == 0x2f <==> b.len() > 0 && b[0] == 0x2f)
            && components(a) == components(b),
        a.len() > 0 ==> same_path(a, a.push(0x2f)),
        a.len() > 0 ==> same_path(a, a.push(0x2f).push(0x2e)),
{
    let none = Seq::<u8>::empty();
    let dot = seq![0x2eu8];
    assert(a.push(0x2f) + none == a.push(0x2f));
    assert(a.push(0x2f) + dot == a.push(0x2f).push(0x2e));
    assert(!none.contains(0x2f));
    assert(!dot.contains(0x2f));
    law_each_piece_is_a_component(a, none);
    law_each_piece_is_a_component(a, dot);
}

} // verus!

use vstd::prelude::*;
use vstd::slice::slice_to_vec;

use crate::order::{compare_bytes, component_order, lemma_lex_irreflexive, lemma_lex_skip, path_lt};

verus! {

/// A path relative to a tree root, as the sequence of its components; each
/// component is the raw bytes of one file name. The root itself is the empty
/// path.
pub struct RelativePath {
    pub components: Vec<Vec<u8>>,
}

impl View for RelativePath {
    type V = Seq<Seq<u8>>;

    open spec fn view(&self) -> Seq<Seq<u8>> {
        self.components@.map_values(|c: Vec<u8>| c@)
    }
}

impl RelativePath {
    /// The root of a tree: no components.
    pub fn root() -> (r: RelativePath)
        ensures
            r@ == Seq::<Seq<u8>>::empty(),
    {
        let r = RelativePath { components: Vec::new() };
        assert(r@ =~= Seq::<Seq<u8>>::empty());
        r
    }

    /// A path made of the given components.
    pub fn from_components(components: Vec<Vec<u8>>) -> (r: RelativePath)
        ensures
            r@ == components@.map_values(|c: Vec<u8>| c@),
    {
        RelativePath { components }
    }

    /// The number of components.
    pub fn depth(&self) -> (r: usize)
        ensures
            r == self@.len(),
    {
        self.components.len()
    }

    /// A fresh copy of this path.
    pub fn duplicate(&self) -> (r: RelativePath)
        ensures
            r@ == self@,
    {
        let mut components: Vec<Vec<u8>> = Vec::new();
        let mut i: usize = 0;
        while i < self.components.len()
            invariant
                0 <= i <= self@.len(),
                components@.len() == i,
                forall|j: int| 0 <= j < i ==> #[trigger] components@[j]@ == self.components@[j]@,
            decreases self@.len() - i,
        {
            let c = slice_to_vec(self.components[i].as_slice());
            components.push(c);
            i = i + 1;
        }
        let r = RelativePath { components };
        assert(r@ =~= self@);
        r
    }

    /// This path extended by one more component.
    pub fn join(&self, name: &[u8]) -> (r: RelativePath)
        ensures
            r@ == self@.push(name@),
    {
        let mut r = self.duplicate();
        r.components.push(slice_to_vec(name));
        assert(r@ =~= self@.push(name@));
        r
    }
}

/// Compares two relative paths component by component: negative, zero or
/// positive as `a` comes before, equals or comes after `b`.
pub fn compare_paths(a: &RelativePath, b: &RelativePath) -> (r: i8)
    ensures
        (r < 0) == path_lt(a@, b@),
        (r == 0) == (a@ == b@),
        (r > 0) == path_lt(b@, a@),
{
    let n = a.components.len();
    let m = b.components.len();
    let mut i: usize = 0;
    while i < n && i < m
        invariant
            n == a@.len(),
            m == b@.len(),
            0 <= i <= n,
            i <= m,
            a@.take(i as int) == b@.take(i as int),
        decreases n - i,
    {
        let c = compare_bytes(a.components[i].as_slice(), b.components[i].as_slice());
        if c != 0 {
            proof {
                lemma_lex_skip(a@, b@, component_order(), i as int);
                lemma_lex_skip(b@, a@, component_order(), i as int);
                assert(a@.skip(i as int)[0] == a@[i as int]);
                assert(b@.skip(i as int)[0] == b@[i as int]);
                assert(a@.skip(i as int) != b@.skip(i as int));
                assert(path_lt(a@, b@) == (component_order())(a@[i as int], b@[i as int]));
            }
            return c;
        }
        assert(a@.take(i + 1) =~= a@.take(i as int).push(a@[i as int]));
        assert(b@.take(i + 1) =~= b@.take(i as int).push(b@[i as int]));
        i = i + 1;
    }
    proof {
        lemma_lex_skip(a@, b@, component_order(), i as int);
        lemma_lex_skip(b@, a@, component_order(), i as int);
        lemma_lex_irreflexive(a@, component_order());
        if n == m {
            assert(a@ =~= a@.take(i as int));
            assert(b@ =~= b@.take(i as int));
        }
    }
    if n < m {
        -1
    } else if n > m {
        1
    } else {
        0
    }
}

} // verus!

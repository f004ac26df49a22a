use vstd::prelude::*;

use crate::order::{lemma_path_order, path_lt};
use crate::path::{compare_paths, RelativePath};

verus! {

/// The views of a sequence of relative paths.
pub open spec fn path_views(v: Seq<RelativePath>) -> Seq<Seq<Seq<u8>>> {
    v.map_values(|p: RelativePath| p@)
}

/// `r` lists, sorted and each once, exactly the paths found in `first` or
/// in `second`.
pub open spec fn is_reconciliation(
    r: Seq<Seq<Seq<u8>>>,
    first: Seq<Seq<Seq<u8>>>,
    second: Seq<Seq<Seq<u8>>>,
) -> bool {
    &&& strictly_sorted(r)
    &&& forall|x: Seq<Seq<u8>>| #[trigger] r.contains(x) <==> first.contains(x) || second.contains(x)
}

/// Each path comes strictly before every later one: sorted, with no repeats.
pub open spec fn strictly_sorted(s: Seq<Seq<Seq<u8>>>) -> bool {
    forall|i: int, j: int| 0 <= i < j < s.len() ==> path_lt(#[trigger] s[i], #[trigger] s[j])
}

proof fn lemma_views_insert(s: Seq<RelativePath>, j: int, p: RelativePath)
    requires
        0 <= j <= s.len(),
    ensures
        path_views(s.insert(j, p)) == path_views(s).insert(j, p@),
        forall|x: Seq<Seq<u8>>|
            #[trigger] path_views(s.insert(j, p)).contains(x) <==> path_views(s).contains(x) || x == p@,
{
    let v = path_views(s);
    let w = path_views(s.insert(j, p));
    assert(w =~= v.insert(j, p@));
    assert forall|x: Seq<Seq<u8>>| #[trigger] w.contains(x) <==> v.contains(x) || x == p@ by {
        if w.contains(x) {
            let k = choose|k: int| 0 <= k < w.len() && w[k] == x;
            if k < j {
                assert(v[k] == x);
            } else if k > j {
                assert(v[k - 1] == x);
            }
        }
        if v.contains(x) {
            let k = choose|k: int| 0 <= k < v.len() && v[k] == x;
            if k < j {
                assert(w[k] == x);
            } else {
                assert(w[k + 1] == x);
            }
        }
        if x == p@ {
            assert(w[j] == x);
        }
    }
}

proof fn lemma_views_pop(s: Seq<RelativePath>)
    requires
        s.len() > 0,
    ensures
        forall|x: Seq<Seq<u8>>|
            #[trigger] path_views(s).contains(x) <==> path_views(s.drop_last()).contains(x) || x == s.last()@,
{
    assert(s =~= s.drop_last().insert(s.len() - 1, s.last()));
    lemma_views_insert(s.drop_last(), s.len() - 1, s.last());
}

/// Adds `p` to a strictly sorted sequence of paths, unless it is there already.
fn insert_sorted(out: &mut Vec<RelativePath>, p: RelativePath)
    requires
        strictly_sorted(path_views(old(out)@)),
    ensures
        strictly_sorted(path_views(final(out)@)),
        forall|x: Seq<Seq<u8>>|
            #[trigger] path_views(final(out)@).contains(x) <==> path_views(old(out)@).contains(x) || x == p@,
{
    proof {
        lemma_path_order();
    }
    let ghost v = path_views(out@);
    let mut j: usize = 0;
    while j < out.len()
        invariant
            0 <= j <= out@.len(),
            v == path_views(out@),
            strictly_sorted(v),
            forall|k: int| 0 <= k < j ==> path_lt(#[trigger] v[k], p@),
        ensures
            0 <= j <= out@.len(),
            v == path_views(out@),
            forall|k: int| 0 <= k < j ==> path_lt(#[trigger] v[k], p@),
            j < out@.len() ==> path_lt(p@, v[j as int]),
        decreases out@.len() - j,
    {
        let c = compare_paths(&out[j], &p);
        if c == 0 {
            assert(v[j as int] == p@);
            assert forall|x: Seq<Seq<u8>>| #[trigger] v.contains(x) <==> v.contains(x) || x == p@ by {
                if x == p@ {
                    assert(v[j as int] == x);
                }
            }
            return;
        }
        if c > 0 {
            break;
        }
        j = j + 1;
    }
    proof {
        lemma_views_insert(out@, j as int, p);
        let w = v.insert(j as int, p@);
        assert forall|a: int, b: int| 0 <= a < b < w.len() implies path_lt(#[trigger] w[a], #[trigger] w[b]) by {
            if b < j {
            } else if b == j {
            } else if a < j {
                assert(path_lt(v[a], p@));
                assert(path_lt(p@, v[j as int]));
                if b - 1 > j {
                    assert(path_lt(v[j as int], v[b - 1]));
                }
            } else if a == j {
                assert(path_lt(p@, v[j as int]));
                if b - 1 > j {
                    assert(path_lt(v[j as int], v[b - 1]));
                }
            } else {
                assert(path_lt(v[a - 1], v[b - 1]));
            }
        }
    }
    out.insert(j, p);
}

/// The union of two lists of relative paths, sorted component by component,
/// each path once.
pub fn reconcile(first: Vec<RelativePath>, second: Vec<RelativePath>) -> (r: Vec<RelativePath>)
    ensures
        is_reconciliation(path_views(r@), path_views(first@), path_views(second@)),
{
    let ghost f0 = path_views(first@);
    let ghost s0 = path_views(second@);
    let mut first = first;
    let mut second = second;
    let mut out: Vec<RelativePath> = Vec::new();
    while first.len() > 0 || second.len() > 0
        invariant
            strictly_sorted(path_views(out@)),
            forall|x: Seq<Seq<u8>>|
                path_views(out@).contains(x) || path_views(first@).contains(x) || path_views(second@).contains(x)
                    <==> #[trigger] f0.contains(x) || s0.contains(x),
        decreases first@.len() + second@.len(),
    {
        let ghost o = out@;
        let p;
        if first.len() > 0 {
            proof { lemma_views_pop(first@); }
            p = first.pop().unwrap();
        } else {
            proof { lemma_views_pop(second@); }
            p = second.pop().unwrap();
        }
        insert_sorted(&mut out, p);
    }
    proof {
        assert forall|x: Seq<Seq<u8>>|
            #[trigger] path_views(out@).contains(x) <==> f0.contains(x) || s0.contains(x) by {
            assert(!path_views(first@).contains(x));
            assert(!path_views(second@).contains(x));
        }
    }
    out
}

/// Completeness of reconciliation: the paths of the result are exactly the
/// union of the paths of the two trees, and none is listed twice.
pub proof fn lemma_reconciliation_complete(
    r: Seq<Seq<Seq<u8>>>,
    first: Seq<Seq<Seq<u8>>>,
    second: Seq<Seq<Seq<u8>>>,
)
    requires
        is_reconciliation(r, first, second),
    ensures
        r.to_set() == first.to_set().union(second.to_set()),
        r.no_duplicates(),
{
    lemma_path_order();
    assert(r.to_set() =~= first.to_set().union(second.to_set()));
    assert forall|i: int, j: int| 0 <= i < r.len() && 0 <= j < r.len() && i != j implies r[i] != r[j] by {
        if i < j {
            assert(path_lt(r[i], r[j]));
        } else {
            assert(path_lt(r[j], r[i]));
        }
    }
}

proof fn lemma_sorted_min(s: Seq<Seq<Seq<u8>>>, x: Seq<Seq<u8>>)
    requires
        strictly_sorted(s),
        s.contains(x),
        s.len() > 0,
        x != s[0],
    ensures
        path_lt(s[0], x),
{
    let k = choose|k: int| 0 <= k < s.len() && s[k] == x;
    assert(k != 0);
}

/// Two strictly sorted sequences that hold the same paths are equal.
proof fn lemma_sorted_same_elements(s: Seq<Seq<Seq<u8>>>, t: Seq<Seq<Seq<u8>>>)
    requires
        strictly_sorted(s),
        strictly_sorted(t),
        forall|x: Seq<Seq<u8>>| #[trigger] s.contains(x) <==> t.contains(x),
    ensures
        s == t,
    decreases s.len(),
{
    lemma_path_order();
    if s.len() == 0 {
        if t.len() > 0 {
            assert(t.contains(t[0]));
            assert(s.contains(t[0]));
        }
        assert(s =~= t);
    } else {
        assert(s.contains(s[0]));
        assert(t.len() > 0);
        assert(t.contains(t[0]));
        if s[0] != t[0] {
            lemma_sorted_min(s, t[0]);
            lemma_sorted_min(t, s[0]);
        }
        let s1 = s.drop_first();
        let t1 = t.drop_first();
        assert forall|x: Seq<Seq<u8>>| #[trigger] s1.contains(x) <==> t1.contains(x) by {
            if s1.contains(x) {
                let k = choose|k: int| 0 <= k < s1.len() && s1[k] == x;
                assert(s[k + 1] == x);
                assert(path_lt(s[0], x));
                assert(s.contains(x));
                let m = choose|m: int| 0 <= m < t.len() && t[m] == x;
                assert(m != 0);
                assert(t1[m - 1] == x);
            }
            if t1.contains(x) {
                let k = choose|k: int| 0 <= k < t1.len() && t1[k] == x;
                assert(t[k + 1] == x);
                assert(path_lt(t[0], x));
                assert(t.contains(x));
                assert(s.contains(x));
                let m = choose|m: int| 0 <= m < s.len() && s[m] == x;
                assert(m != 0);
                assert(s1[m - 1] == x);
            }
        }
        assert forall|i: int, j: int| 0 <= i < j < s1.len() implies path_lt(#[trigger] s1[i], #[trigger] s1[j]) by {
            assert(path_lt(s[i + 1], s[j + 1]));
        }
        assert forall|i: int, j: int| 0 <= i < j < t1.len() implies path_lt(#[trigger] t1[i], #[trigger] t1[j]) by {
            assert(path_lt(t[i + 1], t[j + 1]));
        }
        lemma_sorted_same_elements(s1, t1);
        assert(s[0] == t[0]);
        assert(s =~= seq![s[0]] + s1);
        assert(t =~= seq![t[0]] + t1);
    }
}

/// Repeatability: two reconciliations of trees that hold the same paths give
/// the same sequence, whatever order the paths were enumerated in.
pub proof fn lemma_reconciliation_deterministic(
    r1: Seq<Seq<Seq<u8>>>,
    first1: Seq<Seq<Seq<u8>>>,
    second1: Seq<Seq<Seq<u8>>>,
    r2: Seq<Seq<Seq<u8>>>,
    first2: Seq<Seq<Seq<u8>>>,
    second2: Seq<Seq<Seq<u8>>>,
)
    requires
        is_reconciliation(r1, first1, second1),
        is_reconciliation(r2, first2, second2),
        first1.to_set() == first2.to_set(),
        second1.to_set() == second2.to_set(),
    ensures
        r1 == r2,
{
    assert forall|x: Seq<Seq<u8>>| #[trigger] r1.contains(x) <==> r2.contains(x) by {
        assert(first1.contains(x) == first1.to_set().contains(x));
        assert(first2.contains(x) == first2.to_set().contains(x));
        assert(second1.contains(x) == second1.to_set().contains(x));
        assert(second2.contains(x) == second2.to_set().contains(x));
    }
    lemma_sorted_same_elements(r1, r2);
}

} // verus!

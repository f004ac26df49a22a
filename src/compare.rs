use vstd::prelude::*;

use crate::classify::{compare_files, contents_needed, outcome, EntryKind, PartialFileComparison};
use crate::content::RegFileCmp;
use crate::path::RelativePath;
use crate::order::path_lt;
use crate::reconcile::{is_reconciliation, path_views, reconcile, strictly_sorted};

verus! {

/// The comparison of the entries found at one relative path under the two
/// roots.
pub struct FullFileComparison {
    pub relative: RelativePath,
    pub partial_cmp: PartialFileComparison,
}

/// A record seen as its relative path and its comparison.
pub open spec fn record_views(v: Seq<FullFileComparison>) -> Seq<(Seq<Seq<u8>>, PartialFileComparison)> {
    v.map_values(|c: FullFileComparison| (c.relative@, c.partial_cmp))
}

/// A comparison of two directory trees, driven from outside: the union of the
/// two trees' paths is visited in order; for each, the caller looks up both
/// entries and hands back their kinds (and, for two regular files, how their
/// contents compare), or skips the path when that lookup failed.
pub struct TreeComparison {
    paths: Vec<RelativePath>,
    next: usize,
    records: Vec<FullFileComparison>,
    /// For each record, the index of the path it was made for.
    origins: Ghost<Seq<int>>,
}

impl TreeComparison {
    /// The paths to visit: the sorted union of both trees' paths.
    pub closed spec fn paths(&self) -> Seq<Seq<Seq<u8>>> {
        path_views(self.paths@)
    }

    /// How many paths have been visited.
    pub closed spec fn position(&self) -> int {
        self.next as int
    }

    /// The records made so far.
    pub closed spec fn records(&self) -> Seq<(Seq<Seq<u8>>, PartialFileComparison)> {
        record_views(self.records@)
    }

    pub closed spec fn wf(&self) -> bool {
        &&& self.next <= self.paths.len()
        &&& strictly_sorted(self.paths())
        &&& self.origins@.len() == self.records@.len()
        &&& forall|i: int| 0 <= i < self.records@.len() ==> 0 <= #[trigger] self.origins@[i] < self.next
        &&& forall|i: int| 0 <= i < self.records@.len() ==> #[trigger] self.records()[i].0 == self.paths()[self.origins@[i]]
        &&& forall|i: int, j: int| 0 <= i < j < self.records@.len() ==> #[trigger] self.origins@[i] < #[trigger] self.origins@[j]
    }

    /// Starts a comparison of two trees from the relative paths enumerated
    /// under each root.
    pub fn new(first: Vec<RelativePath>, second: Vec<RelativePath>) -> (r: TreeComparison)
        ensures
            r.wf(),
            is_reconciliation(r.paths(), path_views(first@), path_views(second@)),
            r.position() == 0,
            r.records() == Seq::<(Seq<Seq<u8>>, PartialFileComparison)>::empty(),
    {
        let paths = reconcile(first, second);
        let r = TreeComparison { paths, next: 0, records: Vec::new(), origins: Ghost(Seq::empty()) };
        assert(r.records() =~= Seq::<(Seq<Seq<u8>>, PartialFileComparison)>::empty());
        r
    }

    /// The next path to visit, if any is left.
    pub fn next_path(&self) -> (r: Option<RelativePath>)
        requires
            self.wf(),
        ensures
            self.position() < self.paths().len() ==> r is Some && r->0@ == self.paths()[self.position()],
            self.position() >= self.paths().len() ==> r is None,
    {
        if self.next < self.paths.len() {
            Some(self.paths[self.next].duplicate())
        } else {
            None
        }
    }

    /// Records how the entries at the next path compare, given their kinds
    /// (`None` where a side does not exist) and, for two regular files, how
    /// their contents compare.
    pub fn record(&mut self, first: Option<EntryKind>, second: Option<EntryKind>, contents: Option<RegFileCmp>)
        requires
            old(self).wf(),
            old(self).position() < old(self).paths().len(),
            contents is Some <==> contents_needed(first, second),
        ensures
            final(self).wf(),
            final(self).paths() == old(self).paths(),
            final(self).position() == old(self).position() + 1,
            final(self).records() == old(self).records().push(
                (
                    old(self).paths()[old(self).position()],
                    PartialFileComparison {
                        file_cmp: outcome(first, second, contents),
                        first_ft: first,
                        second_ft: second,
                    },
                ),
            ),
    {
        let relative = self.paths[self.next].duplicate();
        let partial_cmp = compare_files(first, second, contents);
        let ghost before = self.records();
        self.records.push(FullFileComparison { relative, partial_cmp });
        self.origins = Ghost(self.origins@.push(self.next as int));
        self.next = self.next + 1;
        assert(self.records() =~= before.push((relative@, partial_cmp)));
    }

    /// Passes over the next path without a record, as when its entries could
    /// not be looked up.
    pub fn skip(&mut self)
        requires
            old(self).wf(),
            old(self).position() < old(self).paths().len(),
        ensures
            final(self).wf(),
            final(self).paths() == old(self).paths(),
            final(self).position() == old(self).position() + 1,
            final(self).records() == old(self).records(),
    {
        self.next = self.next + 1;
        assert forall|i: int| 0 <= i < self.records@.len() implies 0 <= #[trigger] self.origins@[i] < self.next by {
            assert(self.origins@[i] < old(self).next);
        }
        assert forall|i: int| 0 <= i < self.records@.len() implies #[trigger] self.records()[i].0 == self.paths()[self.origins@[i]] by {
            assert(old(self).records()[i].0 == old(self).paths()[old(self).origins@[i]]);
        }
    }

    /// The records made, in path order.
    pub fn into_records(self) -> (r: Vec<FullFileComparison>)
        ensures
            record_views(r@) == self.records(),
    {
        self.records
    }
}

impl TreeComparison {
    /// The records come in strict path order, each made for one of the paths
    /// of the union: no path is recorded twice.
    pub proof fn lemma_records_in_path_order(&self)
        requires
            self.wf(),
        ensures
            forall|i: int, j: int|
                0 <= i < j < self.records().len() ==> path_lt(#[trigger] self.records()[i].0, #[trigger] self.records()[j].0),
            forall|i: int| 0 <= i < self.records().len() ==> self.paths().contains(#[trigger] self.records()[i].0),
    {
        assert forall|i: int, j: int|
            0 <= i < j < self.records().len() implies path_lt(#[trigger] self.records()[i].0, #[trigger] self.records()[j].0) by {
            assert(self.origins@[i] < self.origins@[j]);
        }
        assert forall|i: int| 0 <= i < self.records().len() implies self.paths().contains(#[trigger] self.records()[i].0) by {
            assert(self.paths()[self.origins@[i]] == self.records()[i].0);
        }
    }
}

/// Every path that reconciliation visits was enumerated under at least one
/// root; as long as each side that listed it still finds an entry there, the
/// record made for it is never `NeitherFileExists`.
pub proof fn lemma_visited_path_never_neither(
    r: Seq<Seq<Seq<u8>>>,
    first: Seq<Seq<Seq<u8>>>,
    second: Seq<Seq<Seq<u8>>>,
    x: Seq<Seq<u8>>,
    first_kind: Option<EntryKind>,
    second_kind: Option<EntryKind>,
    contents: Option<RegFileCmp>,
)
    requires
        is_reconciliation(r, first, second),
        r.contains(x),
        first.contains(x) ==> first_kind is Some,
        second.contains(x) ==> second_kind is Some,
    ensures
        outcome(first_kind, second_kind, contents) != crate::classify::FileCmp::NeitherFileExists,
{
}

} // verus!

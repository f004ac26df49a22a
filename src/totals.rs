use vstd::prelude::*;

use crate::classify::{EntryKind, FileCmp, PartialFileComparison};
use crate::compare::{record_views, FullFileComparison};

verus! {

/// Match counts over a sequence of records: for regular files and for
/// directories, how many records matched out of those where that kind stands
/// on at least one side.
#[derive(Clone, Copy, Debug, PartialEq, Eq, Structural)]
pub struct Totals {
    pub file_matches: usize,
    pub file_total: usize,
    pub dir_matches: usize,
    pub dir_total: usize,
}

/// Either side of the comparison is of kind `k`.
pub open spec fn either_is(c: PartialFileComparison, k: EntryKind) -> bool {
    c.first_ft == Some(k) || c.second_ft == Some(k)
}

/// The comparison matched and its entries are of kind `k`.
pub open spec fn matched_as(c: PartialFileComparison, k: EntryKind) -> bool {
    c.file_cmp == FileCmp::Match && c.first_ft == Some(k)
}

/// Number of records with either side of kind `k`.
pub open spec fn count_either(s: Seq<(Seq<Seq<u8>>, PartialFileComparison)>, k: EntryKind) -> nat
    decreases s.len(),
{
    if s.len() == 0 {
        0
    } else {
        count_either(s.drop_last(), k) + if either_is(s.last().1, k) { 1nat } else { 0nat }
    }
}

/// Number of records that matched with entries of kind `k`.
pub open spec fn count_matched(s: Seq<(Seq<Seq<u8>>, PartialFileComparison)>, k: EntryKind) -> nat
    decreases s.len(),
{
    if s.len() == 0 {
        0
    } else {
        count_matched(s.drop_last(), k) + if matched_as(s.last().1, k) { 1nat } else { 0nat }
    }
}

proof fn lemma_counts_bounded(s: Seq<(Seq<Seq<u8>>, PartialFileComparison)>, k: EntryKind)
    ensures
        count_either(s, k) <= s.len(),
        count_matched(s, k) <= s.len(),
    decreases s.len(),
{
    if s.len() > 0 {
        lemma_counts_bounded(s.drop_last(), k);
    }
}

fn is_kind(k: Option<EntryKind>, want: EntryKind) -> (r: bool)
    ensures
        r == (k == Some(want)),
{
    match k {
        Some(x) => x == want,
        None => false,
    }
}

/// Counts, over the records of a comparison, the regular-file and directory
/// matches and the records that involve each kind.
pub fn tally(records: &Vec<FullFileComparison>) -> (r: Totals)
    ensures
        r.file_matches == count_matched(record_views(records@), EntryKind::RegularFile),
        r.file_total == count_either(record_views(records@), EntryKind::RegularFile),
        r.dir_matches == count_matched(record_views(records@), EntryKind::Directory),
        r.dir_total == count_either(record_views(records@), EntryKind::Directory),
{
    let ghost s = record_views(records@);
    let mut t = Totals { file_matches: 0, file_total: 0, dir_matches: 0, dir_total: 0 };
    let mut i: usize = 0;
    while i < records.len()
        invariant
            0 <= i <= records@.len(),
            s == record_views(records@),
            t.file_matches == count_matched(s.take(i as int), EntryKind::RegularFile),
            t.file_total == count_either(s.take(i as int), EntryKind::RegularFile),
            t.dir_matches == count_matched(s.take(i as int), EntryKind::Directory),
            t.dir_total == count_either(s.take(i as int), EntryKind::Directory),
        decreases records@.len() - i,
    {
        let c = records[i].partial_cmp;
        proof {
            assert(s.take(i + 1).drop_last() =~= s.take(i as int));
            assert(s.take(i + 1).last().1 == c);
            lemma_counts_bounded(s.take(i as int), EntryKind::RegularFile);
            lemma_counts_bounded(s.take(i as int), EntryKind::Directory);
        }
        let matched = match c.file_cmp {
            FileCmp::Match => true,
            _ => false,
        };
        if is_kind(c.first_ft, EntryKind::RegularFile) || is_kind(c.second_ft, EntryKind::RegularFile) {
            t.file_total = t.file_total + 1;
        }
        if is_kind(c.first_ft, EntryKind::Directory) || is_kind(c.second_ft, EntryKind::Directory) {
            t.dir_total = t.dir_total + 1;
        }
        if matched && is_kind(c.first_ft, EntryKind::RegularFile) {
            t.file_matches = t.file_matches + 1;
        }
        if matched && is_kind(c.first_ft, EntryKind::Directory) {
            t.dir_matches = t.dir_matches + 1;
        }
        i = i + 1;
    }
    assert(s.take(i as int) =~= s);
    t
}

} // verus!

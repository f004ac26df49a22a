use vstd::prelude::*;

use crate::classify::EntryKind;
use crate::path::RelativePath;
use crate::reconcile::path_views;

verus! {

/// One entry of a directory listing: its file name and its kind.
pub struct DirEntryInfo {
    pub name: Vec<u8>,
    pub kind: EntryKind,
}

/// The paths that a listing of directory `dir` contributes: one per entry,
/// in listing order.
pub open spec fn listed_paths(dir: Seq<Seq<u8>>, entries: Seq<DirEntryInfo>) -> Seq<Seq<Seq<u8>>> {
    entries.map_values(|e: DirEntryInfo| dir.push(e.name@))
}

/// The entries of a listing of `dir` that are directories, as paths, in
/// listing order: those are descended into.
pub open spec fn subdirectories(dir: Seq<Seq<u8>>, entries: Seq<DirEntryInfo>) -> Seq<Seq<Seq<u8>>>
    decreases entries.len(),
{
    if entries.len() == 0 {
        Seq::empty()
    } else {
        let before = subdirectories(dir, entries.drop_last());
        if entries.last().kind == EntryKind::Directory {
            before.push(dir.push(entries.last().name@))
        } else {
            before
        }
    }
}

/// A walk over a directory tree, driven from outside: the caller takes the
/// next directory to list, lists it, and hands the listing back. Directories
/// are descended into; every other entry, symbolic links included, is only
/// recorded. A directory that cannot be read is simply not handed back.
pub struct TreeWalk {
    pending: Vec<RelativePath>,
    found: Vec<RelativePath>,
}

impl TreeWalk {
    /// Directories still to be listed.
    pub closed spec fn pending_dirs(&self) -> Seq<Seq<Seq<u8>>> {
        path_views(self.pending@)
    }

    /// Paths recorded so far, relative to the root.
    pub closed spec fn found_paths(&self) -> Seq<Seq<Seq<u8>>> {
        path_views(self.found@)
    }

    /// A walk that has yet to list the root.
    pub fn new() -> (r: TreeWalk)
        ensures
            r.pending_dirs() == seq![Seq::<Seq<u8>>::empty()],
            r.found_paths() == Seq::<Seq<Seq<u8>>>::empty(),
    {
        let mut pending: Vec<RelativePath> = Vec::new();
        pending.push(RelativePath::root());
        let r = TreeWalk { pending, found: Vec::new() };
        assert(r.pending_dirs() =~= seq![Seq::<Seq<u8>>::empty()]);
        assert(r.found_paths() =~= Seq::<Seq<Seq<u8>>>::empty());
        r
    }

    /// Whether no directory is left to list.
    pub fn is_done(&self) -> (r: bool)
        ensures
            r == (self.pending_dirs().len() == 0),
    {
        self.pending.len() == 0
    }

    /// Takes the next directory to list, if any is left.
    pub fn next_directory(&mut self) -> (r: Option<RelativePath>)
        ensures
            old(self).pending_dirs().len() == 0 ==> r is None && final(self).pending_dirs() == old(self).pending_dirs(),
            old(self).pending_dirs().len() > 0 ==> r is Some && r->0@ == old(self).pending_dirs().last()
                && final(self).pending_dirs() == old(self).pending_dirs().drop_last(),
            final(self).found_paths() == old(self).found_paths(),
    {
        let r = self.pending.pop();
        proof {
            if r is Some {
                assert(self.pending_dirs() =~= old(self).pending_dirs().drop_last());
            }
        }
        r
    }

    /// Records the listing of directory `dir`: every entry becomes a found
    /// path, and every subdirectory a directory still to list.
    pub fn add_listing(&mut self, dir: &RelativePath, entries: &Vec<DirEntryInfo>)
        ensures
            final(self).found_paths() == old(self).found_paths() + listed_paths(dir@, entries@),
            final(self).pending_dirs() == old(self).pending_dirs() + subdirectories(dir@, entries@),
    {
        let ghost found0 = self.found_paths();
        let ghost pending0 = self.pending_dirs();
        let mut i: usize = 0;
        assert(entries@.take(0) =~= Seq::<DirEntryInfo>::empty());
        assert(listed_paths(dir@, entries@.take(0)) =~= Seq::<Seq<Seq<u8>>>::empty());
        assert(found0 + Seq::<Seq<Seq<u8>>>::empty() =~= found0);
        assert(pending0 + Seq::<Seq<Seq<u8>>>::empty() =~= pending0);
        while i < entries.len()
            invariant
                0 <= i <= entries@.len(),
                self.found_paths() == found0 + listed_paths(dir@, entries@.take(i as int)),
                self.pending_dirs() == pending0 + subdirectories(dir@, entries@.take(i as int)),
            decreases entries@.len() - i,
        {
            let ghost f = self.found_paths();
            let ghost p = self.pending_dirs();
            let name = entries[i].name.as_slice();
            let path = dir.join(name);
            assert(entries@.take(i + 1).drop_last() =~= entries@.take(i as int));
            assert(listed_paths(dir@, entries@.take(i + 1)) =~= listed_paths(dir@, entries@.take(i as int)).push(path@));
            if entries[i].kind == EntryKind::Directory {
                let sub = dir.join(name);
                self.pending.push(sub);
                assert(self.pending_dirs() =~= p.push(sub@));
            } else {
                assert(self.pending_dirs() =~= p);
            }
            self.found.push(path);
            assert(self.found_paths() =~= f.push(path@));
            i = i + 1;
        }
        assert(entries@.take(i as int) =~= entries@);
    }

    /// The paths of every entry found under the root, in the order they were
    /// listed.
    pub fn files_in_tree(self) -> (r: Vec<RelativePath>)
        ensures
            path_views(r@) == self.found_paths(),
    {
        self.found
    }
}

} // verus!

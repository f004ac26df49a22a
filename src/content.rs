use vstd::prelude::*;
use vstd::slice::slice_subrange;

use crate::order::compare_bytes;

verus! {

/// How two regular files compare byte for byte.
#[derive(Clone, Copy, Debug, PartialEq, Eq, Structural)]
pub enum RegFileCmp {
    Identical,
    DiffLength,
    DiffContents,
}

/// Number of bytes read from each file at every lockstep step.
pub const CHUNK_SIZE: usize = 8192;

/// What comparing two byte sequences yields.
pub open spec fn content_comparison(a: Seq<u8>, b: Seq<u8>) -> RegFileCmp {
    if a.len() != b.len() {
        RegFileCmp::DiffLength
    } else if a == b {
        RegFileCmp::Identical
    } else {
        RegFileCmp::DiffContents
    }
}

/// What one lockstep step decides from the two chunks just read: `None`
/// means the chunks agree and reading goes on.
pub open spec fn chunk_step(first: Seq<u8>, second: Seq<u8>) -> Option<RegFileCmp> {
    if first.len() != second.len() {
        Some(RegFileCmp::DiffLength)
    } else if first.len() == 0 {
        Some(RegFileCmp::Identical)
    } else if first != second {
        Some(RegFileCmp::DiffContents)
    } else {
        None
    }
}

/// The size check made before any content is read: files of different sizes
/// differ in length.
pub fn compare_lengths(first_len: u64, second_len: u64) -> (r: Option<RegFileCmp>)
    ensures
        r == (if first_len != second_len { Some(RegFileCmp::DiffLength) } else { None::<RegFileCmp> }),
{
    if first_len != second_len {
        Some(RegFileCmp::DiffLength)
    } else {
        None
    }
}

/// The state of a lockstep comparison of two byte streams: the bytes that
/// both streams have produced so far, found equal.
pub struct LockstepComparison {
    pub compared: Ghost<Seq<u8>>,
}

impl LockstepComparison {
    /// A comparison that has read nothing yet.
    pub fn new() -> (r: LockstepComparison)
        ensures
            r.compared@ == Seq::<u8>::empty(),
    {
        LockstepComparison { compared: Ghost(Seq::empty()) }
    }

    /// Takes the chunks that one read from each stream produced (only the
    /// bytes actually read) and decides: different read lengths mean one
    /// stream ended first; two empty reads mean both ended together with all
    /// earlier chunks equal; differing bytes end the comparison at once.
    pub fn step(&mut self, first_chunk: &[u8], second_chunk: &[u8]) -> (r: Option<RegFileCmp>)
        ensures
            r == chunk_step(first_chunk@, second_chunk@),
            r is None ==> final(self).compared@ == old(self).compared@ + first_chunk@,
            r is Some ==> final(self).compared@ == old(self).compared@,
    {
        if first_chunk.len() != second_chunk.len() {
            return Some(RegFileCmp::DiffLength);
        }
        if first_chunk.len() == 0 {
            return Some(RegFileCmp::Identical);
        }
        if compare_bytes(first_chunk, second_chunk) != 0 {
            return Some(RegFileCmp::DiffContents);
        }
        self.compared = Ghost(self.compared@ + first_chunk@);
        None
    }
}

/// Compares two byte sequences as two files are compared: sizes first, then
/// chunk by chunk in lockstep, stopping at the first difference.
pub fn compare_contents(first: &[u8], second: &[u8]) -> (r: RegFileCmp)
    ensures
        r == content_comparison(first@, second@),
{
    if let Some(r) = compare_lengths(first.len() as u64, second.len() as u64) {
        return r;
    }
    let n = first.len();
    let mut state = LockstepComparison::new();
    let mut pos: usize = 0;
    assert(first@.take(0) =~= Seq::<u8>::empty());
    assert(second@.take(0) =~= Seq::<u8>::empty());
    loop
        invariant
            n == first@.len(),
            n == second@.len(),
            0 <= pos <= n,
            first@.take(pos as int) == state.compared@,
            second@.take(pos as int) == state.compared@,
        decreases n - pos,
    {
        let end = if n - pos < CHUNK_SIZE { n } else { pos + CHUNK_SIZE };
        let first_chunk = slice_subrange(first, pos, end);
        let second_chunk = slice_subrange(second, pos, end);
        match state.step(first_chunk, second_chunk) {
            Some(r) => {
                proof {
                    if r == RegFileCmp::Identical {
                        assert(first@ =~= first@.take(pos as int));
                        assert(second@ =~= second@.take(pos as int));
                    } else {
                        if first@ == second@ {
                            assert(first_chunk@ =~= second_chunk@);
                        }
                    }
                }
                return r;
            },
            None => {
                assert(first@.take(end as int) =~= first@.take(pos as int) + first_chunk@);
                assert(second@.take(end as int) =~= second@.take(pos as int) + second_chunk@);
                pos = end;
            },
        }
    }
}

/// Files with the same bytes compare as identical, however they were made.
pub proof fn lemma_same_bytes_identical(a: Seq<u8>, b: Seq<u8>)
    requires
        a == b,
    ensures
        content_comparison(a, b) == RegFileCmp::Identical,
{
}

/// Files of the same size that differ only in their last byte differ in
/// content: the end of the comparison is not miscounted.
pub proof fn lemma_last_byte_differs(a: Seq<u8>, b: Seq<u8>)
    requires
        a.len() == b.len(),
        a.len() > 0,
        a.drop_last() == b.drop_last(),
        a.last() != b.last(),
    ensures
        content_comparison(a, b) == RegFileCmp::DiffContents,
{
}

/// Files of different sizes differ in length.
pub proof fn lemma_different_sizes(a: Seq<u8>, b: Seq<u8>)
    requires
        a.len() != b.len(),
    ensures
        content_comparison(a, b) == RegFileCmp::DiffLength,
        chunk_step(a, b) == Some(RegFileCmp::DiffLength),
{
}

} // verus!

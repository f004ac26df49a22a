use vstd::prelude::*;

use crate::content::RegFileCmp;

verus! {

/// The broad category of a filesystem entry. Symbolic links, fifos, devices
/// and sockets are all `Other`.
#[derive(Clone, Copy, Debug, PartialEq, Eq, Structural)]
pub enum EntryKind {
    Directory,
    RegularFile,
    Other,
}

/// How the entries at one relative path of the two trees compare.
#[derive(Clone, Copy, Debug, PartialEq, Eq, Structural)]
pub enum FileCmp {
    /// Both exist with the same kind; regular files are byte-for-byte identical.
    Match,
    /// Both exist with different kinds.
    TypeMismatch,
    /// Both are regular files whose contents differ.
    ContentMismatch,
    NeitherFileExists,
    OnlyFirstFileExists,
    OnlySecondFileExists,
}

/// The outcome of comparing two entries, with the kind of each side that
/// exists.
#[derive(Clone, Copy, Debug, PartialEq, Eq, Structural)]
pub struct PartialFileComparison {
    pub file_cmp: FileCmp,
    pub first_ft: Option<EntryKind>,
    pub second_ft: Option<EntryKind>,
}

/// Both sides are regular files: only then are contents compared.
pub open spec fn contents_needed(first: Option<EntryKind>, second: Option<EntryKind>) -> bool {
    first == Some(EntryKind::RegularFile) && second == Some(EntryKind::RegularFile)
}

/// The decision table over existence and kind of the two entries, and, for
/// two regular files, the result of comparing their contents.
pub open spec fn outcome(
    first: Option<EntryKind>,
    second: Option<EntryKind>,
    contents: Option<RegFileCmp>,
) -> FileCmp {
    match (first, second) {
        (None, None) => FileCmp::NeitherFileExists,
        (Some(_), None) => FileCmp::OnlyFirstFileExists,
        (None, Some(_)) => FileCmp::OnlySecondFileExists,
        (Some(a), Some(b)) => {
            if a != b {
                FileCmp::TypeMismatch
            } else if a == EntryKind::RegularFile && contents != Some(RegFileCmp::Identical) {
                FileCmp::ContentMismatch
            } else {
                FileCmp::Match
            }
        },
    }
}

/// Whether the contents of the two entries must be compared before they can
/// be classified.
pub fn needs_content_comparison(first: Option<EntryKind>, second: Option<EntryKind>) -> (r: bool)
    ensures
        r == contents_needed(first, second),
{
    match (first, second) {
        (Some(EntryKind::RegularFile), Some(EntryKind::RegularFile)) => true,
        _ => false,
    }
}

/// Classifies two entries from their kinds (`None` where a side does not
/// exist) and, when both are regular files, the result of comparing their
/// contents.
pub fn compare_files(
    first: Option<EntryKind>,
    second: Option<EntryKind>,
    contents: Option<RegFileCmp>,
) -> (r: PartialFileComparison)
    requires
        contents is Some <==> contents_needed(first, second),
    ensures
        r.file_cmp == outcome(first, second, contents),
        r.first_ft == first,
        r.second_ft == second,
{
    let file_cmp = match (first, second) {
        (None, None) => FileCmp::NeitherFileExists,
        (Some(_), None) => FileCmp::OnlyFirstFileExists,
        (None, Some(_)) => FileCmp::OnlySecondFileExists,
        (Some(a), Some(b)) => {
            if a != b {
                FileCmp::TypeMismatch
            } else {
                match a {
                    EntryKind::RegularFile => match contents {
                        Some(RegFileCmp::Identical) => FileCmp::Match,
                        _ => FileCmp::ContentMismatch,
                    },
                    _ => FileCmp::Match,
                }
            }
        },
    };
    PartialFileComparison { file_cmp, first_ft: first, second_ft: second }
}

/// Entries that exist on both sides with the same kind, and that are
/// identical in content when they are regular files, match.
pub proof fn lemma_identical_entries_match(kind: EntryKind, contents: Option<RegFileCmp>)
    requires
        contents is Some <==> kind == EntryKind::RegularFile,
        kind == EntryKind::RegularFile ==> contents == Some(RegFileCmp::Identical),
    ensures
        outcome(Some(kind), Some(kind), contents) == FileCmp::Match,
{
}

/// A path that exists on at least one side never yields `NeitherFileExists`.
pub proof fn lemma_existing_entry_never_neither(
    first: Option<EntryKind>,
    second: Option<EntryKind>,
    contents: Option<RegFileCmp>,
)
    requires
        first is Some || second is Some,
    ensures
        outcome(first, second, contents) != FileCmp::NeitherFileExists,
{
}

} // verus!

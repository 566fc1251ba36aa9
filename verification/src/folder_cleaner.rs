//! Folder scanning and explicitly requested in-place deletion: which
//! entries are metadata, where the scan descends, and when a planned
//! removal may proceed.
//!
//! The program around the library reads the filesystem; the types here
//! tell it what to read next and decide from what it observed.

use vstd::prelude::*;
use vstd::string::StringExecFns;

use crate::bytepath::{
    byte_seqs, components, is_trivial_part, last_nontrivial_before, file_name, file_name_exec, lemma_split_join, lemma_split_last,
    lemma_split_parts_len, lemma_split_single, lemma_split_weight, lemma_weight_prefix,
    parent_len, parent_len_exec, parts_weight, path_eq, path_starts_with, push_name,
    push_name_exec, split_parts, split_parts_exec, starts_with_exec, strips_to, strips_to_exec, DOT,
    SEP,
};
use crate::metadata::{classify_filesystem_name, component_kind, MetadataKind};
use crate::observation::{no_detail, EntryType, IoFailure, IoKind};
use crate::repo_cleaner::join_parts;
use crate::order::{
    lemma_rearranged_map, lemma_sorted_distinct_is_strict, lemma_strictly_sorted_unique, path_less,
    sort_by_path_key,
    strictly_sorted_by_key, PathKeyed,
};
use crate::text::{display_bytes, lossy_utf8};

verus! {

/// What kind of filesystem object a candidate is.
#[derive(Debug, Clone, Copy, PartialEq, Eq, Structural)]
pub enum CandidateType {
    /// A regular file.
    RegularFile,
    /// A symbolic link (removed itself, never followed).
    Symlink,
    /// A directory (removed with its contents).
    Directory,
}

/// The candidate type of an observed entry type, if it has one.
pub open spec fn candidate_type_of(t: EntryType) -> Option<CandidateType> {
    match t {
        EntryType::Symlink => Some(CandidateType::Symlink),
        EntryType::File => Some(CandidateType::RegularFile),
        EntryType::Directory => Some(CandidateType::Directory),
        EntryType::Other => None,
    }
}

/// The candidate type of an observed entry type, if it has one.
pub fn classify_type(t: EntryType) -> (c: Option<CandidateType>)
    ensures
        c == candidate_type_of(t),
{
    match t {
        EntryType::Symlink => Some(CandidateType::Symlink),
        EntryType::File => Some(CandidateType::RegularFile),
        EntryType::Directory => Some(CandidateType::Directory),
        EntryType::Other => None,
    }
}

/// What a scan does with one directory entry.
#[derive(Debug, Clone, Copy, PartialEq, Eq, Structural)]
pub enum EntryOutcome {
    /// It is metadata of this kind and type.
    Candidate(MetadataKind, CandidateType),
    /// It is an ordinary directory to scan.
    Descend,
    /// It is left alone.
    Skip,
}

/// The rule for one entry: a symlink with a metadata name is a candidate
/// (and never followed); a directory named `__MACOSX` is a candidate and
/// any other directory is scanned; a regular file named `.DS_Store` or
/// `._*` is a candidate; everything else is left alone.
pub open spec fn entry_outcome(name: Seq<u8>, t: EntryType) -> EntryOutcome {
    match t {
        EntryType::Symlink => match component_kind(name) {
            Some(k) => EntryOutcome::Candidate(k, CandidateType::Symlink),
            None => EntryOutcome::Skip,
        },
        EntryType::Directory => if component_kind(name) == Some(MetadataKind::MacosxDirectory) {
            EntryOutcome::Candidate(MetadataKind::MacosxDirectory, CandidateType::Directory)
        } else {
            EntryOutcome::Descend
        },
        EntryType::File => match component_kind(name) {
            Some(MetadataKind::DsStore) => EntryOutcome::Candidate(
                MetadataKind::DsStore,
                CandidateType::RegularFile,
            ),
            Some(MetadataKind::AppleDouble) => EntryOutcome::Candidate(
                MetadataKind::AppleDouble,
                CandidateType::RegularFile,
            ),
            _ => EntryOutcome::Skip,
        },
        EntryType::Other => EntryOutcome::Skip,
    }
}

/// Decides one entry as [`entry_outcome`] says.
pub fn classify_entry(name: &[u8], t: EntryType) -> (outcome: EntryOutcome)
    ensures
        outcome == entry_outcome(name@, t),
{
    let kind = classify_filesystem_name(name);
    match t {
        EntryType::Symlink => match kind {
            Some(k) => EntryOutcome::Candidate(k, CandidateType::Symlink),
            None => EntryOutcome::Skip,
        },
        EntryType::Directory => match kind {
            Some(MetadataKind::MacosxDirectory) => EntryOutcome::Candidate(
                MetadataKind::MacosxDirectory,
                CandidateType::Directory,
            ),
            _ => EntryOutcome::Descend,
        },
        EntryType::File => match kind {
            Some(MetadataKind::DsStore) => EntryOutcome::Candidate(
                MetadataKind::DsStore,
                CandidateType::RegularFile,
            ),
            Some(MetadataKind::AppleDouble) => EntryOutcome::Candidate(
                MetadataKind::AppleDouble,
                CandidateType::RegularFile,
            ),
            _ => EntryOutcome::Skip,
        },
        EntryType::Other => EntryOutcome::Skip,
    }
}

/// A candidate's kind suits its type: a directory is a `__MACOSX` folder, a
/// regular file is `.DS_Store` or AppleDouble; a symlink may be any.
pub open spec fn kind_fits_type(kind: MetadataKind, t: CandidateType) -> bool {
    match t {
        CandidateType::Directory => kind == MetadataKind::MacosxDirectory,
        CandidateType::RegularFile => kind == MetadataKind::DsStore || kind
            == MetadataKind::AppleDouble,
        CandidateType::Symlink => true,
    }
}

/// Only metadata names become candidates, and with a fitting type.
pub proof fn law_candidates_fit_their_type(name: Seq<u8>, t: EntryType)
    ensures
        entry_outcome(name, t) matches EntryOutcome::Candidate(k, c) ==> component_kind(name)
            == Some(k) && kind_fits_type(k, c) && candidate_type_of(t) == Some(c),
        entry_outcome(name, t) is Descend ==> t == EntryType::Directory,
{
}

/// A file or directory selected for removal.
#[derive(Debug, Clone, PartialEq, Eq)]
pub struct FolderCandidate {
    path: Vec<u8>,
    relative_path: Vec<u8>,
    metadata_kind: MetadataKind,
    candidate_type: CandidateType,
}

/// A candidate as values: path, path relative to the root, kind, type.
pub type CandidateView = (Seq<u8>, Seq<u8>, MetadataKind, CandidateType);

impl FolderCandidate {
    /// This candidate as values.
    pub closed spec fn view_tuple(&self) -> CandidateView {
        (self.path@, self.relative_path@, self.metadata_kind, self.candidate_type)
    }

    /// The full path.
    pub fn path(&self) -> (p: &[u8])
        ensures
            p@ == self.view_tuple().0,
    {
        self.path.as_slice()
    }

    /// The path relative to the scanned root.
    pub fn relative_path(&self) -> (p: &[u8])
        ensures
            p@ == self.view_tuple().1,
    {
        self.relative_path.as_slice()
    }

    /// What kind of metadata it is.
    pub fn metadata_kind(&self) -> (k: MetadataKind)
        ensures
            k == self.view_tuple().2,
    {
        self.metadata_kind
    }

    /// What kind of object it is.
    pub fn candidate_type(&self) -> (t: CandidateType)
        ensures
            t == self.view_tuple().3,
    {
        self.candidate_type
    }

    /// As a scan of `root` lists it (see [`listed_candidate`]).
    pub open spec fn fits_root(&self, root: Seq<u8>) -> bool {
        listed_candidate(root, self.view_tuple())
    }

    /// Whether it is shown with a trailing `/`.
    pub fn display_as_directory(&self) -> (d: bool)
        ensures
            d == (self.view_tuple().3 == CandidateType::Directory),
    {
        self.candidate_type == CandidateType::Directory
    }
}

impl PathKeyed for FolderCandidate {
    open spec fn path_key(&self) -> Seq<u8> {
        self.view_tuple().1
    }

    fn path_key_bytes(&self) -> (k: &[u8]) {
        self.relative_path.as_slice()
    }
}

/// A candidate as a scan of `root` lists it: its relative path is plain,
/// its last name is metadata of its kind and no name before it is
/// `__MACOSX`; its kind suits its type; and its path is `root` joined with
/// the relative path, within machine limits.
pub open spec fn listed_candidate(root: Seq<u8>, c: CandidateView) -> bool {
    &&& is_plain_relative(c.1)
    &&& c.0 == push_name(root, c.1)
    &&& root.len() + c.1.len() + 2 <= isize::MAX
    &&& component_kind(split_parts(c.1).last()) == Some(c.2)
    &&& kind_fits_type(c.2, c.3)
    &&& forall|i: int|
        0 <= i < split_parts(c.1).len() - 1 ==> component_kind(#[trigger] split_parts(c.1)[i])
            != Some(MetadataKind::MacosxDirectory)
}

/// The views of a sequence of candidates.
pub open spec fn candidate_views(s: Seq<FolderCandidate>) -> Seq<CandidateView> {
    s.map_values(|c: FolderCandidate| c.view_tuple())
}

/// A completed scan: the canonical root and its candidates, sorted by
/// relative path.
#[derive(Debug, Clone, PartialEq, Eq)]
pub struct FolderScan {
    root: Vec<u8>,
    candidates: Vec<FolderCandidate>,
}

impl FolderScan {
    /// The canonical root.
    pub closed spec fn root_view(&self) -> Seq<u8> {
        self.root@
    }

    /// The candidates.
    pub closed spec fn candidate_list(&self) -> Seq<FolderCandidate> {
        self.candidates@
    }

    /// As a scan lists them: the root has a parent (it is not a filesystem
    /// root); every candidate is listed as [`listed_candidate`] says; the
    /// relative paths strictly increase; and no candidate lies at or below
    /// another.
    pub open spec fn wf(&self) -> bool {
        &&& parent_len(self.root_view()) is Some
        &&& forall|i: int|
            0 <= i < self.candidate_list().len() ==> (#[trigger] self.candidate_list()[i]).fits_root(
                self.root_view(),
            )
        &&& strictly_sorted_by_key(self.candidate_list())
        &&& forall|i: int, j: int|
            0 <= i < self.candidate_list().len() && 0 <= j < self.candidate_list().len() && i != j
                ==> !nested(
                (#[trigger] self.candidate_list()[i]).view_tuple().1,
                (#[trigger] self.candidate_list()[j]).view_tuple().1,
            )
    }

    /// The canonical root that was scanned.
    pub fn root(&self) -> (r: &[u8])
        ensures
            r@ == self.root_view(),
    {
        self.root.as_slice()
    }

    /// The candidates, sorted by relative path.
    pub fn candidates(&self) -> (c: &[FolderCandidate])
        ensures
            c@ == self.candidate_list(),
    {
        self.candidates.as_slice()
    }

    /// Whether nothing was found.
    pub fn is_empty(&self) -> (r: bool)
        ensures
            r == (self.candidate_list().len() == 0),
    {
        self.candidates.len() == 0
    }
}

/// Why a scan or a removal stopped.
#[derive(Debug, Clone, Copy, PartialEq, Eq, Structural)]
pub enum FolderErrorKind {
    /// The target does not exist.
    TargetNotFound,
    /// The target could not be inspected.
    CannotInspectTarget,
    /// The target is a symbolic link.
    SymlinkRoot,
    /// The target is not a directory.
    NotADirectory,
    /// The target could not be resolved.
    CannotResolveTarget,
    /// The target resolves to a filesystem root.
    FilesystemRoot,
    /// A directory to scan could not be inspected again.
    CannotRevalidateDirectory,
    /// A directory to scan is no longer a real directory.
    DirectoryChanged,
    /// A directory to scan could not be resolved.
    CannotResolveDirectory,
    /// A directory to scan resolves outside the root.
    DirectoryEscaped,
    /// A directory could not be listed.
    CannotReadDirectory,
    /// An entry of a directory could not be read.
    CannotReadEntry,
    /// An entry could not be inspected.
    CannotInspectEntry,
    /// A listed name is not a single path component.
    UnusableEntryName,
    /// The root could not be inspected again.
    CannotRevalidateRoot,
    /// The root changed after scanning.
    RootChanged,
    /// The root could not be resolved again.
    CannotResolveRoot,
    /// A candidate's path is not its root joined with its relative path.
    CandidateEscaped,
    /// A candidate's parent could not be inspected.
    CannotRevalidateParent,
    /// A candidate's parent is no longer a real directory.
    ParentChanged,
    /// A candidate's parent could not be resolved.
    CannotResolveParent,
    /// A candidate's parent resolves outside the root.
    ParentEscaped,
    /// A candidate changed or disappeared.
    CandidateChangedOrDisappeared,
    /// A candidate's type changed.
    CandidateChangedType,
    /// A candidate's name no longer names that metadata.
    CandidateChangedName,
    /// A candidate's path has no file name.
    CandidateHasNoFilename,
    /// Removing a candidate failed.
    RemoveFailed,
}

/// A scan or removal error: its kind, the path concerned and the host's
/// description.
#[derive(Debug, Clone, PartialEq, Eq)]
pub struct FolderError {
    /// What went wrong.
    pub kind: FolderErrorKind,
    /// The path concerned (empty when none).
    pub path: Vec<u8>,
    /// The host's description (empty when none).
    pub detail: String,
}

/// The message for a folder error of this kind about this path, with this description.
pub open spec fn folder_error_text(kind: FolderErrorKind, path: Seq<char>, detail: Seq<char>) -> Seq<char> {
    match kind {
        FolderErrorKind::TargetNotFound => "directory not found:\n"@ + path,
        FolderErrorKind::CannotInspectTarget => "cannot inspect target directory "@ + path + ": "@ + detail,
        FolderErrorKind::SymlinkRoot => "refusing to clean a symbolic-link root:\n"@ + path,
        FolderErrorKind::NotADirectory => "target is not a directory:\n"@ + path,
        FolderErrorKind::CannotResolveTarget => "cannot resolve target directory "@ + path + ": "@ + detail,
        FolderErrorKind::FilesystemRoot => "refusing to scan a filesystem root:\n"@ + path,
        FolderErrorKind::CannotRevalidateDirectory => "cannot revalidate directory "@ + path + ": "@ + detail,
        FolderErrorKind::DirectoryChanged => "directory changed while scanning:\n"@ + path,
        FolderErrorKind::CannotResolveDirectory => "cannot resolve directory "@ + path + ": "@ + detail,
        FolderErrorKind::DirectoryEscaped => "directory escaped the target root:\n"@ + path,
        FolderErrorKind::CannotReadDirectory => "cannot read directory "@ + path + ": "@ + detail,
        FolderErrorKind::CannotReadEntry => "cannot read an entry in "@ + path + ": "@ + detail,
        FolderErrorKind::CannotInspectEntry => "cannot inspect filesystem entry "@ + path + ": "@ + detail,
        FolderErrorKind::UnusableEntryName => "filesystem entry escaped the target directory: "@ + path,
        FolderErrorKind::CannotRevalidateRoot => "cannot revalidate target root "@ + path + ": "@ + detail,
        FolderErrorKind::RootChanged => "target root changed after scanning:\n"@ + path,
        FolderErrorKind::CannotResolveRoot => "cannot resolve target root "@ + path + ": "@ + detail,
        FolderErrorKind::CandidateEscaped => "candidate escaped the target root:\n"@ + path,
        FolderErrorKind::CannotRevalidateParent => "cannot revalidate candidate parent "@ + path + ": "@ + detail,
        FolderErrorKind::ParentChanged => "candidate parent changed after scanning:\n"@ + path,
        FolderErrorKind::CannotResolveParent => "cannot resolve candidate parent "@ + path + ": "@ + detail,
        FolderErrorKind::ParentEscaped => "candidate parent escaped the target root:\n"@ + path,
        FolderErrorKind::CandidateChangedOrDisappeared => "metadata candidate changed or disappeared:\n"@ + path + "\n"@ + detail,
        FolderErrorKind::CandidateChangedType => "metadata candidate changed type after scanning:\n"@ + path,
        FolderErrorKind::CandidateChangedName => "metadata candidate changed name after scanning:\n"@ + path,
        FolderErrorKind::CandidateHasNoFilename => "candidate has no filename"@,
        FolderErrorKind::RemoveFailed => "failed to remove metadata:\n"@ + path + "\n\nReason:\n"@ + detail,
    }
}

impl FolderError {
    /// The message this error is shown with.
    pub fn message(&self) -> (m: String)
        ensures
            m@ == folder_error_text(self.kind, lossy_utf8(self.path@), self.detail@),
    {
        let path = display_bytes(self.path.as_slice());
        let mut s = String::new();
        match self.kind {
            FolderErrorKind::TargetNotFound => {
                s.append("directory not found:\n");
                s.append(path.as_str());
            },
            FolderErrorKind::CannotInspectTarget => {
                s.append("cannot inspect target directory ");
                s.append(path.as_str());
                s.append(": ");
                s.append(self.detail.as_str());
            },
            FolderErrorKind::SymlinkRoot => {
                s.append("refusing to clean a symbolic-link root:\n");
                s.append(path.as_str());
            },
            FolderErrorKind::NotADirectory => {
                s.append("target is not a directory:\n");
                s.append(path.as_str());
            },
            FolderErrorKind::CannotResolveTarget => {
                s.append("cannot resolve target directory ");
                s.append(path.as_str());
                s.append(": ");
                s.append(self.detail.as_str());
            },
            FolderErrorKind::FilesystemRoot => {
                s.append("refusing to scan a filesystem root:\n");
                s.append(path.as_str());
            },
            FolderErrorKind::CannotRevalidateDirectory => {
                s.append("cannot revalidate directory ");
                s.append(path.as_str());
                s.append(": ");
                s.append(self.detail.as_str());
            },
            FolderErrorKind::DirectoryChanged => {
                s.append("directory changed while scanning:\n");
                s.append(path.as_str());
            },
            FolderErrorKind::CannotResolveDirectory => {
                s.append("cannot resolve directory ");
                s.append(path.as_str());
                s.append(": ");
                s.append(self.detail.as_str());
            },
            FolderErrorKind::DirectoryEscaped => {
                s.append("directory escaped the target root:\n");
                s.append(path.as_str());
            },
            FolderErrorKind::CannotReadDirectory => {
                s.append("cannot read directory ");
                s.append(path.as_str());
                s.append(": ");
                s.append(self.detail.as_str());
            },
            FolderErrorKind::CannotReadEntry => {
                s.append("cannot read an entry in ");
                s.append(path.as_str());
                s.append(": ");
                s.append(self.detail.as_str());
            },
            FolderErrorKind::CannotInspectEntry => {
                s.append("cannot inspect filesystem entry ");
                s.append(path.as_str());
                s.append(": ");
                s.append(self.detail.as_str());
            },
            FolderErrorKind::UnusableEntryName => {
                s.append("filesystem entry escaped the target directory: ");
                s.append(path.as_str());
            },
            FolderErrorKind::CannotRevalidateRoot => {
                s.append("cannot revalidate target root ");
                s.append(path.as_str());
                s.append(": ");
                s.append(self.detail.as_str());
            },
            FolderErrorKind::RootChanged => {
                s.append("target root changed after scanning:\n");
                s.append(path.as_str());
            },
            FolderErrorKind::CannotResolveRoot => {
                s.append("cannot resolve target root ");
                s.append(path.as_str());
                s.append(": ");
                s.append(self.detail.as_str());
            },
            FolderErrorKind::CandidateEscaped => {
                s.append("candidate escaped the target root:\n");
                s.append(path.as_str());
            },
            FolderErrorKind::CannotRevalidateParent => {
                s.append("cannot revalidate candidate parent ");
                s.append(path.as_str());
                s.append(": ");
                s.append(self.detail.as_str());
            },
            FolderErrorKind::ParentChanged => {
                s.append("candidate parent changed after scanning:\n");
                s.append(path.as_str());
            },
            FolderErrorKind::CannotResolveParent => {
                s.append("cannot resolve candidate parent ");
                s.append(path.as_str());
                s.append(": ");
                s.append(self.detail.as_str());
            },
            FolderErrorKind::ParentEscaped => {
                s.append("candidate parent escaped the target root:\n");
                s.append(path.as_str());
            },
            FolderErrorKind::CandidateChangedOrDisappeared => {
                s.append("metadata candidate changed or disappeared:\n");
                s.append(path.as_str());
                s.append("\n");
                s.append(self.detail.as_str());
            },
            FolderErrorKind::CandidateChangedType => {
                s.append("metadata candidate changed type after scanning:\n");
                s.append(path.as_str());
            },
            FolderErrorKind::CandidateChangedName => {
                s.append("metadata candidate changed name after scanning:\n");
                s.append(path.as_str());
            },
            FolderErrorKind::CandidateHasNoFilename => {
                s.append("candidate has no filename");
            },
            FolderErrorKind::RemoveFailed => {
                s.append("failed to remove metadata:\n");
                s.append(path.as_str());
                s.append("\n\nReason:\n");
                s.append(self.detail.as_str());
            },
        }
        s
    }

    /// An error of `kind` about `path`.
    pub fn new(kind: FolderErrorKind, path: Vec<u8>, detail: String) -> (e: FolderError)
        ensures
            e.kind == kind,
            e.path@ == path@,
            e.detail@ == detail@,
    {
        FolderError { kind, path, detail }
    }
}

/// A failed removal: the error, and the relative paths already removed.
#[derive(Debug)]
pub struct ApplyError {
    error: FolderError,
    removed: Vec<Vec<u8>>,
}

impl ApplyError {
    /// The error.
    pub closed spec fn error_view(&self) -> FolderError {
        self.error
    }

    /// The relative paths removed before the error.
    pub closed spec fn removed_view(&self) -> Seq<Seq<u8>> {
        byte_seqs(self.removed@)
    }

    /// What went wrong.
    pub fn error(&self) -> (e: &FolderError)
        ensures
            *e == self.error_view(),
    {
        &self.error
    }

    /// The relative paths removed before the error, in order.
    pub fn removed(&self) -> (r: &[Vec<u8>])
        ensures
            byte_seqs(r@) == self.removed_view(),
    {
        self.removed.as_slice()
    }
}

/// A completed removal: the relative paths removed, in order.
#[derive(Debug, Clone, PartialEq, Eq)]
pub struct ApplyReport {
    /// The relative paths removed.
    pub removed: Vec<Vec<u8>>,
}

fn copy_bytes(s: &[u8]) -> (r: Vec<u8>)
    ensures
        r@ == s@,
{
    vstd::slice::slice_to_vec(s)
}

/// The first problem with a scan target, from what `symlink_metadata` said
/// of it and what it resolves to.
pub open spec fn target_verdict(
    target: Seq<u8>,
    target_type: Result<EntryType, IoFailure>,
    canonical: Result<Vec<u8>, IoFailure>,
) -> Option<(FolderErrorKind, Seq<u8>, Seq<char>)> {
    match target_type {
        Err(f) => if f.kind == IoKind::NotFound {
            Some((FolderErrorKind::TargetNotFound, target, f.detail@))
        } else {
            Some((FolderErrorKind::CannotInspectTarget, target, f.detail@))
        },
        Ok(t) => if t == EntryType::Symlink {
            Some((FolderErrorKind::SymlinkRoot, target, no_detail()))
        } else if t != EntryType::Directory {
            Some((FolderErrorKind::NotADirectory, target, no_detail()))
        } else {
            match canonical {
                Err(g) => Some((FolderErrorKind::CannotResolveTarget, target, g.detail@)),
                Ok(root) => if parent_len(root@) is None {
                    Some((FolderErrorKind::FilesystemRoot, root@, no_detail()))
                } else {
                    None
                },
            }
        },
    }
}

/// A name the host may list in a directory: non-empty, without `/`, and
/// neither `.` nor `..`.
pub open spec fn is_entry_name(n: Seq<u8>) -> bool {
    n.len() > 0 && !n.contains(SEP) && n != seq![DOT] && n != seq![DOT, DOT]
}

/// A relative path made of entry names joined by single separators, as the
/// scan builds them: `a`, `a/b`, ...
pub open spec fn is_plain_relative(r: Seq<u8>) -> bool {
    forall|i: int| 0 <= i < split_parts(r).len() ==> is_entry_name(#[trigger] split_parts(r)[i])
}

/// Joining an entry name to the root's empty relative path or to a plain
/// relative path gives a plain relative path, one part longer.
pub(crate) proof fn lemma_plain_push(r: Seq<u8>, n: Seq<u8>)
    requires
        r.len() == 0 || is_plain_relative(r),
        is_entry_name(n),
    ensures
        is_plain_relative(push_name(r, n)),
        push_name(r, n).len() <= r.len() + n.len() + 1,
{
    if r.len() == 0 {
        lemma_split_single(n);
        assert(push_name(r, n) =~= n);
    } else {
        lemma_split_parts_len(r);
        lemma_split_last(r);
        assert(is_entry_name(split_parts(r)[split_parts(r).len() - 1]));
        assert(push_name(r, n) == r + seq![SEP] + n);
        lemma_split_join(r, n);
        let q = split_parts(push_name(r, n));
        assert forall|i: int| 0 <= i < q.len() implies is_entry_name(#[trigger] q[i]) by {
            if i < split_parts(r).len() {
                assert(q[i] == split_parts(r)[i]);
            }
        }
    }
}

/// The names a relative path is made of; none for the root's empty path.
pub open spec fn rel_parts(r: Seq<u8>) -> Seq<Seq<u8>> {
    if r.len() == 0 {
        Seq::<Seq<u8>>::empty()
    } else {
        split_parts(r)
    }
}

/// `x` lies at or below `d`: `x`'s names begin with `d`'s.
pub open spec fn lies_within(x: Seq<u8>, d: Seq<u8>) -> bool {
    rel_parts(d).len() <= rel_parts(x).len() && rel_parts(x).subrange(0, rel_parts(d).len() as int)
        == rel_parts(d)
}

/// One of two relative paths lies at or below the other (or they are the
/// same).
pub open spec fn nested(x: Seq<u8>, y: Seq<u8>) -> bool {
    lies_within(x, y) || lies_within(y, x)
}

/// No two paths of the listing are nested.
pub open spec fn separated(xs: Seq<Seq<u8>>) -> bool {
    forall|i: int, j: int|
        0 <= i < xs.len() && 0 <= j < xs.len() && i != j ==> !nested(#[trigger] xs[i], #[trigger] xs[j])
}

/// No path of one listing is nested with a path of the other.
pub open spec fn apart(xs: Seq<Seq<u8>>, ys: Seq<Seq<u8>>) -> bool {
    forall|i: int, j: int|
        0 <= i < xs.len() && 0 <= j < ys.len() ==> !nested(#[trigger] xs[i], #[trigger] ys[j])
}

/// The path `root` joined with a relative path; `root` itself for the
/// empty one.
pub open spec fn under_root(root: Seq<u8>, rel: Seq<u8>) -> Seq<u8> {
    if rel.len() == 0 {
        root
    } else {
        push_name(root, rel)
    }
}

/// Joining a name adds it as one more part.
pub(crate) proof fn lemma_rel_parts_push(r: Seq<u8>, n: Seq<u8>)
    requires
        r.len() == 0 || is_plain_relative(r),
        is_entry_name(n),
    ensures
        rel_parts(push_name(r, n)) == rel_parts(r).push(n),
        push_name(r, n).len() > 0,
{
    if r.len() == 0 {
        lemma_split_single(n);
        assert(push_name(r, n) =~= n);
        assert(rel_parts(r).push(n) =~= seq![n]);
    } else {
        lemma_split_parts_len(r);
        lemma_split_last(r);
        assert(is_entry_name(split_parts(r)[split_parts(r).len() - 1]));
        lemma_split_join(r, n);
    }
}

/// What is not nested with a directory is not nested with its children.
pub(crate) proof fn lemma_fresh_child(x: Seq<u8>, d: Seq<u8>, n: Seq<u8>)
    requires
        !nested(x, d),
        d.len() == 0 || is_plain_relative(d),
        is_entry_name(n),
    ensures
        !nested(x, push_name(d, n)),
{
    lemma_rel_parts_push(d, n);
    let xp = rel_parts(x);
    let dp = rel_parts(d);
    let np = dp.push(n);
    if lies_within(push_name(d, n), x) {
        if xp.len() <= dp.len() {
            assert(dp.subrange(0, xp.len() as int) =~= np.subrange(0, xp.len() as int));
        } else {
            assert(xp.len() == np.len());
            assert(np.subrange(0, xp.len() as int) =~= np);
            assert(xp.subrange(0, dp.len() as int) =~= np.subrange(0, dp.len() as int));
            assert(np.subrange(0, dp.len() as int) =~= dp);
        }
    }
    if lies_within(x, push_name(d, n)) {
        assert(xp.subrange(0, dp.len() as int) =~= xp.subrange(0, np.len() as int).subrange(
            0,
            dp.len() as int,
        ));
        assert(np.subrange(0, dp.len() as int) =~= dp);
    }
}

/// Two children of one directory with different names are not nested.
pub(crate) proof fn lemma_siblings_apart(d: Seq<u8>, n: Seq<u8>, m: Seq<u8>)
    requires
        d.len() == 0 || is_plain_relative(d),
        is_entry_name(n),
        is_entry_name(m),
        n != m,
    ensures
        !nested(push_name(d, n), push_name(d, m)),
{
    lemma_rel_parts_push(d, n);
    lemma_rel_parts_push(d, m);
    let a = rel_parts(d).push(n);
    let b = rel_parts(d).push(m);
    if nested(push_name(d, n), push_name(d, m)) {
        assert(a.subrange(0, a.len() as int) =~= a);
        assert(b.subrange(0, b.len() as int) =~= b);
        assert(a[a.len() - 1] == n);
        assert(b[b.len() - 1] == m);
    }
}

/// `x` is a child of `d` whose name is among `seen`.
pub open spec fn child_named(x: Seq<u8>, d: Seq<u8>, seen: Seq<Seq<u8>>) -> bool {
    rel_parts(x).len() > 0 && rel_parts(x).drop_last() == rel_parts(d) && seen.contains(
        rel_parts(x).last(),
    )
}

/// A child of a directory is not nested with another child of a different
/// name.
pub(crate) proof fn lemma_child_apart(y: Seq<u8>, d: Seq<u8>, m: Seq<u8>, n: Seq<u8>)
    requires
        rel_parts(y).len() > 0,
        rel_parts(y).drop_last() == rel_parts(d),
        rel_parts(y).last() == m,
        d.len() == 0 || is_plain_relative(d),
        is_entry_name(n),
        n != m,
    ensures
        !nested(y, push_name(d, n)),
{
    lemma_rel_parts_push(d, n);
    let a = rel_parts(y);
    let b = rel_parts(d).push(n);
    assert(a =~= rel_parts(d).push(m));
    if nested(y, push_name(d, n)) {
        assert(a.subrange(0, a.len() as int) =~= a);
        assert(b.subrange(0, b.len() as int) =~= b);
        assert(a[a.len() - 1] == m);
        assert(b[b.len() - 1] == n);
    }
}

/// Joining a name to a directory's path below `root` gives the child's
/// path below `root`.
pub(crate) proof fn lemma_under_root_push(root: Seq<u8>, r: Seq<u8>, n: Seq<u8>)
    requires
        r.len() == 0 || is_plain_relative(r),
        is_entry_name(n),
    ensures
        push_name(under_root(root, r), n) == push_name(root, push_name(r, n)),
{
    if r.len() == 0 {
        assert(push_name(r, n) =~= n);
    } else {
        lemma_split_parts_len(r);
        lemma_split_last(r);
        assert(is_entry_name(split_parts(r)[split_parts(r).len() - 1]));
        let u = push_name(root, r);
        assert(u.last() == r.last());
        assert(push_name(u, n) =~= push_name(root, push_name(r, n)));
    }
}

pub(crate) fn entry_name_ok(n: &[u8]) -> (r: bool)
    ensures
        r == is_entry_name(n@),
{
    if n.len() == 0 {
        return false;
    }
    let mut i: usize = 0;
    while i < n.len()
        invariant
            i <= n.len(),
            forall|k: int| 0 <= k < i ==> n@[k] != SEP,
        decreases n.len() - i,
    {
        if n[i] == SEP {
            assert(n@.contains(SEP));
            return false;
        }
        i = i + 1;
    }
    let dot = n.len() == 1 && n[0] == DOT;
    let dot_dot = n.len() == 2 && n[0] == DOT && n[1] == DOT;
    proof {
        if dot {
            assert(n@ =~= seq![DOT]);
        }
        if dot_dot {
            assert(n@ =~= seq![DOT, DOT]);
        }
        if n.len() == 1 {
            assert(n@ != seq![DOT, DOT]);
        }
        if n.len() == 2 {
            assert(n@ != seq![DOT]);
        }
    }
    !dot && !dot_dot
}

/// One listed directory entry: its name and `symlink_metadata`'s type.
#[derive(Debug, Clone)]
pub struct ListedEntry {
    /// The entry's raw file name.
    pub name: Vec<u8>,
    /// Its type, links not followed.
    pub entry_type: EntryType,
}

/// A failure that ended a directory listing.
#[derive(Debug, Clone)]
pub enum EntryFailure {
    /// The next entry could not be read.
    Read(IoFailure),
    /// The named entry could not be inspected.
    Inspect(Vec<u8>, IoFailure),
}

/// What was observed of one directory to scan: its own type
/// (`symlink_metadata`), what it resolves to, its entries in listing order,
/// and the failure that ended the listing, if any.
#[derive(Debug)]
pub struct DirectoryReport {
    /// The directory's own type.
    pub own_type: Result<EntryType, IoFailure>,
    /// What it resolves to.
    pub canonical: Result<Vec<u8>, IoFailure>,
    /// Its entries, or why it could not be listed.
    pub entries: Result<Vec<ListedEntry>, IoFailure>,
    /// The failure that ended the listing.
    pub failure: Option<EntryFailure>,
}

/// A directory waiting to be scanned: its path and its path relative to the
/// root (empty for the root).
#[derive(Debug, Clone)]
pub struct PendingDirectory {
    path: Vec<u8>,
    relative: Vec<u8>,
}

impl PendingDirectory {
    /// The directory as values: path, then relative path.
    pub closed spec fn view_pair(&self) -> (Seq<u8>, Seq<u8>) {
        (self.path@, self.relative@)
    }

    /// The directory's path.
    pub fn path(&self) -> (p: &[u8])
        ensures
            p@ == self.view_pair().0,
    {
        self.path.as_slice()
    }
}

/// The first index at or after `from` whose entry name is unusable, or -1.
pub open spec fn first_bad_name(entries: Seq<ListedEntry>, from: int) -> int
    decreases entries.len() - from,
{
    if from < 0 || from >= entries.len() {
        -1
    } else if !is_entry_name(entries[from].name@) {
        from
    } else {
        first_bad_name(entries, from + 1)
    }
}

/// The first problem with a listing that could be read.
pub open spec fn listing_verdict(dir: Seq<u8>, entries: Seq<ListedEntry>, failure: Option<EntryFailure>) -> Option<
    (FolderErrorKind, Seq<u8>, Seq<char>),
> {
    if first_bad_name(entries, 0) >= 0 {
        Some(
            (
                FolderErrorKind::UnusableEntryName,
                push_name(dir, entries[first_bad_name(entries, 0)].name@),
                no_detail(),
            ),
        )
    } else {
        match failure {
            None => None,
            Some(EntryFailure::Read(f)) => Some((FolderErrorKind::CannotReadEntry, dir, f.detail@)),
            Some(EntryFailure::Inspect(n, f)) => Some(
                (FolderErrorKind::CannotInspectEntry, push_name(dir, n@), f.detail@),
            ),
        }
    }
}

/// The first problem with a directory to scan: it must still be a real
/// directory resolving inside the root, be listable, and list usable names
/// without failure.
pub open spec fn directory_verdict(root: Seq<u8>, dir: Seq<u8>, report: DirectoryReport) -> Option<
    (FolderErrorKind, Seq<u8>, Seq<char>),
> {
    if report.own_type is Err {
        Some((FolderErrorKind::CannotRevalidateDirectory, dir, report.own_type->Err_0.detail@))
    } else if report.own_type->Ok_0 != EntryType::Directory {
        Some((FolderErrorKind::DirectoryChanged, dir, no_detail()))
    } else if report.canonical is Err {
        Some((FolderErrorKind::CannotResolveDirectory, dir, report.canonical->Err_0.detail@))
    } else if !path_starts_with(report.canonical->Ok_0@, root) {
        Some((FolderErrorKind::DirectoryEscaped, dir, no_detail()))
    } else if report.entries is Err {
        Some((FolderErrorKind::CannotReadDirectory, dir, report.entries->Err_0.detail@))
    } else {
        listing_verdict(dir, report.entries->Ok_0@, report.failure)
    }
}

/// The candidates a listing adds, in listing order.
pub open spec fn listing_candidates(dir: Seq<u8>, rel: Seq<u8>, entries: Seq<ListedEntry>) -> Seq<
    CandidateView,
>
    decreases entries.len(),
{
    if entries.len() == 0 {
        Seq::<CandidateView>::empty()
    } else {
        let init = listing_candidates(dir, rel, entries.drop_last());
        let e = entries.last();
        match entry_outcome(e.name@, e.entry_type) {
            EntryOutcome::Candidate(k, t) => init.push(
                (push_name(dir, e.name@), push_name(rel, e.name@), k, t),
            ),
            _ => init,
        }
    }
}

/// The subdirectories a listing adds to scan, in listing order.
pub open spec fn listing_subdirectories(dir: Seq<u8>, rel: Seq<u8>, entries: Seq<ListedEntry>) -> Seq<
    (Seq<u8>, Seq<u8>),
>
    decreases entries.len(),
{
    if entries.len() == 0 {
        Seq::<(Seq<u8>, Seq<u8>)>::empty()
    } else {
        let init = listing_subdirectories(dir, rel, entries.drop_last());
        let e = entries.last();
        match entry_outcome(e.name@, e.entry_type) {
            EntryOutcome::Descend => init.push((push_name(dir, e.name@), push_name(rel, e.name@))),
            _ => init,
        }
    }
}

/// Joining each listed name to the directory stays within machine limits.
pub open spec fn listing_fits(dir: (Seq<u8>, Seq<u8>), entries: Seq<ListedEntry>) -> bool {
    forall|i: int|
        0 <= i < entries.len() ==> dir.0.len() + (#[trigger] entries[i]).name@.len() + 1
            <= isize::MAX && dir.1.len() + entries[i].name@.len() + 1 <= isize::MAX
}

/// Each listed name joined to `rel` and then to `root` stays within machine
/// limits.
pub open spec fn entries_fit_root(root: Seq<u8>, rel: Seq<u8>, entries: Seq<ListedEntry>) -> bool {
    forall|i: int|
        0 <= i < entries.len() ==> root.len() + rel.len() + (#[trigger] entries[i]).name@.len() + 3
            <= isize::MAX
}

/// Every name at or after `from` is usable when none is found there.
proof fn lemma_no_bad_name(entries: Seq<ListedEntry>, from: int, k: int)
    requires
        0 <= from <= k < entries.len(),
        first_bad_name(entries, from) == -1,
    ensures
        is_entry_name(entries[k].name@),
    decreases k - from,
{
    if from < k {
        lemma_no_bad_name(entries, from + 1, k);
    }
}

/// The views of pending directories.
pub open spec fn pending_views(s: Seq<PendingDirectory>) -> Seq<(Seq<u8>, Seq<u8>)> {
    s.map_values(|d: PendingDirectory| d.view_pair())
}

/// The relative paths of pending directories.
pub open spec fn pending_rels(s: Seq<PendingDirectory>) -> Seq<Seq<u8>> {
    s.map_values(|d: PendingDirectory| d.view_pair().1)
}

/// Each name of a listing occurs once, as in any directory.
pub open spec fn names_distinct(entries: Seq<ListedEntry>) -> bool {
    forall|i: int, j: int|
        0 <= i < entries.len() && 0 <= j < entries.len() && i != j ==> entries[i].name@
            != entries[j].name@
}

/// A directory to scan as a scan of `root` builds it: its relative path is
/// the root's (empty) or plain and holds no `__MACOSX` name, and its path is
/// `root` joined with it.
pub open spec fn pending_fits(root: Seq<u8>, d: (Seq<u8>, Seq<u8>)) -> bool {
    &&& d.1.len() == 0 || is_plain_relative(d.1)
    &&& d.0 == under_root(root, d.1)
    &&& forall|i: int|
        0 <= i < rel_parts(d.1).len() ==> component_kind(#[trigger] rel_parts(d.1)[i]) != Some(
            MetadataKind::MacosxDirectory,
        )
}

pub(crate) proof fn lemma_separated_push(xs: Seq<Seq<u8>>, x: Seq<u8>)
    requires
        separated(xs),
        forall|j: int| 0 <= j < xs.len() ==> !nested(#[trigger] xs[j], x),
    ensures
        separated(xs.push(x)),
{
    let ys = xs.push(x);
    assert forall|i: int, j: int| 0 <= i < ys.len() && 0 <= j < ys.len() && i != j implies !nested(
        #[trigger] ys[i],
        #[trigger] ys[j],
    ) by {
        if i < xs.len() && j < xs.len() {
            assert(ys[i] == xs[i] && ys[j] == xs[j]);
        } else if i < xs.len() {
            assert(!nested(xs[i], x));
        } else {
            assert(!nested(xs[j], x));
        }
    }
}

pub(crate) proof fn lemma_apart_push_left(xs: Seq<Seq<u8>>, ys: Seq<Seq<u8>>, x: Seq<u8>)
    requires
        apart(xs, ys),
        forall|j: int| 0 <= j < ys.len() ==> !nested(#[trigger] ys[j], x),
    ensures
        apart(xs.push(x), ys),
{
    let zs = xs.push(x);
    assert forall|i: int, j: int| 0 <= i < zs.len() && 0 <= j < ys.len() implies !nested(
        #[trigger] zs[i],
        #[trigger] ys[j],
    ) by {
        if i < xs.len() {
            assert(zs[i] == xs[i]);
        } else {
            assert(!nested(ys[j], x));
        }
    }
}

pub(crate) proof fn lemma_apart_push_right(xs: Seq<Seq<u8>>, ys: Seq<Seq<u8>>, y: Seq<u8>)
    requires
        apart(xs, ys),
        forall|j: int| 0 <= j < xs.len() ==> !nested(#[trigger] xs[j], y),
    ensures
        apart(xs, ys.push(y)),
{
    let zs = ys.push(y);
    assert forall|i: int, j: int| 0 <= i < xs.len() && 0 <= j < zs.len() implies !nested(
        #[trigger] xs[i],
        #[trigger] zs[j],
    ) by {
        if j < ys.len() {
            assert(zs[j] == ys[j]);
        } else {
            assert(!nested(xs[i], y));
        }
    }
}

/// The empty path has no parent.
proof fn lemma_empty_has_no_parent()
    ensures
        parent_len(Seq::<u8>::empty()) is None,
{
    let parts = split_parts(Seq::<u8>::empty());
    assert(parts == seq![Seq::<u8>::empty()]);
    assert(last_nontrivial_before(parts, 0) == -1);
    assert(is_trivial_part(parts[0]));
    assert(last_nontrivial_before(parts, 1) == -1);
    assert(parts[0] != seq![DOT]) by {
        assert(seq![DOT].len() == 1);
    }
}

/// A folder scan in progress: the canonical root, the directories still to
/// scan (a stack), and the candidates found so far.
pub struct FolderScanner {
    root: Vec<u8>,
    pending: Vec<PendingDirectory>,
    candidates: Vec<FolderCandidate>,
}

impl FolderScanner {
    /// The canonical root.
    pub closed spec fn root_view(&self) -> Seq<u8> {
        self.root@
    }

    /// The directories still to scan; the last is scanned next.
    pub closed spec fn pending_view(&self) -> Seq<(Seq<u8>, Seq<u8>)> {
        pending_views(self.pending@)
    }

    /// The candidates found so far, in discovery order.
    pub closed spec fn found_view(&self) -> Seq<CandidateView> {
        candidate_views(self.candidates@)
    }

    /// The pending directories and the candidates were built by this scan:
    /// each fits the root, and no two of them are nested.
    pub closed spec fn wf(&self) -> bool {
        &&& self.root@.len() > 0
        &&& parent_len(self.root@) is Some
        &&& forall|i: int|
            0 <= i < self.pending@.len() ==> pending_fits(
                self.root@,
                (#[trigger] self.pending@[i]).view_pair(),
            )
        &&& forall|i: int|
            0 <= i < self.candidates@.len() ==> (#[trigger] self.candidates@[i]).fits_root(
                self.root@,
            )
        &&& separated(relative_paths(self.candidates@))
        &&& separated(pending_rels(self.pending@))
        &&& apart(relative_paths(self.candidates@), pending_rels(self.pending@))
    }

    /// Validates the scan target and starts at its canonical path.
    /// `target_type` is `symlink_metadata(target)`, `canonical` its
    /// `canonicalize` (asked only when the target is a directory).
    pub fn start(
        target: &[u8],
        target_type: Result<EntryType, IoFailure>,
        canonical: Result<Vec<u8>, IoFailure>,
    ) -> (r: Result<FolderScanner, FolderError>)
        ensures
            match target_verdict(target@, target_type, canonical) {
                Some((k, p, d)) => r matches Err(e) && e.kind == k && e.path@ == p && e.detail@ == d,
                None => r matches Ok(s) && canonical matches Ok(root) && s.root_view() == root@
                    && s.pending_view() == seq![(root@, Seq::<u8>::empty())]
                    && s.found_view().len() == 0 && s.wf(),
            },
    {
        match target_type {
            Err(f) => {
                let kind = if f.kind == IoKind::NotFound {
                    FolderErrorKind::TargetNotFound
                } else {
                    FolderErrorKind::CannotInspectTarget
                };
                return Err(FolderError::new(kind, copy_bytes(target), f.detail));
            },
            Ok(t) => {
                if t == EntryType::Symlink {
                    return Err(
                        FolderError::new(
                            FolderErrorKind::SymlinkRoot,
                            copy_bytes(target),
                            String::new(),
                        ),
                    );
                }
                if t != EntryType::Directory {
                    return Err(
                        FolderError::new(
                            FolderErrorKind::NotADirectory,
                            copy_bytes(target),
                            String::new(),
                        ),
                    );
                }
            },
        }
        let root = match canonical {
            Err(f) => {
                return Err(
                    FolderError::new(FolderErrorKind::CannotResolveTarget, copy_bytes(target), f.detail),
                );
            },
            Ok(root) => root,
        };
        if parent_len_exec(root.as_slice()).is_none() {
            return Err(FolderError::new(FolderErrorKind::FilesystemRoot, root, String::new()));
        }
        proof {
            lemma_empty_has_no_parent();
            if root@.len() == 0 {
                assert(root@ =~= Seq::<u8>::empty());
            }
        }
        let first = PendingDirectory { path: copy_bytes(root.as_slice()), relative: Vec::new() };
        let mut pending: Vec<PendingDirectory> = Vec::new();
        pending.push(first);
        let s = FolderScanner { root, pending, candidates: Vec::new() };
        assert(s.pending_view() =~= seq![(s.root@, Seq::<u8>::empty())]);
        assert(pending_fits(s.root@, first.view_pair())) by {
            assert(rel_parts(first.relative@).len() == 0);
        }
        assert(relative_paths(s.candidates@).len() == 0);
        assert(pending_rels(s.pending@).len() == 1);
        Ok(s)
    }

    /// The next directory to scan (the most recently found), left on the
    /// stack until [`FolderScanner::visit`] has scanned it; `None` when the
    /// scan is complete.
    pub fn next_directory(&self) -> (d: Option<PendingDirectory>)
        ensures
            self.pending_view().len() == 0 ==> d is None,
            self.pending_view().len() > 0 ==> (d matches Some(p) && p.view_pair()
                == self.pending_view().last()),
    {
        let n = self.pending.len();
        if n == 0 {
            return None;
        }
        let top = &self.pending[n - 1];
        let d = PendingDirectory {
            path: copy_bytes(top.path.as_slice()),
            relative: copy_bytes(top.relative.as_slice()),
        };
        Some(d)
    }

    /// Scans the next directory (the last pending one) from what was
    /// observed of it: a verdict as [`directory_verdict`] says, or else it
    /// leaves the stack and the listing's candidates and subdirectories are
    /// added.
    pub fn visit(&mut self, report: DirectoryReport) -> (r: Result<(), FolderError>)
        requires
            old(self).wf(),
            old(self).pending_view().len() > 0,
            report.entries matches Ok(es) ==> listing_fits(old(self).pending_view().last(), es@)
                && entries_fit_root(old(self).root_view(), old(self).pending_view().last().1, es@)
                && names_distinct(es@),
            report.failure matches Some(EntryFailure::Inspect(n, _)) ==> old(
                self,
            ).pending_view().last().0.len() + n@.len() + 1 <= isize::MAX,
        ensures
            final(self).root_view() == old(self).root_view(),
            final(self).wf(),
            r is Err ==> final(self).found_view() == old(self).found_view()
                && final(self).pending_view() == old(self).pending_view(),
            match directory_verdict(old(self).root_view(), old(self).pending_view().last().0, report) {
                Some((k, p, d)) => r matches Err(e) && e.kind == k && e.path@ == p && e.detail@ == d,
                None => r is Ok && (report.entries matches Ok(es) && final(self).found_view() == old(
                    self,
                ).found_view() + listing_candidates(
                    old(self).pending_view().last().0,
                    old(self).pending_view().last().1,
                    es@,
                ) && final(self).pending_view() == old(self).pending_view().drop_last()
                    + listing_subdirectories(
                    old(self).pending_view().last().0,
                    old(self).pending_view().last().1,
                    es@,
                )),
            },
    {
        let ghost root = self.root@;
        let top: usize = self.pending.len() - 1;
        assert(pending_views(self.pending@).last() == self.pending@[top as int].view_pair());
        let ghost dpath = self.pending@[top as int].path@;
        match report.own_type {
            Err(f) => {
                return Err(
                    FolderError::new(
                        FolderErrorKind::CannotRevalidateDirectory,
                        copy_bytes(self.pending[top].path.as_slice()),
                        f.detail,
                    ),
                );
            },
            Ok(t) => {
                if t != EntryType::Directory {
                    return Err(
                        FolderError::new(
                            FolderErrorKind::DirectoryChanged,
                            copy_bytes(self.pending[top].path.as_slice()),
                            String::new(),
                        ),
                    );
                }
            },
        }
        match &report.canonical {
            Err(f) => {
                return Err(
                    FolderError::new(
                        FolderErrorKind::CannotResolveDirectory,
                        copy_bytes(self.pending[top].path.as_slice()),
                        f.detail.clone(),
                    ),
                );
            },
            Ok(c) => {
                if !starts_with_exec(c.as_slice(), self.root.as_slice()) {
                    return Err(
                        FolderError::new(
                            FolderErrorKind::DirectoryEscaped,
                            copy_bytes(self.pending[top].path.as_slice()),
                            String::new(),
                        ),
                    );
                }
            },
        }
        let entries = match &report.entries {
            Err(f) => {
                return Err(
                    FolderError::new(
                        FolderErrorKind::CannotReadDirectory,
                        copy_bytes(self.pending[top].path.as_slice()),
                        f.detail.clone(),
                    ),
                );
            },
            Ok(es) => es,
        };
        let ghost es = entries@;
        assert(directory_verdict(root, dpath, report) == listing_verdict(dpath, es, report.failure));
        // Unusable names are refused before anything is recorded.
        let mut j: usize = 0;
        while j < entries.len()
            invariant
                j <= entries.len(),
                es == entries@,
                top < self.pending@.len(),
                dpath == self.pending@[top as int].path@,
                first_bad_name(es, 0) == first_bad_name(es, j as int),
                listing_fits(self.pending@[top as int].view_pair(), es),
                self.wf(),
                self.pending@ == old(self).pending@,
                self.candidates@ == old(self).candidates@,
                self.root@ == old(self).root@,
                dpath == old(self).pending_view().last().0,
                directory_verdict(old(self).root_view(), dpath, report) == listing_verdict(
                    dpath,
                    es,
                    report.failure,
                ),
            decreases entries.len() - j,
        {
            if !entry_name_ok(entries[j].name.as_slice()) {
                assert(first_bad_name(es, j as int) == j);
                assert(listing_verdict(dpath, es, report.failure) == Some(
                    (
                        FolderErrorKind::UnusableEntryName,
                        push_name(dpath, es[j as int].name@),
                        no_detail(),
                    ),
                ));
                return Err(
                    FolderError::new(
                        FolderErrorKind::UnusableEntryName,
                        push_name_exec(self.pending[top].path.as_slice(), entries[j].name.as_slice()),
                        String::new(),
                    ),
                );
            }
            j = j + 1;
        }
        match &report.failure {
            None => {},
            Some(EntryFailure::Read(f)) => {
                return Err(
                    FolderError::new(
                        FolderErrorKind::CannotReadEntry,
                        copy_bytes(self.pending[top].path.as_slice()),
                        f.detail.clone(),
                    ),
                );
            },
            Some(EntryFailure::Inspect(n, f)) => {
                return Err(
                    FolderError::new(
                        FolderErrorKind::CannotInspectEntry,
                        push_name_exec(self.pending[top].path.as_slice(), n.as_slice()),
                        f.detail.clone(),
                    ),
                );
            },
        }
        let ghost old_pending = self.pending@;
        let dir = match self.pending.pop() {
            Some(d) => d,
            None => {
                return Ok(());
            },
        };
        let ghost d_rel = dir.relative@;
        proof {
            assert(dir == old_pending[top as int]);
            assert(pending_rels(self.pending@) =~= pending_rels(old_pending).drop_last());
            assert(pending_views(self.pending@) =~= pending_views(old_pending).drop_last());
            assert(pending_rels(old_pending)[top as int] == d_rel);
            assert(pending_fits(root, dir.view_pair()));
            assert forall|k: int| 0 <= k < es.len() implies is_entry_name(
                #[trigger] es[k].name@,
            ) by {
                lemma_no_bad_name(es, 0, k);
            }
        }
        let ghost found0 = candidate_views(self.candidates@);
        let ghost pending0 = pending_views(self.pending@);
        proof {
            assert forall|a: int, k: int|
                0 <= a < self.candidates@.len() && 0 <= k < es.len() implies !nested(
                #[trigger] relative_paths(self.candidates@)[a],
                #[trigger] push_name(d_rel, es[k].name@),
            ) by {
                assert(!nested(relative_paths(self.candidates@)[a], pending_rels(old_pending)[top as int]));
                lemma_fresh_child(relative_paths(self.candidates@)[a], d_rel, es[k].name@);
            }
            assert forall|a: int, k: int|
                0 <= a < self.pending@.len() && 0 <= k < es.len() implies !nested(
                #[trigger] pending_rels(self.pending@)[a],
                #[trigger] push_name(d_rel, es[k].name@),
            ) by {
                assert(pending_rels(self.pending@)[a] == pending_rels(old_pending)[a]);
                assert(!nested(pending_rels(old_pending)[a], pending_rels(old_pending)[top as int]));
                lemma_fresh_child(pending_rels(self.pending@)[a], d_rel, es[k].name@);
            }
        }
        let mut i: usize = 0;
        assert(es.subrange(0, 0) =~= Seq::<ListedEntry>::empty());
        assert(found0 + Seq::<CandidateView>::empty() =~= found0);
        assert(pending0 + Seq::<(Seq<u8>, Seq<u8>)>::empty() =~= pending0);
        while i < entries.len()
            invariant
                i <= entries.len(),
                es == entries@,
                listing_fits(dir.view_pair(), es),
                entries_fit_root(root, dir.relative@, es),
                names_distinct(es),
                forall|k: int| 0 <= k < es.len() ==> is_entry_name(#[trigger] es[k].name@),
                pending_fits(root, dir.view_pair()),
                d_rel == dir.relative@,
                self.wf(),
                self.root@ == root,
                candidate_views(self.candidates@) == found0 + listing_candidates(
                    dir.path@,
                    dir.relative@,
                    es.subrange(0, i as int),
                ),
                pending_views(self.pending@) == pending0 + listing_subdirectories(
                    dir.path@,
                    dir.relative@,
                    es.subrange(0, i as int),
                ),
                forall|a: int, k: int|
                    0 <= a < self.candidates@.len() && i <= k < es.len() ==> !nested(
                        #[trigger] relative_paths(self.candidates@)[a],
                        #[trigger] push_name(d_rel, es[k].name@),
                    ),
                forall|a: int, k: int|
                    0 <= a < self.pending@.len() && i <= k < es.len() ==> !nested(
                        #[trigger] pending_rels(self.pending@)[a],
                        #[trigger] push_name(d_rel, es[k].name@),
                    ),
            decreases entries.len() - i,
        {
            let e = &entries[i];
            let ghost prefix = es.subrange(0, i + 1);
            let ghost n = es[i as int].name@;
            let ghost x = push_name(d_rel, n);
            assert(prefix.drop_last() =~= es.subrange(0, i as int));
            assert(prefix.last() == es[i as int]);
            assert(dir.path@.len() + n.len() + 1 <= isize::MAX);
            proof {
                lemma_plain_push(d_rel, n);
                lemma_rel_parts_push(d_rel, n);
                lemma_under_root_push(root, d_rel, n);
                lemma_split_parts_len(x);
                assert forall|k: int| i < k < es.len() implies !nested(
                    x,
                    #[trigger] push_name(d_rel, es[k].name@),
                ) by {
                    assert(es[i as int].name@ != es[k].name@);
                    lemma_siblings_apart(d_rel, n, es[k].name@);
                }
            }
            let outcome = classify_entry(e.name.as_slice(), e.entry_type);
            match outcome {
                EntryOutcome::Candidate(kind, ctype) => {
                    let ghost before = self.candidates@;
                    let c = FolderCandidate {
                        path: push_name_exec(dir.path.as_slice(), e.name.as_slice()),
                        relative_path: push_name_exec(dir.relative.as_slice(), e.name.as_slice()),
                        metadata_kind: kind,
                        candidate_type: ctype,
                    };
                    proof {
                        assert(rel_parts(x) == split_parts(x));
                        assert forall|q: int| 0 <= q < split_parts(x).len() - 1 implies component_kind(
                            #[trigger] split_parts(x)[q],
                        ) != Some(MetadataKind::MacosxDirectory) by {
                            assert(split_parts(x)[q] == rel_parts(d_rel)[q]);
                        }
                        assert(c.fits_root(root));
                        lemma_separated_push(relative_paths(before), x);
                        lemma_apart_push_left(relative_paths(before), pending_rels(self.pending@), x);
                    }
                    self.candidates.push(c);
                    proof {
                        assert(relative_paths(self.candidates@) =~= relative_paths(before).push(x));
                        assert forall|k: int|
                            0 <= k < self.candidates@.len() implies (
                        #[trigger] self.candidates@[k]).fits_root(root) by {
                            if k < before.len() {
                                assert(self.candidates@[k] == before[k]);
                            }
                        }
                        assert(candidate_views(self.candidates@) =~= candidate_views(before).push(
                            c.view_tuple(),
                        ));
                        assert(candidate_views(self.candidates@) =~= found0 + listing_candidates(
                            dir.path@,
                            dir.relative@,
                            prefix,
                        ));
                        assert(pending_views(self.pending@) =~= pending0 + listing_subdirectories(
                            dir.path@,
                            dir.relative@,
                            prefix,
                        ));
                        assert forall|a: int, k: int|
                            0 <= a < self.candidates@.len() && i + 1 <= k < es.len() implies !nested(
                            #[trigger] relative_paths(self.candidates@)[a],
                            #[trigger] push_name(d_rel, es[k].name@),
                        ) by {
                            if a < before.len() {
                                assert(relative_paths(self.candidates@)[a] == relative_paths(before)[a]);
                            }
                        }
                    }
                },
                EntryOutcome::Descend => {
                    let ghost before = self.pending@;
                    let d = PendingDirectory {
                        path: push_name_exec(dir.path.as_slice(), e.name.as_slice()),
                        relative: push_name_exec(dir.relative.as_slice(), e.name.as_slice()),
                    };
                    proof {
                        assert forall|q: int| 0 <= q < rel_parts(x).len() implies component_kind(
                            #[trigger] rel_parts(x)[q],
                        ) != Some(MetadataKind::MacosxDirectory) by {
                            if q < rel_parts(d_rel).len() {
                                assert(rel_parts(x)[q] == rel_parts(d_rel)[q]);
                            }
                        }
                        assert(pending_fits(root, d.view_pair()));
                        lemma_separated_push(pending_rels(before), x);
                        lemma_apart_push_right(relative_paths(self.candidates@), pending_rels(before), x);
                    }
                    self.pending.push(d);
                    proof {
                        assert(pending_rels(self.pending@) =~= pending_rels(before).push(x));
                        assert forall|k: int| 0 <= k < self.pending@.len() implies pending_fits(
                            root,
                            (#[trigger] self.pending@[k]).view_pair(),
                        ) by {
                            if k < before.len() {
                                assert(self.pending@[k] == before[k]);
                            }
                        }
                        assert(pending_views(self.pending@) =~= pending_views(before).push(
                            d.view_pair(),
                        ));
                        assert(pending_views(self.pending@) =~= pending0 + listing_subdirectories(
                            dir.path@,
                            dir.relative@,
                            prefix,
                        ));
                        assert(candidate_views(self.candidates@) =~= found0 + listing_candidates(
                            dir.path@,
                            dir.relative@,
                            prefix,
                        ));
                        assert forall|a: int, k: int|
                            0 <= a < self.pending@.len() && i + 1 <= k < es.len() implies !nested(
                            #[trigger] pending_rels(self.pending@)[a],
                            #[trigger] push_name(d_rel, es[k].name@),
                        ) by {
                            if a < before.len() {
                                assert(pending_rels(self.pending@)[a] == pending_rels(before)[a]);
                            }
                        }
                    }
                },
                EntryOutcome::Skip => {
                    assert(candidate_views(self.candidates@) =~= found0 + listing_candidates(
                        dir.path@,
                        dir.relative@,
                        prefix,
                    ));
                    assert(pending_views(self.pending@) =~= pending0 + listing_subdirectories(
                        dir.path@,
                        dir.relative@,
                        prefix,
                    ));
                },
            }
            i = i + 1;
        }
        assert(es.subrange(0, entries.len() as int) =~= es);
        Ok(())
    }

    /// The completed scan: the candidates found, sorted by relative path.
    pub fn finish(self) -> (scan: FolderScan)
        requires
            self.pending_view().len() == 0,
            self.wf(),
        ensures
            scan.wf(),
            scan.root_view() == self.root_view(),
            candidate_views(scan.candidate_list()).to_multiset() == self.found_view().to_multiset(),
    {
        let ghost found = self.candidates@;
        let ghost root = self.root@;
        let candidates = sort_by_path_key(self.candidates);
        let scan = FolderScan { root: self.root, candidates };
        let ghost sorted = scan.candidates@;
        proof {
            assert forall|i: int, j: int|
                0 <= i < found.len() && 0 <= j < found.len() && i != j implies found[i].path_key()
                != found[j].path_key() by {
                assert(!nested(relative_paths(found)[i], relative_paths(found)[j]));
                if found[i].path_key() == found[j].path_key() {
                    assert(rel_parts(found[i].path_key()).subrange(
                        0,
                        rel_parts(found[i].path_key()).len() as int,
                    ) =~= rel_parts(found[i].path_key()));
                }
            }
            lemma_sorted_distinct_is_strict(found, sorted);
            lemma_rearranged_map(sorted, found, |c: FolderCandidate| c.view_tuple());
        }
        assert forall|i: int| 0 <= i < sorted.len() implies (#[trigger] sorted[i]).fits_root(root) by {
            let c = sorted[i];
            vstd::seq_lib::to_multiset_contains(sorted, c);
            vstd::seq_lib::to_multiset_contains(found, c);
            let k = choose|k: int| 0 <= k < found.len() && found[k] == c;
            assert(found[k].fits_root(root));
        }
        assert forall|i: int, j: int|
            0 <= i < sorted.len() && 0 <= j < sorted.len() && i != j implies !nested(
            (#[trigger] sorted[i]).view_tuple().1,
            (#[trigger] sorted[j]).view_tuple().1,
        ) by {
            vstd::seq_lib::to_multiset_contains(sorted, sorted[i]);
            vstd::seq_lib::to_multiset_contains(found, sorted[i]);
            vstd::seq_lib::to_multiset_contains(sorted, sorted[j]);
            vstd::seq_lib::to_multiset_contains(found, sorted[j]);
            assert(sorted.contains(sorted[i]));
            assert(sorted.contains(sorted[j]));
            let a = choose|k: int| 0 <= k < found.len() && found[k] == sorted[i];
            let b = choose|k: int| 0 <= k < found.len() && found[k] == sorted[j];
            assert(sorted[i].path_key() != sorted[j].path_key());
            assert(a != b);
            assert(!nested(relative_paths(found)[a], relative_paths(found)[b]));
        }
        scan
    }
}


/// The directory a chain of joins ends at: the last one, or `base`.
pub open spec fn chain_end(base: Seq<u8>, chain: Seq<Seq<u8>>) -> Seq<u8> {
    if chain.len() == 0 {
        base
    } else {
        chain.last()
    }
}

/// `base` joined with `dirs[0]`, then with `dirs[1]`, ...: every
/// intermediate path.
pub open spec fn chain_from(base: Seq<u8>, dirs: Seq<Seq<u8>>) -> Seq<Seq<u8>>
    decreases dirs.len(),
{
    if dirs.len() == 0 {
        Seq::<Seq<u8>>::empty()
    } else {
        let init = chain_from(base, dirs.drop_last());
        init.push(push_name(chain_end(base, init), dirs.last()))
    }
}

/// The directories between the root and a candidate, outermost first: the
/// root joined with each component of the relative path's parent in turn.
pub open spec fn parent_chain(root: Seq<u8>, rel: Seq<u8>) -> Seq<Seq<u8>> {
    chain_from(root, split_parts(rel).drop_last())
}

/// The candidate's parent directory: the end of [`parent_chain`].
pub open spec fn resolved_parent(root: Seq<u8>, rel: Seq<u8>) -> Seq<u8> {
    chain_end(root, parent_chain(root, rel))
}

/// The first directory of `chain`, from `from` on, that could not be
/// inspected or is no longer a real directory.
pub open spec fn parents_verdict(
    chain: Seq<Seq<u8>>,
    types: Seq<Result<EntryType, IoFailure>>,
    from: int,
) -> Option<(FolderErrorKind, Seq<u8>, Seq<char>)>
    decreases chain.len() - from,
{
    if from < 0 || from >= chain.len() {
        None
    } else {
        match types[from] {
            Err(f) => Some((FolderErrorKind::CannotRevalidateParent, chain[from], f.detail@)),
            Ok(t) => if t != EntryType::Directory {
                Some((FolderErrorKind::ParentChanged, chain[from], no_detail()))
            } else {
                parents_verdict(chain, types, from + 1)
            },
        }
    }
}

/// What was observed of one candidate before removing it: the type of each
/// directory of its parent chain (`symlink_metadata`), what its parent
/// resolves to, and its own type (`symlink_metadata`).
#[derive(Debug)]
pub struct CandidateObservation {
    /// The type of each directory of the parent chain, in order.
    pub parent_types: Vec<Result<EntryType, IoFailure>>,
    /// What the parent directory resolves to.
    pub parent_canonical: Result<Vec<u8>, IoFailure>,
    /// The candidate's own type.
    pub own_type: Result<EntryType, IoFailure>,
}

/// The first problem with the root before removing anything: it must still
/// be a real directory that resolves to itself.
pub open spec fn root_verdict(
    root: Seq<u8>,
    root_type: Result<EntryType, IoFailure>,
    canonical: Result<Vec<u8>, IoFailure>,
) -> Option<(FolderErrorKind, Seq<u8>, Seq<char>)> {
    match root_type {
        Err(f) => Some((FolderErrorKind::CannotRevalidateRoot, root, f.detail@)),
        Ok(t) => if t != EntryType::Directory {
            Some((FolderErrorKind::RootChanged, root, no_detail()))
        } else {
            match canonical {
                Err(g) => Some((FolderErrorKind::CannotResolveRoot, root, g.detail@)),
                Ok(c) => if components(c@) != components(root) {
                    Some((FolderErrorKind::RootChanged, root, no_detail()))
                } else {
                    None
                },
            }
        },
    }
}

/// The first problem with a candidate before removing it: its path must
/// still be the root joined with its relative path, every directory of its
/// parent chain a real directory, the parent resolve inside the root, and
/// the candidate exist with the same type and a name of the same kind.
pub open spec fn candidate_verdict(root: Seq<u8>, c: CandidateView, obs: CandidateObservation) -> Option<
    (FolderErrorKind, Seq<u8>, Seq<char>),
> {
    let (path, rel, kind, ctype) = c;
    if !strips_to(path, root, rel) {
        Some((FolderErrorKind::CandidateEscaped, path, no_detail()))
    } else if parents_verdict(parent_chain(root, rel), obs.parent_types@, 0) is Some {
        parents_verdict(parent_chain(root, rel), obs.parent_types@, 0)
    } else {
        match obs.parent_canonical {
            Err(f) => Some(
                (FolderErrorKind::CannotResolveParent, resolved_parent(root, rel), f.detail@),
            ),
            Ok(p) => if !path_starts_with(p@, root) {
                Some((FolderErrorKind::ParentEscaped, resolved_parent(root, rel), no_detail()))
            } else {
                match obs.own_type {
                    Err(g) => Some((FolderErrorKind::CandidateChangedOrDisappeared, rel, g.detail@)),
                    Ok(t) => if candidate_type_of(t) != Some(ctype) {
                        Some((FolderErrorKind::CandidateChangedType, rel, no_detail()))
                    } else {
                        match file_name(path) {
                            None => Some(
                                (
                                    FolderErrorKind::CandidateHasNoFilename,
                                    Seq::<u8>::empty(),
                                    no_detail(),
                                ),
                            ),
                            Some(n) => if component_kind(n) != Some(kind) {
                                Some((FolderErrorKind::CandidateChangedName, rel, no_detail()))
                            } else {
                                None
                            },
                        }
                    },
                }
            },
        }
    }
}

/// Each join of the chain stays short: the `m`-th path is at most the base
/// and the first `m + 1` directories long.
proof fn lemma_chain_step(base: Seq<u8>, dirs: Seq<Seq<u8>>, m: int)
    requires
        0 <= m < dirs.len(),
    ensures
        chain_from(base, dirs.subrange(0, m + 1)) == chain_from(base, dirs.subrange(0, m)).push(
            push_name(chain_end(base, chain_from(base, dirs.subrange(0, m))), dirs[m]),
        ),
        parts_weight(dirs.subrange(0, m + 1)) == parts_weight(dirs.subrange(0, m)) + dirs[m].len()
            + 1,
{
    assert(dirs.subrange(0, m + 1).drop_last() =~= dirs.subrange(0, m));
    assert(dirs.subrange(0, m + 1).last() == dirs[m]);
}

/// The paths of [`parent_chain`].
pub(crate) fn parent_chain_exec(root: &[u8], rel: &[u8]) -> (chain: Vec<Vec<u8>>)
    requires
        root@.len() + rel@.len() + 2 <= isize::MAX,
    ensures
        byte_seqs(chain@) == parent_chain(root@, rel@),
{
    let parts = split_parts_exec(rel);
    let ghost ps = split_parts(rel@);
    let ghost dirs = ps.drop_last();
    proof {
        lemma_split_parts_len(rel@);
        lemma_split_weight(rel@);
    }
    let mut chain: Vec<Vec<u8>> = Vec::new();
    let mut base: Vec<u8> = copy_bytes(root);
    let mut i: usize = 0;
    assert(dirs.subrange(0, 0) =~= Seq::<Seq<u8>>::empty());
    while i + 1 < parts.len()
        invariant
            byte_seqs(parts@) == ps,
            ps == split_parts(rel@),
            ps.len() >= 1,
            dirs == ps.drop_last(),
            i + 1 <= parts.len(),
            parts_weight(ps) == rel@.len() + 1,
            root@.len() + rel@.len() + 2 <= isize::MAX,
            byte_seqs(chain@) == chain_from(root@, dirs.subrange(0, i as int)),
            base@ == chain_end(root@, chain_from(root@, dirs.subrange(0, i as int))),
            base@.len() <= root@.len() + parts_weight(dirs.subrange(0, i as int)),
        decreases parts.len() - i,
    {
        proof {
            lemma_chain_step(root@, dirs, i as int);
            assert(dirs.subrange(0, i + 1) =~= ps.subrange(0, i + 1));
            lemma_weight_prefix(ps, i + 1);
        }
        assert(parts@[i as int]@ == dirs[i as int]);
        let next = push_name_exec(base.as_slice(), parts[i].as_slice());
        let ghost old_chain = chain@;
        chain.push(copy_bytes(next.as_slice()));
        assert(byte_seqs(chain@) =~= byte_seqs(old_chain).push(next@));
        base = next;
        i = i + 1;
    }
    assert(dirs.subrange(0, i as int) =~= dirs);
    chain
}

/// Checks the root before anything is removed, as [`root_verdict`] says.
pub fn check_root(
    root: &[u8],
    root_type: Result<EntryType, IoFailure>,
    canonical: Result<Vec<u8>, IoFailure>,
) -> (r: Result<(), FolderError>)
    ensures
        match root_verdict(root@, root_type, canonical) {
            Some((k, p, d)) => r matches Err(e) && e.kind == k && e.path@ == p && e.detail@ == d,
            None => r is Ok,
        },
{
    match root_type {
        Err(f) => {
            return Err(
                FolderError::new(FolderErrorKind::CannotRevalidateRoot, copy_bytes(root), f.detail),
            );
        },
        Ok(t) => {
            if t != EntryType::Directory {
                return Err(
                    FolderError::new(FolderErrorKind::RootChanged, copy_bytes(root), String::new()),
                );
            }
        },
    }
    match canonical {
        Err(f) => Err(
            FolderError::new(FolderErrorKind::CannotResolveRoot, copy_bytes(root), f.detail),
        ),
        Ok(c) => if !path_eq(c.as_slice(), root) {
            Err(FolderError::new(FolderErrorKind::RootChanged, copy_bytes(root), String::new()))
        } else {
            Ok(())
        },
    }
}

/// Checks a candidate before it is removed, as [`candidate_verdict`] says.
pub fn check_candidate(root: &[u8], c: &FolderCandidate, obs: &CandidateObservation) -> (r: Result<
    (),
    FolderError,
>)
    requires
        c.fits_root(root@),
        obs.parent_types@.len() == parent_chain(root@, c.view_tuple().1).len(),
    ensures
        match candidate_verdict(root@, c.view_tuple(), *obs) {
            Some((k, p, d)) => r matches Err(e) && e.kind == k && e.path@ == p && e.detail@ == d,
            None => r is Ok,
        },
{
    let ghost rel = c.relative_path@;
    if !strips_to_exec(c.path.as_slice(), root, c.relative_path.as_slice()) {
        return Err(
            FolderError::new(
                FolderErrorKind::CandidateEscaped,
                copy_bytes(c.path.as_slice()),
                String::new(),
            ),
        );
    }
    let chain = parent_chain_exec(root, c.relative_path.as_slice());
    let ghost cs = parent_chain(root@, rel);
    assert(byte_seqs(chain@).len() == chain@.len());
    let mut i: usize = 0;
    while i < chain.len()
        invariant
            i <= chain.len(),
            byte_seqs(chain@) == cs,
            cs == parent_chain(root@, rel),
            rel == c.relative_path@,
            strips_to(c.path@, root@, rel),
            cs.len() == chain@.len(),
            obs.parent_types@.len() == cs.len(),
            parents_verdict(cs, obs.parent_types@, 0) == parents_verdict(
                cs,
                obs.parent_types@,
                i as int,
            ),
        decreases chain.len() - i,
    {
        assert(chain@[i as int]@ == cs[i as int]);
        match &obs.parent_types[i] {
            Err(f) => {
                return Err(
                    FolderError::new(
                        FolderErrorKind::CannotRevalidateParent,
                        copy_bytes(chain[i].as_slice()),
                        f.detail.clone(),
                    ),
                );
            },
            Ok(t) => {
                if *t != EntryType::Directory {
                    return Err(
                        FolderError::new(
                            FolderErrorKind::ParentChanged,
                            copy_bytes(chain[i].as_slice()),
                            String::new(),
                        ),
                    );
                }
            },
        }
        i = i + 1;
    }
    let parent = if chain.len() == 0 {
        copy_bytes(root)
    } else {
        copy_bytes(chain[chain.len() - 1].as_slice())
    };
    assert(parent@ == resolved_parent(root@, rel));
    match &obs.parent_canonical {
        Err(f) => {
            return Err(
                FolderError::new(FolderErrorKind::CannotResolveParent, parent, f.detail.clone()),
            );
        },
        Ok(p) => {
            if !starts_with_exec(p.as_slice(), root) {
                return Err(
                    FolderError::new(FolderErrorKind::ParentEscaped, parent, String::new()),
                );
            }
        },
    }
    match &obs.own_type {
        Err(f) => {
            return Err(
                FolderError::new(
                    FolderErrorKind::CandidateChangedOrDisappeared,
                    copy_bytes(c.relative_path.as_slice()),
                    f.detail.clone(),
                ),
            );
        },
        Ok(t) => {
            if classify_type(*t) != Some(c.candidate_type) {
                return Err(
                    FolderError::new(
                        FolderErrorKind::CandidateChangedType,
                        copy_bytes(c.relative_path.as_slice()),
                        String::new(),
                    ),
                );
            }
        },
    }
    match file_name_exec(c.path.as_slice()) {
        None => Err(
            FolderError::new(FolderErrorKind::CandidateHasNoFilename, Vec::new(), String::new()),
        ),
        Some(n) => if classify_filesystem_name(n.as_slice()) != Some(c.metadata_kind) {
            Err(
                FolderError::new(
                    FolderErrorKind::CandidateChangedName,
                    copy_bytes(c.relative_path.as_slice()),
                    String::new(),
                ),
            )
        } else {
            Ok(())
        },
    }
}


/// The relative paths of candidates, in order.
pub open spec fn relative_paths(cs: Seq<FolderCandidate>) -> Seq<Seq<u8>> {
    cs.map_values(|c: FolderCandidate| c.view_tuple().1)
}

pub(crate) fn copy_paths(v: &Vec<Vec<u8>>) -> (r: Vec<Vec<u8>>)
    ensures
        byte_seqs(r@) == byte_seqs(v@),
{
    let mut r: Vec<Vec<u8>> = Vec::new();
    let mut i: usize = 0;
    while i < v.len()
        invariant
            i <= v.len(),
            byte_seqs(r@) == byte_seqs(v@).subrange(0, i as int),
        decreases v.len() - i,
    {
        let ghost before = r@;
        r.push(copy_bytes(v[i].as_slice()));
        assert(byte_seqs(r@) =~= byte_seqs(before).push(v@[i as int]@));
        i = i + 1;
        assert(byte_seqs(r@) =~= byte_seqs(v@).subrange(0, i as int));
    }
    assert(byte_seqs(v@).subrange(0, v@.len() as int) =~= byte_seqs(v@));
    r
}

/// Where a cleanup stands.
#[derive(Debug, Clone, Copy, PartialEq, Eq, Structural)]
pub enum CleanupStep {
    /// Check candidate `i` before anything is removed.
    Verify(usize),
    /// Check candidate `i` again, right before removing it.
    Recheck(usize),
    /// Remove candidate `i`.
    Remove(usize),
    /// Every candidate was removed.
    Finished,
}

/// The candidate a step concerns.
pub open spec fn step_index(step: CleanupStep) -> int {
    match step {
        CleanupStep::Verify(i) => i as int,
        CleanupStep::Recheck(i) => i as int,
        CleanupStep::Remove(i) => i as int,
        CleanupStep::Finished => -1,
    }
}

/// The step after a passed check, with `n` candidates: the next check
/// before anything is removed, then, once every candidate passed, the
/// first candidate's recheck; after a recheck, its removal.
pub open spec fn step_after_check(step: CleanupStep, n: int) -> CleanupStep {
    match step {
        CleanupStep::Verify(i) => if i + 1 < n {
            CleanupStep::Verify((i + 1) as usize)
        } else {
            CleanupStep::Recheck(0)
        },
        CleanupStep::Recheck(i) => CleanupStep::Remove(i),
        _ => step,
    }
}

/// The step after a removal, with `n` candidates: the next candidate's
/// recheck, or the end.
pub open spec fn step_after_removal(step: CleanupStep, n: int) -> CleanupStep {
    match step {
        CleanupStep::Remove(i) => if i + 1 < n {
            CleanupStep::Recheck((i + 1) as usize)
        } else {
            CleanupStep::Finished
        },
        _ => step,
    }
}

/// What to inspect before removing a candidate: the directories of its
/// parent chain, the parent to resolve, and the candidate itself.
#[derive(Debug)]
pub struct CandidateProbe {
    /// The directories between the root and the candidate, outermost first.
    pub parents: Vec<Vec<u8>>,
    /// The parent directory to resolve.
    pub parent: Vec<u8>,
    /// The candidate's path.
    pub path: Vec<u8>,
}

/// An in-place removal of a scan's candidates: every candidate is checked
/// first, then each is checked again and removed, in scan order.
pub struct FolderCleanup {
    scan: FolderScan,
    step: CleanupStep,
    removed: Vec<Vec<u8>>,
    verified: Ghost<nat>,
}

impl FolderCleanup {
    /// The scan being applied.
    pub closed spec fn scan_view(&self) -> FolderScan {
        self.scan
    }

    /// The current step.
    pub closed spec fn stage(&self) -> CleanupStep {
        self.step
    }

    /// The relative paths removed so far, in order.
    pub closed spec fn removed_view(&self) -> Seq<Seq<u8>> {
        byte_seqs(self.removed@)
    }

    /// How many candidates passed the check made before any removal.
    pub closed spec fn preflight_passed(&self) -> nat {
        self.verified@
    }

    /// The number of candidates.
    pub open spec fn count(&self) -> int {
        self.scan_view().candidate_list().len() as int
    }

    /// The candidate the current step concerns.
    pub open spec fn current_view(&self) -> FolderCandidate {
        self.scan_view().candidate_list()[step_index(self.stage())]
    }

    /// The state agrees with the scan: nothing is removed while checking,
    /// the removed paths are the first candidates' in order, and removal
    /// starts only after every candidate passed its first check.
    pub closed spec fn wf(&self) -> bool {
        let n = self.scan.candidates@.len();
        let rels = relative_paths(self.scan.candidates@);
        &&& self.scan.wf()
        &&& match self.step {
            CleanupStep::Verify(i) => i < n && self.removed@.len() == 0 && self.verified@ == i,
            CleanupStep::Recheck(i) => i < n && byte_seqs(self.removed@) == rels.subrange(
                0,
                i as int,
            ) && self.verified@ == n,
            CleanupStep::Remove(i) => i < n && byte_seqs(self.removed@) == rels.subrange(
                0,
                i as int,
            ) && self.verified@ == n,
            CleanupStep::Finished => byte_seqs(self.removed@) == rels && self.verified@ == n,
        }
    }

    /// Starts applying `scan` once its root checks out, as [`root_verdict`]
    /// says; `root_type` is `symlink_metadata(root)`, `canonical` its
    /// `canonicalize`.
    pub fn begin(
        scan: FolderScan,
        root_type: Result<EntryType, IoFailure>,
        canonical: Result<Vec<u8>, IoFailure>,
    ) -> (r: Result<FolderCleanup, ApplyError>)
        requires
            scan.wf(),
        ensures
            match root_verdict(scan.root_view(), root_type, canonical) {
                Some((k, p, d)) => r matches Err(e) && e.error_view().kind == k
                    && e.error_view().path@ == p && e.error_view().detail@ == d
                    && e.removed_view().len() == 0,
                None => r matches Ok(c) && c.wf() && c.scan_view() == scan
                    && c.removed_view().len() == 0 && c.stage() == (if scan.candidate_list().len()
                    > 0 {
                    CleanupStep::Verify(0)
                } else {
                    CleanupStep::Finished
                }),
            },
    {
        match check_root(scan.root.as_slice(), root_type, canonical) {
            Err(error) => {
                let e = ApplyError { error, removed: Vec::new() };
                assert(e.removed_view() =~= Seq::<Seq<u8>>::empty());
                Err(e)
            },
            Ok(()) => {
                let step = if scan.candidates.len() > 0 {
                    CleanupStep::Verify(0)
                } else {
                    CleanupStep::Finished
                };
                let c = FolderCleanup { scan, step, removed: Vec::new(), verified: Ghost(0nat) };
                assert(byte_seqs(c.removed@) =~= Seq::<Seq<u8>>::empty());
                assert(relative_paths(c.scan.candidates@).len() == 0 ==> relative_paths(
                    c.scan.candidates@,
                ) =~= Seq::<Seq<u8>>::empty());
                Ok(c)
            },
        }
    }

    /// The current step.
    pub fn step(&self) -> (s: CleanupStep)
        ensures
            s == self.stage(),
    {
        self.step
    }

    fn index(&self) -> (i: usize)
        requires
            self.wf(),
            !(self.stage() is Finished),
        ensures
            i == step_index(self.stage()),
            i < self.scan_view().candidate_list().len(),
    {
        match self.step {
            CleanupStep::Verify(i) => i,
            CleanupStep::Recheck(i) => i,
            CleanupStep::Remove(i) => i,
            CleanupStep::Finished => 0,
        }
    }

    /// The candidate the current step concerns.
    pub fn current(&self) -> (c: &FolderCandidate)
        requires
            self.wf(),
            !(self.stage() is Finished),
        ensures
            *c == self.current_view(),
    {
        let i = self.index();
        &self.scan.candidates[i]
    }

    /// What to inspect for the current check: the parent chain, the parent
    /// to resolve, and the candidate's path.
    pub fn probe(&self) -> (p: CandidateProbe)
        requires
            self.wf(),
            !(self.stage() is Finished),
        ensures
            byte_seqs(p.parents@) == parent_chain(
                self.scan_view().root_view(),
                self.current_view().view_tuple().1,
            ),
            p.parent@ == resolved_parent(
                self.scan_view().root_view(),
                self.current_view().view_tuple().1,
            ),
            p.path@ == self.current_view().view_tuple().0,
    {
        let i = self.index();
        let c = &self.scan.candidates[i];
        assert(c.fits_root(self.scan.root@));
        let parents = parent_chain_exec(self.scan.root.as_slice(), c.relative_path.as_slice());
        assert(byte_seqs(parents@).len() == parents@.len());
        let parent = if parents.len() == 0 {
            copy_bytes(self.scan.root.as_slice())
        } else {
            copy_bytes(parents[parents.len() - 1].as_slice())
        };
        CandidateProbe { parents, parent, path: copy_bytes(c.path.as_slice()) }
    }

    /// Records what was observed of the current candidate: a verdict as
    /// [`candidate_verdict`] says ends the cleanup with the paths removed so
    /// far; otherwise the cleanup moves on as [`step_after_check`] says.
    pub fn record_check(&mut self, obs: &CandidateObservation) -> (r: Result<(), ApplyError>)
        requires
            old(self).wf(),
            old(self).stage() is Verify || old(self).stage() is Recheck,
            obs.parent_types@.len() == parent_chain(
                old(self).scan_view().root_view(),
                old(self).current_view().view_tuple().1,
            ).len(),
        ensures
            final(self).wf(),
            final(self).scan_view() == old(self).scan_view(),
            final(self).removed_view() == old(self).removed_view(),
            match candidate_verdict(
                old(self).scan_view().root_view(),
                old(self).current_view().view_tuple(),
                *obs,
            ) {
                Some((k, p, d)) => r matches Err(e) && e.error_view().kind == k
                    && e.error_view().path@ == p && e.error_view().detail@ == d
                    && e.removed_view() == old(self).removed_view()
                    && final(self).stage() == old(self).stage(),
                None => r is Ok && final(self).stage() == step_after_check(
                    old(self).stage(),
                    old(self).count(),
                ),
            },
    {
        let i = self.index();
        assert(self.scan.candidates@[i as int].fits_root(self.scan.root@));
        match check_candidate(self.scan.root.as_slice(), &self.scan.candidates[i], obs) {
            Err(error) => Err(ApplyError { error, removed: copy_paths(&self.removed) }),
            Ok(()) => {
                let n = self.scan.candidates.len();
                match self.step {
                    CleanupStep::Verify(i) => {
                        if i + 1 < n {
                            self.step = CleanupStep::Verify(i + 1);
                            self.verified = Ghost((i + 1) as nat);
                        } else {
                            self.step = CleanupStep::Recheck(0);
                            self.verified = Ghost(n as nat);
                            assert(relative_paths(self.scan.candidates@).subrange(0, 0)
                                =~= Seq::<Seq<u8>>::empty());
                            assert(byte_seqs(self.removed@) =~= Seq::<Seq<u8>>::empty());
                        }
                    },
                    CleanupStep::Recheck(i) => {
                        self.step = CleanupStep::Remove(i);
                    },
                    _ => {},
                }
                Ok(())
            },
        }
    }

    /// Records the outcome of removing the current candidate: a failure ends
    /// the cleanup with the paths removed before it; otherwise its relative
    /// path is added and the cleanup moves on as [`step_after_removal`] says.
    pub fn record_removal(&mut self, outcome: Result<(), IoFailure>) -> (r: Result<(), ApplyError>)
        requires
            old(self).wf(),
            old(self).stage() is Remove,
        ensures
            final(self).wf(),
            final(self).scan_view() == old(self).scan_view(),
            match outcome {
                Err(_) => r matches Err(e) && e.error_view().kind == FolderErrorKind::RemoveFailed
                    && e.error_view().path@ == old(self).current_view().view_tuple().1
                    && e.error_view().detail@ == outcome->Err_0.detail@
                    && e.removed_view() == old(self).removed_view() && final(self).stage() == old(
                    self,
                ).stage() && final(self).removed_view() == old(self).removed_view(),
                Ok(_) => r is Ok && final(self).removed_view() == old(self).removed_view().push(
                    old(self).current_view().view_tuple().1,
                ) && final(self).stage() == step_after_removal(old(self).stage(), old(self).count()),
            },
    {
        let i = self.index();
        let n = self.scan.candidates.len();
        let ghost rels = relative_paths(self.scan.candidates@);
        match outcome {
            Err(f) => {
                let error = FolderError::new(
                    FolderErrorKind::RemoveFailed,
                    copy_bytes(self.scan.candidates[i].relative_path.as_slice()),
                    f.detail,
                );
                Err(ApplyError { error, removed: copy_paths(&self.removed) })
            },
            Ok(()) => {
                let ghost before = self.removed@;
                let rel = copy_bytes(self.scan.candidates[i].relative_path.as_slice());
                self.removed.push(rel);
                assert(byte_seqs(self.removed@) =~= byte_seqs(before).push(rels[i as int]));
                assert(rels.subrange(0, i + 1) =~= rels.subrange(0, i as int).push(rels[i as int]));
                if i + 1 < n {
                    self.step = CleanupStep::Recheck(i + 1);
                } else {
                    self.step = CleanupStep::Finished;
                    assert(rels.subrange(0, i + 1) =~= rels);
                }
                Ok(())
            },
        }
    }

    /// The completed cleanup: every candidate's relative path, in scan
    /// order.
    pub fn finish(self) -> (report: ApplyReport)
        requires
            self.wf(),
            self.stage() is Finished,
        ensures
            byte_seqs(report.removed@) == relative_paths(self.scan_view().candidate_list()),
    {
        ApplyReport { removed: self.removed }
    }
}

/// Nothing is removed before every candidate passed the check made before
/// any removal, and what was removed is always the first candidates'
/// relative paths, in scan order.
pub proof fn law_removal_follows_full_preflight(c: &FolderCleanup)
    requires
        c.wf(),
    ensures
        c.stage() is Verify ==> c.removed_view().len() == 0,
        !(c.stage() is Verify) ==> c.preflight_passed() == c.count(),
        c.removed_view().len() <= c.count(),
        c.removed_view() == relative_paths(c.scan_view().candidate_list()).subrange(
            0,
            c.removed_view().len() as int,
        ),
{
    let rels = relative_paths(c.scan.candidates@);
    if c.step is Finished {
        assert(rels.subrange(0, rels.len() as int) =~= rels);
    }
    if c.step is Verify {
        assert(rels.subrange(0, 0) =~= Seq::<Seq<u8>>::empty());
        assert(byte_seqs(c.removed@) =~= Seq::<Seq<u8>>::empty());
    }
}


/// The listing of a scan depends only on what it found, not on the order in
/// which the tree was walked: two scans that found the same candidates list
/// them identically, sorted by relative path with no repeats.
pub proof fn law_scan_listing_is_determined(a: FolderScan, b: FolderScan)
    requires
        a.wf(),
        b.wf(),
        candidate_views(a.candidate_list()).to_multiset() == candidate_views(
            b.candidate_list(),
        ).to_multiset(),
    ensures
        candidate_views(a.candidate_list()) == candidate_views(b.candidate_list()),
{
    let va = candidate_views(a.candidate_list());
    let vb = candidate_views(b.candidate_list());
    let key = |v: CandidateView| v.1;
    assert forall|i: int, j: int| 0 <= i < j < va.len() implies path_less(key(va[i]), key(va[j])) by {
        assert(a.candidate_list()[i].path_key() == va[i].1);
        assert(a.candidate_list()[j].path_key() == va[j].1);
    }
    assert forall|i: int, j: int| 0 <= i < j < vb.len() implies path_less(key(vb[i]), key(vb[j])) by {
        assert(b.candidate_list()[i].path_key() == vb[i].1);
        assert(b.candidate_list()[j].path_key() == vb[j].1);
    }
    lemma_strictly_sorted_unique(va, vb, key);
}

/// A cleanup of a scan that found nothing is finished from the start and
/// removes nothing.
pub proof fn law_empty_plan_removes_nothing(c: &FolderCleanup)
    requires
        c.wf(),
        c.scan_view().candidate_list().len() == 0,
    ensures
        c.stage() is Finished,
        c.removed_view().len() == 0,
{
}

/// Names joined by single separators end with the last name's last byte.
proof fn lemma_join_ends_with_last_name(p: Seq<Seq<u8>>)
    requires
        p.len() > 0,
        p.last().len() > 0,
    ensures
        join_parts(p).len() > 0,
        join_parts(p).last() == p.last().last(),
{
    let init = join_parts(p.drop_last());
    if init.len() > 0 {
        let j = init + seq![SEP] + p.last();
        assert(j[j.len() - 1] == p.last()[p.last().len() - 1]);
    }
}

/// Walking down names from `root` passes through `root` joined with each
/// leading run of them.
proof fn lemma_chain_joined(root: Seq<u8>, dirs: Seq<Seq<u8>>)
    requires
        forall|k: int| 0 <= k < dirs.len() ==> is_entry_name(#[trigger] dirs[k]),
    ensures
        chain_from(root, dirs).len() == dirs.len(),
        forall|i: int|
            0 <= i < dirs.len() ==> #[trigger] chain_from(root, dirs)[i] == push_name(
                root,
                join_parts(dirs.subrange(0, i + 1)),
            ),
    decreases dirs.len(),
{
    if dirs.len() > 0 {
        let init = dirs.drop_last();
        let d = dirs.last();
        lemma_chain_joined(root, init);
        let c = chain_from(root, init);
        assert forall|i: int| 0 <= i < dirs.len() implies #[trigger] chain_from(root, dirs)[i]
            == push_name(root, join_parts(dirs.subrange(0, i + 1))) by {
            if i < init.len() {
                assert(dirs.subrange(0, i + 1) =~= init.subrange(0, i + 1));
                assert(chain_from(root, dirs)[i] == c[i]);
            } else {
                assert(dirs.subrange(0, i + 1) =~= dirs);
                assert(dirs.drop_last() == init);
                if init.len() == 0 {
                    assert(join_parts(init) =~= Seq::<u8>::empty());
                } else {
                    let j = join_parts(init);
                    assert(is_entry_name(init.last()));
                    lemma_join_ends_with_last_name(init);
                    assert(init.last().last() != SEP) by {
                        assert(init.last()[init.last().len() - 1] == init.last().last());
                    }
                    assert(init.subrange(0, init.len() as int) =~= init);
                    assert(c.last() == push_name(root, j));
                    let u = push_name(root, j);
                    assert(u.last() == j.last());
                    assert(push_name(u, d) =~= push_name(root, j + seq![SEP] + d));
                }
            }
        }
    }
}

/// The directories checked above a candidate are the root joined with each
/// leading run of the names of its relative path, outermost first, one for
/// every name but the last; the parent resolved is the last of them, or the
/// root itself for a candidate directly inside it.
pub proof fn law_parent_chain_walks_down_the_relative_path(root: Seq<u8>, rel: Seq<u8>)
    requires
        is_plain_relative(rel),
    ensures
        parent_chain(root, rel).len() + 1 == split_parts(rel).len(),
        forall|i: int|
            0 <= i < parent_chain(root, rel).len() ==> #[trigger] parent_chain(root, rel)[i]
                == push_name(root, join_parts(split_parts(rel).subrange(0, i + 1))),
        split_parts(rel).len() == 1 ==> resolved_parent(root, rel) == root,
        split_parts(rel).len() > 1 ==> resolved_parent(root, rel) == push_name(
            root,
            join_parts(split_parts(rel).drop_last()),
        ),
{
    let ps = split_parts(rel);
    lemma_split_parts_len(rel);
    let dirs = ps.drop_last();
    lemma_chain_joined(root, dirs);
    assert forall|i: int| 0 <= i < dirs.len() implies #[trigger] parent_chain(root, rel)[i]
        == push_name(root, join_parts(ps.subrange(0, i + 1))) by {
        assert(dirs.subrange(0, i + 1) =~= ps.subrange(0, i + 1));
    }
    if ps.len() > 1 {
        assert(dirs.subrange(0, dirs.len() as int) =~= dirs);
    }
}

} // verus!

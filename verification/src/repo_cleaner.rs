//! Git-aware working-tree scanning and removal: what Git's answers mean,
//! which working-tree entries are metadata, how each is classified against
//! Git's view, and when a planned removal may proceed.
//!
//! The program around the library runs Git and reads the filesystem; the
//! types here decide from what it observed.

use vstd::prelude::*;
use vstd::string::StringExecFns;

use crate::bytepath::{
    byte_seqs, components, components_exec, dot_dot, file_name, file_name_exec, has_root,
    lemma_body_weight, lemma_split_parts_len, parent_len, parent_len_exec, parts_weight, path_body, path_body_exec,
    path_eq, path_start, path_starts_with, push_name, push_name_exec, split_on, split_on_exec,
    split_parts, split_parts_exec, starts_with_exec, strips_to, strips_to_exec, DOT, SEP,
};
use crate::folder_cleaner::{
    apart, child_named, lemma_apart_push_left, lemma_apart_push_right, lemma_child_apart,
    lemma_fresh_child, lemma_rel_parts_push, lemma_separated_push, lemma_under_root_push,
    listed_candidate, nested, pending_fits, rel_parts, separated,
    candidate_type_of, classify_type, copy_paths, entry_name_ok, is_entry_name, is_plain_relative,
    lemma_plain_push, parent_chain, parent_chain_exec, resolved_parent, step_after_check,
    step_after_removal, step_index, CandidateType, CleanupStep,
};
use crate::metadata::{classify_component, classify_filesystem_name, component_kind, MetadataKind};
use crate::observation::{no_detail, EntryType, IoFailure, IoKind};
use crate::order::{
    lemma_rearranged_map, lemma_sorted_distinct_is_strict, lemma_strictly_sorted_unique, path_less,
    sort_by_path_key,
    strictly_sorted_by_key, PathKeyed,
};
use crate::text::{display_bytes, lossy_utf8};

verus! {

/// The byte `\n`.
pub const LF: u8 = 0x0a;

/// The byte `\r`.
pub const CR: u8 = 0x0d;

/// The name of Git's own directory (or file, in linked worktrees):
/// `.git`.
pub open spec fn git_entry() -> Seq<u8> {
    seq![0x2eu8, 0x67u8, 0x69u8, 0x74u8]
}

/// Whether `n` is `.git`.
pub fn is_git_entry(n: &[u8]) -> (r: bool)
    ensures
        r == (n@ == git_entry()),
{
    let r = n.len() == 4 && n[0] == 0x2eu8 && n[1] == 0x67u8 && n[2] == 0x69u8 && n[3] == 0x74u8;
    proof {
        if r {
            assert(n@ =~= git_entry());
        }
    }
    r
}

/// How Git sees a candidate.
#[derive(Debug, Clone, Copy, PartialEq, Eq, Structural)]
pub enum RepoGitStatus {
    /// Under version control and unchanged.
    TrackedUnchanged,
    /// Under version control, with changes in the working tree or the index.
    TrackedModified,
    /// Not in_index and not ignored.
    Untracked,
    /// Ignored.
    Ignored,
    /// A directory holding paths of more than one of the versioned,
    /// untracked and ignored kinds.
    Mixed,
}

/// The words shown for a status.
pub open spec fn status_label(s: RepoGitStatus) -> Seq<char> {
    match s {
        RepoGitStatus::TrackedUnchanged => "tracked"@,
        RepoGitStatus::TrackedModified => "tracked, modified"@,
        RepoGitStatus::Untracked => "untracked"@,
        RepoGitStatus::Ignored => "ignored"@,
        RepoGitStatus::Mixed => "mixed"@,
    }
}

impl RepoGitStatus {
    /// The words shown for this status.
    pub fn label(self) -> (l: &'static str)
        ensures
            l@ == status_label(self),
    {
        match self {
            RepoGitStatus::TrackedUnchanged => "tracked",
            RepoGitStatus::TrackedModified => "tracked, modified",
            RepoGitStatus::Untracked => "untracked",
            RepoGitStatus::Ignored => "ignored",
            RepoGitStatus::Mixed => "mixed",
        }
    }
}

/// Why a repository scan or removal stopped.
#[derive(Debug, Clone, Copy, PartialEq, Eq, Structural)]
pub enum RepoErrorKind {
    /// The target does not exist.
    TargetNotFound,
    /// The target could not be inspected.
    CannotInspectTarget,
    /// The target is a symbolic link.
    SymlinkTarget,
    /// The target is not a directory.
    NotADirectory,
    /// The target could not be resolved.
    CannotResolveTarget,
    /// The target or the working-tree root resolves to a filesystem root.
    FilesystemRoot,
    /// The repository is bare.
    BareRepository,
    /// Git's bare-repository answer was neither `true` nor `false`.
    InvalidBareStatus,
    /// The target is not inside a working tree.
    NotInsideWorkTree,
    /// Git's path to the working-tree root is not made of `..` alone.
    InvalidCdup,
    /// The working-tree root could not be resolved.
    CannotResolveCdupRoot,
    /// The working-tree root could not be inspected.
    CannotInspectRoot,
    /// The working-tree root is not a real directory.
    RootNotRealDirectory,
    /// The working-tree root could not be resolved again.
    CannotResolveRoot,
    /// The working-tree root resolved to another path.
    RootInconsistent,
    /// Git does not see the root as the working-tree root.
    RootValidationFailed,
    /// Git named an empty internal directory.
    EmptyInternalPath,
    /// An internal Git directory could not be resolved.
    CannotResolveInternalDir,
    /// Git could not be run.
    CannotExecuteGit,
    /// A Git command failed.
    GitCommandFailed,
    /// A one-line answer of Git had more lines or a NUL byte.
    InvalidSingleLine,
    /// Git listed an empty or absolute path.
    UnsafePathRecord,
    /// Git listed a path with an empty, `.` or `..` component.
    UnsafePathComponent,
    /// A directory to scan could not be inspected again.
    CannotRevalidateDirectory,
    /// A directory to scan is no longer a real directory.
    DirectoryChanged,
    /// A directory to scan could not be resolved.
    CannotResolveDirectory,
    /// A directory to scan resolves outside the working tree.
    DirectoryEscaped,
    /// A directory could not be listed.
    CannotReadDirectory,
    /// An entry of a directory could not be read.
    CannotReadEntry,
    /// An entry could not be inspected.
    CannotInspectEntry,
    /// A listed name is not a single path component.
    UnusableEntryName,
    /// Whether a directory holds `.git` could not be found out.
    CannotInspectBoundary,
    /// A metadata folder could not be searched for `.git`.
    CannotInspectMetadataTree,
    /// An entry of a metadata folder could not be read.
    CannotReadMetadataTreeEntry,
    /// An entry of a metadata folder could not be inspected.
    CannotInspectMetadataTreeEntry,
    /// A scanned entry's path is not below the working-tree root.
    EntryEscaped,
    /// A repository-relative path has a component other than a name.
    UnsafeRelativeComponent,
    /// A repository-relative path goes through `.git`.
    InsideGit,
    /// A repository-relative path names the root itself.
    RepositoryRoot,
    /// The repository's layout changed after scanning.
    LayoutChanged,
    /// A candidate's path is not the root joined with its relative path.
    CandidateEscaped,
    /// A candidate lies inside, or holds, a Git directory.
    GitInternalPath,
    /// A candidate's parent could not be inspected.
    CannotRevalidateParent,
    /// A candidate's parent is no longer a real directory.
    ParentChanged,
    /// A candidate's parent now holds `.git`.
    NestedBoundaryAppeared,
    /// A candidate's parent could not be resolved.
    CannotResolveParent,
    /// A candidate's parent resolves outside the working tree.
    ParentEscaped,
    /// A candidate changed or disappeared.
    CandidateChangedOrDisappeared,
    /// A candidate's type changed.
    CandidateChangedType,
    /// A candidate's path has no file name.
    CandidateHasNoFilename,
    /// A candidate's name no longer names that metadata.
    CandidateChangedName,
    /// A metadata folder now holds `.git`.
    NestedBoundaryInCandidate,
    /// Removing a candidate failed.
    RemoveFailed,
}

/// A repository error: its kind, the path concerned and the host's (or
/// Git's) description.
#[derive(Debug, Clone, PartialEq, Eq)]
pub struct RepoError {
    /// What went wrong.
    pub kind: RepoErrorKind,
    /// The path concerned (empty when none).
    pub path: Vec<u8>,
    /// The host's or Git's description (empty when none).
    pub detail: String,
}

/// The message for a repository error of this kind about this path, with this description.
pub open spec fn repo_error_text(kind: RepoErrorKind, path: Seq<char>, detail: Seq<char>) -> Seq<char> {
    match kind {
        RepoErrorKind::TargetNotFound => "directory not found:\n"@ + path,
        RepoErrorKind::CannotInspectTarget => "cannot inspect repository path "@ + path + ": "@ + detail,
        RepoErrorKind::SymlinkTarget => "refusing to clean a symbolic-link repository path:\n"@ + path,
        RepoErrorKind::NotADirectory => "repository path is not a directory:\n"@ + path,
        RepoErrorKind::CannotResolveTarget => "cannot resolve repository path "@ + path + ": "@ + detail,
        RepoErrorKind::FilesystemRoot => "refusing to scan a filesystem root:\n"@ + path,
        RepoErrorKind::BareRepository => "bare repositories do not have a working tree:\n"@ + path,
        RepoErrorKind::InvalidBareStatus => "Git returned an invalid bare-repository status"@,
        RepoErrorKind::NotInsideWorkTree => "path is not inside a Git working tree:\n"@ + path,
        RepoErrorKind::InvalidCdup => "Git returned an invalid working-tree relative path"@,
        RepoErrorKind::CannotResolveCdupRoot => "cannot resolve Git working-tree root from "@ + path + ": "@ + detail,
        RepoErrorKind::CannotInspectRoot => "cannot inspect Git working-tree root "@ + path + ": "@ + detail,
        RepoErrorKind::RootNotRealDirectory => "Git working-tree root is not a real directory:\n"@ + path,
        RepoErrorKind::CannotResolveRoot => "cannot resolve Git working-tree root "@ + path + ": "@ + detail,
        RepoErrorKind::RootInconsistent => "Git working-tree root did not resolve consistently:\n"@ + path,
        RepoErrorKind::RootValidationFailed => "Git working-tree root validation failed:\n"@ + path,
        RepoErrorKind::EmptyInternalPath => "Git returned an empty internal directory path"@,
        RepoErrorKind::CannotResolveInternalDir => "cannot resolve Git internal directory "@ + path + ": "@ + detail,
        RepoErrorKind::CannotExecuteGit => "cannot execute Git in "@ + path + ": "@ + detail,
        RepoErrorKind::GitCommandFailed => "Git command failed in "@ + path + ":\n"@ + detail,
        RepoErrorKind::InvalidSingleLine => "Git returned an invalid single-line response"@,
        RepoErrorKind::UnsafePathRecord => "Git returned an unsafe path record"@,
        RepoErrorKind::UnsafePathComponent => "Git returned an unsafe path component"@,
        RepoErrorKind::CannotRevalidateDirectory => "cannot revalidate repository directory "@ + path + ": "@ + detail,
        RepoErrorKind::DirectoryChanged => "repository directory changed while scanning:\n"@ + path,
        RepoErrorKind::CannotResolveDirectory => "cannot resolve repository directory "@ + path + ": "@ + detail,
        RepoErrorKind::DirectoryEscaped => "repository directory escaped the working tree:\n"@ + path,
        RepoErrorKind::CannotReadDirectory => "cannot read repository directory "@ + path + ": "@ + detail,
        RepoErrorKind::CannotReadEntry => "cannot read an entry in "@ + path + ": "@ + detail,
        RepoErrorKind::CannotInspectEntry => "cannot inspect repository entry "@ + path + ": "@ + detail,
        RepoErrorKind::UnusableEntryName => "repository entry escaped the working tree: "@ + path,
        RepoErrorKind::CannotInspectBoundary => "cannot inspect repository boundary in "@ + path + ": "@ + detail,
        RepoErrorKind::CannotInspectMetadataTree => "cannot inspect metadata tree "@ + path + " for repository boundaries: "@ + detail,
        RepoErrorKind::CannotReadMetadataTreeEntry => "cannot inspect an entry in metadata tree "@ + path + ": "@ + detail,
        RepoErrorKind::CannotInspectMetadataTreeEntry => "cannot inspect metadata tree entry "@ + path + ": "@ + detail,
        RepoErrorKind::EntryEscaped => "repository entry escaped the working tree: "@ + path,
        RepoErrorKind::UnsafeRelativeComponent => "repository-relative path contains an unsafe component: "@ + path,
        RepoErrorKind::InsideGit => "refusing a path inside .git: "@ + path,
        RepoErrorKind::RepositoryRoot => "refusing to select the repository root"@,
        RepoErrorKind::LayoutChanged => "repository layout changed after scanning:\n"@ + path,
        RepoErrorKind::CandidateEscaped => "candidate escaped the repository working tree:\n"@ + path,
        RepoErrorKind::GitInternalPath => "refusing to modify a Git internal path:\n"@ + path,
        RepoErrorKind::CannotRevalidateParent => "cannot revalidate candidate parent "@ + path + ": "@ + detail,
        RepoErrorKind::ParentChanged => "candidate parent changed after scanning:\n"@ + path,
        RepoErrorKind::NestedBoundaryAppeared => "a nested repository boundary appeared after scanning:\n"@ + path,
        RepoErrorKind::CannotResolveParent => "cannot resolve candidate parent "@ + path + ": "@ + detail,
        RepoErrorKind::ParentEscaped => "candidate parent escaped the repository working tree:\n"@ + path,
        RepoErrorKind::CandidateChangedOrDisappeared => "repository metadata candidate changed or disappeared:\n"@ + path + "\n"@ + detail,
        RepoErrorKind::CandidateChangedType => "repository metadata candidate changed type after scanning:\n"@ + path,
        RepoErrorKind::CandidateHasNoFilename => "candidate has no filename"@,
        RepoErrorKind::CandidateChangedName => "repository metadata candidate changed name after scanning:\n"@ + path,
        RepoErrorKind::NestedBoundaryInCandidate => "a nested repository boundary appeared inside the candidate:\n"@ + path,
        RepoErrorKind::RemoveFailed => "failed to remove repository metadata:\n"@ + path + "\n\nReason:\n"@ + detail,
    }
}

impl RepoError {
    /// The message this error is shown with.
    pub fn message(&self) -> (m: String)
        ensures
            m@ == repo_error_text(self.kind, lossy_utf8(self.path@), self.detail@),
    {
        let path = display_bytes(self.path.as_slice());
        let mut s = String::new();
        match self.kind {
            RepoErrorKind::TargetNotFound => {
                s.append("directory not found:\n");
                s.append(path.as_str());
            },
            RepoErrorKind::CannotInspectTarget => {
                s.append("cannot inspect repository path ");
                s.append(path.as_str());
                s.append(": ");
                s.append(self.detail.as_str());
            },
            RepoErrorKind::SymlinkTarget => {
                s.append("refusing to clean a symbolic-link repository path:\n");
                s.append(path.as_str());
            },
            RepoErrorKind::NotADirectory => {
                s.append("repository path is not a directory:\n");
                s.append(path.as_str());
            },
            RepoErrorKind::CannotResolveTarget => {
                s.append("cannot resolve repository path ");
                s.append(path.as_str());
                s.append(": ");
                s.append(self.detail.as_str());
            },
            RepoErrorKind::FilesystemRoot => {
                s.append("refusing to scan a filesystem root:\n");
                s.append(path.as_str());
            },
            RepoErrorKind::BareRepository => {
                s.append("bare repositories do not have a working tree:\n");
                s.append(path.as_str());
            },
            RepoErrorKind::InvalidBareStatus => {
                s.append("Git returned an invalid bare-repository status");
            },
            RepoErrorKind::NotInsideWorkTree => {
                s.append("path is not inside a Git working tree:\n");
                s.append(path.as_str());
            },
            RepoErrorKind::InvalidCdup => {
                s.append("Git returned an invalid working-tree relative path");
            },
            RepoErrorKind::CannotResolveCdupRoot => {
                s.append("cannot resolve Git working-tree root from ");
                s.append(path.as_str());
                s.append(": ");
                s.append(self.detail.as_str());
            },
            RepoErrorKind::CannotInspectRoot => {
                s.append("cannot inspect Git working-tree root ");
                s.append(path.as_str());
                s.append(": ");
                s.append(self.detail.as_str());
            },
            RepoErrorKind::RootNotRealDirectory => {
                s.append("Git working-tree root is not a real directory:\n");
                s.append(path.as_str());
            },
            RepoErrorKind::CannotResolveRoot => {
                s.append("cannot resolve Git working-tree root ");
                s.append(path.as_str());
                s.append(": ");
                s.append(self.detail.as_str());
            },
            RepoErrorKind::RootInconsistent => {
                s.append("Git working-tree root did not resolve consistently:\n");
                s.append(path.as_str());
            },
            RepoErrorKind::RootValidationFailed => {
                s.append("Git working-tree root validation failed:\n");
                s.append(path.as_str());
            },
            RepoErrorKind::EmptyInternalPath => {
                s.append("Git returned an empty internal directory path");
            },
            RepoErrorKind::CannotResolveInternalDir => {
                s.append("cannot resolve Git internal directory ");
                s.append(path.as_str());
                s.append(": ");
                s.append(self.detail.as_str());
            },
            RepoErrorKind::CannotExecuteGit => {
                s.append("cannot execute Git in ");
                s.append(path.as_str());
                s.append(": ");
                s.append(self.detail.as_str());
            },
            RepoErrorKind::GitCommandFailed => {
                s.append("Git command failed in ");
                s.append(path.as_str());
                s.append(":\n");
                s.append(self.detail.as_str());
            },
            RepoErrorKind::InvalidSingleLine => {
                s.append("Git returned an invalid single-line response");
            },
            RepoErrorKind::UnsafePathRecord => {
                s.append("Git returned an unsafe path record");
            },
            RepoErrorKind::UnsafePathComponent => {
                s.append("Git returned an unsafe path component");
            },
            RepoErrorKind::CannotRevalidateDirectory => {
                s.append("cannot revalidate repository directory ");
                s.append(path.as_str());
                s.append(": ");
                s.append(self.detail.as_str());
            },
            RepoErrorKind::DirectoryChanged => {
                s.append("repository directory changed while scanning:\n");
                s.append(path.as_str());
            },
            RepoErrorKind::CannotResolveDirectory => {
                s.append("cannot resolve repository directory ");
                s.append(path.as_str());
                s.append(": ");
                s.append(self.detail.as_str());
            },
            RepoErrorKind::DirectoryEscaped => {
                s.append("repository directory escaped the working tree:\n");
                s.append(path.as_str());
            },
            RepoErrorKind::CannotReadDirectory => {
                s.append("cannot read repository directory ");
                s.append(path.as_str());
                s.append(": ");
                s.append(self.detail.as_str());
            },
            RepoErrorKind::CannotReadEntry => {
                s.append("cannot read an entry in ");
                s.append(path.as_str());
                s.append(": ");
                s.append(self.detail.as_str());
            },
            RepoErrorKind::CannotInspectEntry => {
                s.append("cannot inspect repository entry ");
                s.append(path.as_str());
                s.append(": ");
                s.append(self.detail.as_str());
            },
            RepoErrorKind::UnusableEntryName => {
                s.append("repository entry escaped the working tree: ");
                s.append(path.as_str());
            },
            RepoErrorKind::CannotInspectBoundary => {
                s.append("cannot inspect repository boundary in ");
                s.append(path.as_str());
                s.append(": ");
                s.append(self.detail.as_str());
            },
            RepoErrorKind::CannotInspectMetadataTree => {
                s.append("cannot inspect metadata tree ");
                s.append(path.as_str());
                s.append(" for repository boundaries: ");
                s.append(self.detail.as_str());
            },
            RepoErrorKind::CannotReadMetadataTreeEntry => {
                s.append("cannot inspect an entry in metadata tree ");
                s.append(path.as_str());
                s.append(": ");
                s.append(self.detail.as_str());
            },
            RepoErrorKind::CannotInspectMetadataTreeEntry => {
                s.append("cannot inspect metadata tree entry ");
                s.append(path.as_str());
                s.append(": ");
                s.append(self.detail.as_str());
            },
            RepoErrorKind::EntryEscaped => {
                s.append("repository entry escaped the working tree: ");
                s.append(path.as_str());
            },
            RepoErrorKind::UnsafeRelativeComponent => {
                s.append("repository-relative path contains an unsafe component: ");
                s.append(path.as_str());
            },
            RepoErrorKind::InsideGit => {
                s.append("refusing a path inside .git: ");
                s.append(path.as_str());
            },
            RepoErrorKind::RepositoryRoot => {
                s.append("refusing to select the repository root");
            },
            RepoErrorKind::LayoutChanged => {
                s.append("repository layout changed after scanning:\n");
                s.append(path.as_str());
            },
            RepoErrorKind::CandidateEscaped => {
                s.append("candidate escaped the repository working tree:\n");
                s.append(path.as_str());
            },
            RepoErrorKind::GitInternalPath => {
                s.append("refusing to modify a Git internal path:\n");
                s.append(path.as_str());
            },
            RepoErrorKind::CannotRevalidateParent => {
                s.append("cannot revalidate candidate parent ");
                s.append(path.as_str());
                s.append(": ");
                s.append(self.detail.as_str());
            },
            RepoErrorKind::ParentChanged => {
                s.append("candidate parent changed after scanning:\n");
                s.append(path.as_str());
            },
            RepoErrorKind::NestedBoundaryAppeared => {
                s.append("a nested repository boundary appeared after scanning:\n");
                s.append(path.as_str());
            },
            RepoErrorKind::CannotResolveParent => {
                s.append("cannot resolve candidate parent ");
                s.append(path.as_str());
                s.append(": ");
                s.append(self.detail.as_str());
            },
            RepoErrorKind::ParentEscaped => {
                s.append("candidate parent escaped the repository working tree:\n");
                s.append(path.as_str());
            },
            RepoErrorKind::CandidateChangedOrDisappeared => {
                s.append("repository metadata candidate changed or disappeared:\n");
                s.append(path.as_str());
                s.append("\n");
                s.append(self.detail.as_str());
            },
            RepoErrorKind::CandidateChangedType => {
                s.append("repository metadata candidate changed type after scanning:\n");
                s.append(path.as_str());
            },
            RepoErrorKind::CandidateHasNoFilename => {
                s.append("candidate has no filename");
            },
            RepoErrorKind::CandidateChangedName => {
                s.append("repository metadata candidate changed name after scanning:\n");
                s.append(path.as_str());
            },
            RepoErrorKind::NestedBoundaryInCandidate => {
                s.append("a nested repository boundary appeared inside the candidate:\n");
                s.append(path.as_str());
            },
            RepoErrorKind::RemoveFailed => {
                s.append("failed to remove repository metadata:\n");
                s.append(path.as_str());
                s.append("\n\nReason:\n");
                s.append(self.detail.as_str());
            },
        }
        s
    }

    /// An error of `kind` about `path`.
    pub fn new(kind: RepoErrorKind, path: Vec<u8>, detail: String) -> (e: RepoError)
        ensures
            e.kind == kind,
            e.path@ == path@,
            e.detail@ == detail@,
    {
        RepoError { kind, path, detail }
    }
}

fn copy_bytes(s: &[u8]) -> (r: Vec<u8>)
    ensures
        r@ == s@,
{
    vstd::slice::slice_to_vec(s)
}

fn fail<T>(kind: RepoErrorKind, path: Vec<u8>) -> (r: Result<T, RepoError>)
    ensures
        r matches Err(e) && e.kind == kind && e.path@ == path@ && e.detail@ == no_detail(),
{
    Err(RepoError::new(kind, path, String::new()))
}

fn fail_plain<T>(kind: RepoErrorKind) -> (r: Result<T, RepoError>)
    ensures
        r matches Err(e) && e.kind == kind && e.path@.len() == 0 && e.detail@ == no_detail(),
{
    let path: Vec<u8> = Vec::new();
    assert(path@.len() == 0);
    Err(RepoError::new(kind, path, String::new()))
}

// ----- Git's answers -----

/// A one-line answer without its line ending (`\r\n`, else `\n`).
pub open spec fn strip_line_end(out: Seq<u8>) -> Seq<u8> {
    if out.len() >= 2 && out[out.len() - 2] == CR && out[out.len() - 1] == LF {
        out.subrange(0, out.len() - 2)
    } else if out.len() >= 1 && out[out.len() - 1] == LF {
        out.subrange(0, out.len() - 1)
    } else {
        out
    }
}

/// The line Git answered, or `None` when what is left after the line
/// ending still holds `\n`, `\r` or a NUL byte.
pub open spec fn single_line(out: Seq<u8>) -> Option<Seq<u8>> {
    let line = strip_line_end(out);
    if line.contains(LF) || line.contains(CR) || line.contains(0u8) {
        None
    } else {
        Some(line)
    }
}

/// Reads a one-line answer of Git, as [`single_line`] says.
pub fn git_single_line(output: &[u8]) -> (r: Result<Vec<u8>, RepoError>)
    ensures
        match single_line(output@) {
            Some(l) => r matches Ok(v) && v@ == l,
            None => r matches Err(e) && e.kind == RepoErrorKind::InvalidSingleLine
                && e.path@.len() == 0 && e.detail@ == no_detail(),
        },
{
    let n = output.len();
    let end: usize = if n >= 2 && output[n - 2] == CR && output[n - 1] == LF {
        n - 2
    } else if n >= 1 && output[n - 1] == LF {
        n - 1
    } else {
        n
    };
    let ghost line = strip_line_end(output@);
    assert(line =~= output@.subrange(0, end as int));
    let mut i: usize = 0;
    while i < end
        invariant
            i <= end <= output.len(),
            line == output@.subrange(0, end as int),
            line == strip_line_end(output@),
            forall|k: int| 0 <= k < i ==> line[k] != LF && line[k] != CR && line[k] != 0u8,
        decreases end - i,
    {
        let b = output[i];
        if b == LF || b == CR || b == 0u8 {
            assert(line[i as int] == b);
            if b == LF {
                assert(line.contains(LF));
            } else if b == CR {
                assert(line.contains(CR));
            } else {
                assert(line.contains(0u8));
            }
            return fail_plain(RepoErrorKind::InvalidSingleLine);
        }
        i = i + 1;
    }
    assert(!line.contains(LF) && !line.contains(CR) && !line.contains(0u8));
    let mut v: Vec<u8> = Vec::new();
    let mut k: usize = 0;
    while k < end
        invariant
            k <= end <= output.len(),
            v@ == output@.subrange(0, k as int),
        decreases end - k,
    {
        v.push(output[k]);
        k = k + 1;
        assert(v@ =~= output@.subrange(0, k as int));
    }
    Ok(v)
}

/// A path record without one trailing `/`.
pub open spec fn strip_slash(p: Seq<u8>) -> Seq<u8> {
    if p.len() > 0 && p.last() == SEP {
        p.drop_last()
    } else {
        p
    }
}

/// The records of NUL-separated output: the non-empty pieces, each without
/// one trailing `/`, in order.
pub open spec fn records_of(pieces: Seq<Seq<u8>>) -> Seq<Seq<u8>>
    decreases pieces.len(),
{
    if pieces.len() == 0 {
        Seq::<Seq<u8>>::empty()
    } else {
        let init = records_of(pieces.drop_last());
        if pieces.last().len() == 0 {
            init
        } else {
            init.push(strip_slash(pieces.last()))
        }
    }
}

/// What is wrong with a path record: empty or absolute, or with an empty,
/// `.` or `..` component.
pub open spec fn record_fault(p: Seq<u8>) -> Option<RepoErrorKind> {
    if p.len() == 0 || p[0] == SEP {
        Some(RepoErrorKind::UnsafePathRecord)
    } else if exists|i: int|
        0 <= i < split_parts(p).len() && (split_parts(p)[i].len() == 0 || split_parts(p)[i]
            == seq![DOT] || split_parts(p)[i] == dot_dot()) {
        Some(RepoErrorKind::UnsafePathComponent)
    } else {
        None
    }
}

/// The fault of the first faulty record, if any.
pub open spec fn first_record_fault(records: Seq<Seq<u8>>) -> Option<RepoErrorKind>
    decreases records.len(),
{
    if records.len() == 0 {
        None
    } else if first_record_fault(records.drop_last()) is Some {
        first_record_fault(records.drop_last())
    } else {
        record_fault(records.last())
    }
}

fn record_fault_exec(p: &[u8]) -> (f: Option<RepoErrorKind>)
    ensures
        f == record_fault(p@),
{
    if p.len() == 0 || p[0] == SEP {
        return Some(RepoErrorKind::UnsafePathRecord);
    }
    let parts = split_parts_exec(p);
    let ghost ps = split_parts(p@);
    assert(byte_seqs(parts@).len() == parts@.len());
    let mut i: usize = 0;
    while i < parts.len()
        invariant
            i <= parts.len(),
            byte_seqs(parts@) == ps,
            ps == split_parts(p@),
            p.len() > 0 && p[0] != SEP,
            ps.len() == parts@.len(),
            forall|k: int|
                0 <= k < i ==> !(ps[k].len() == 0 || ps[k] == seq![DOT] || ps[k] == dot_dot()),
        decreases parts.len() - i,
    {
        let q = parts[i].as_slice();
        assert(q@ == ps[i as int]);
        let is_dot = q.len() == 1 && q[0] == DOT;
        let is_dot_dot = q.len() == 2 && q[0] == DOT && q[1] == DOT;
        proof {
            if is_dot {
                assert(q@ =~= seq![DOT]);
            }
            if is_dot_dot {
                assert(q@ =~= dot_dot());
            }
            if q.len() != 1 {
                assert(q@.len() != seq![DOT].len());
            }
            if q.len() != 2 {
                assert(q@.len() != dot_dot().len());
            }
            if q.len() == 1 && !is_dot {
                assert(q@[0] != seq![DOT][0]);
            }
            if q.len() == 2 && !is_dot_dot {
                assert(q@[0] != dot_dot()[0] || q@[1] != dot_dot()[1]);
            }
        }
        if q.len() == 0 || is_dot || is_dot_dot {
            assert(split_parts(p@)[i as int] == q@);
            return Some(RepoErrorKind::UnsafePathComponent);
        }
        i = i + 1;
    }
    None
}

/// Reads the NUL-separated path list a Git command printed: the records of
/// [`records_of`], refused as [`first_record_fault`] says.
pub fn git_path_set(output: &[u8]) -> (r: Result<Vec<Vec<u8>>, RepoError>)
    ensures
        match first_record_fault(records_of(split_on(output@, 0u8))) {
            Some(k) => r matches Err(e) && e.kind == k && e.path@.len() == 0 && e.detail@
                == no_detail(),
            None => r matches Ok(v) && byte_seqs(v@) == records_of(split_on(output@, 0u8)),
        },
{
    let pieces = split_on_exec(output, 0u8);
    let ghost ps = split_on(output@, 0u8);
    assert(byte_seqs(pieces@).len() == pieces@.len());
    let mut records: Vec<Vec<u8>> = Vec::new();
    let mut i: usize = 0;
    assert(ps.subrange(0, 0) =~= Seq::<Seq<u8>>::empty());
    while i < pieces.len()
        invariant
            i <= pieces.len(),
            byte_seqs(pieces@) == ps,
            ps == split_on(output@, 0u8),
            ps.len() == pieces@.len(),
            byte_seqs(records@) == records_of(ps.subrange(0, i as int)),
            first_record_fault(records_of(ps.subrange(0, i as int))) is None,
        decreases pieces.len() - i,
    {
        let ghost prefix = ps.subrange(0, i + 1);
        assert(prefix.drop_last() =~= ps.subrange(0, i as int));
        let piece = pieces[i].as_slice();
        assert(piece@ == ps[i as int]);
        if piece.len() > 0 {
            let end: usize = if piece[piece.len() - 1] == SEP {
                piece.len() - 1
            } else {
                piece.len()
            };
            let mut rec: Vec<u8> = Vec::new();
            let mut k: usize = 0;
            while k < end
                invariant
                    k <= end <= piece.len(),
                    rec@ == piece@.subrange(0, k as int),
                decreases end - k,
            {
                rec.push(piece[k]);
                k = k + 1;
                assert(rec@ =~= piece@.subrange(0, k as int));
            }
            assert(rec@ =~= strip_slash(piece@));
            let fault = record_fault_exec(rec.as_slice());
            let ghost before = records@;
            assert(records_of(prefix) == records_of(ps.subrange(0, i as int)).push(rec@));
            assert(records_of(prefix).drop_last() =~= records_of(ps.subrange(0, i as int)));
            if let Some(k) = fault {
                proof {
                    assert(first_record_fault(records_of(prefix)) == Some(k));
                    lemma_first_fault_extends(ps, i as int + 1);
                }
                return fail_plain(k);
            }
            records.push(rec);
            assert(byte_seqs(records@) =~= byte_seqs(before).push(strip_slash(piece@)));
        } else {
            assert(records_of(prefix) == records_of(ps.subrange(0, i as int)));
        }
        i = i + 1;
    }
    assert(ps.subrange(0, pieces.len() as int) =~= ps);
    Ok(records)
}

/// A fault among the records of a prefix of the pieces is the fault of all
/// of them.
proof fn lemma_first_fault_extends(ps: Seq<Seq<u8>>, m: int)
    requires
        0 <= m <= ps.len(),
        first_record_fault(records_of(ps.subrange(0, m))) is Some,
    ensures
        first_record_fault(records_of(ps)) == first_record_fault(records_of(ps.subrange(0, m))),
    decreases ps.len() - m,
{
    if m == ps.len() {
        assert(ps.subrange(0, m) =~= ps);
    } else {
        let next = ps.subrange(0, m + 1);
        assert(next.drop_last() =~= ps.subrange(0, m));
        if next.last().len() > 0 {
            assert(records_of(next).drop_last() =~= records_of(ps.subrange(0, m)));
        }
        lemma_first_fault_extends(ps, m + 1);
    }
}

// ----- Git's view of paths -----

/// `path` is `dir` or lies below it.
pub open spec fn within_key(path: Seq<u8>, dir: Seq<u8>) -> bool {
    path == dir || (dir.len() < path.len() && path.subrange(0, dir.len() as int) == dir
        && path[dir.len() as int] == SEP)
}

/// Some path of `paths` is `dir` or lies below it.
pub open spec fn any_within(paths: Seq<Seq<u8>>, dir: Seq<u8>) -> bool {
    exists|i: int| 0 <= i < paths.len() && within_key(#[trigger] paths[i], dir)
}

/// The paths Git reported: those in the index, the modified ones (in the
/// working tree or the index), the untracked and the ignored ones.
#[derive(Debug)]
pub struct GitPathState {
    in_index: Vec<Vec<u8>>,
    modified: Vec<Vec<u8>>,
    untracked: Vec<Vec<u8>>,
    ignored: Vec<Vec<u8>>,
}

/// Git's path lists as values: in the index, modified, untracked, ignored.
pub type GitPathsView = (Seq<Seq<u8>>, Seq<Seq<u8>>, Seq<Seq<u8>>, Seq<Seq<u8>>);

/// How Git sees a candidate with this key. A file or symlink in the index
/// is versioned (modified or not), else ignored, else untracked. A
/// directory is judged by the paths at or below it: more than one of the
/// versioned, untracked and ignored kinds makes it mixed; otherwise the one
/// present decides, untracked when none is.
pub open spec fn git_status(state: GitPathsView, key: Seq<u8>, t: CandidateType) -> RepoGitStatus {
    let (in_index, modified, untracked, ignored) = state;
    if t != CandidateType::Directory {
        if in_index.contains(key) {
            if modified.contains(key) {
                RepoGitStatus::TrackedModified
            } else {
                RepoGitStatus::TrackedUnchanged
            }
        } else if ignored.contains(key) {
            RepoGitStatus::Ignored
        } else {
            RepoGitStatus::Untracked
        }
    } else {
        let tr = any_within(in_index, key);
        let md = any_within(modified, key);
        let un = any_within(untracked, key);
        let ig = any_within(ignored, key);
        let categories = (if tr { 1int } else { 0int }) + (if un { 1int } else { 0int }) + (if ig {
            1int
        } else {
            0int
        });
        if categories > 1 {
            RepoGitStatus::Mixed
        } else if tr {
            if md {
                RepoGitStatus::TrackedModified
            } else {
                RepoGitStatus::TrackedUnchanged
            }
        } else if ig {
            RepoGitStatus::Ignored
        } else {
            RepoGitStatus::Untracked
        }
    }
}

fn within_key_exec(path: &[u8], dir: &[u8]) -> (r: bool)
    ensures
        r == within_key(path@, dir@),
{
    if path.len() == dir.len() {
        let mut i: usize = 0;
        while i < dir.len()
            invariant
                i <= dir.len() == path.len(),
                forall|k: int| 0 <= k < i ==> path@[k] == dir@[k],
            decreases dir.len() - i,
        {
            if path[i] != dir[i] {
                return false;
            }
            i = i + 1;
        }
        assert(path@ =~= dir@);
        return true;
    }
    if dir.len() >= path.len() {
        return false;
    }
    let mut i: usize = 0;
    while i < dir.len()
        invariant
            i <= dir.len() < path.len(),
            forall|k: int| 0 <= k < i ==> path@[k] == dir@[k],
        decreases dir.len() - i,
    {
        if path[i] != dir[i] {
            assert(path@.subrange(0, dir.len() as int)[i as int] != dir@[i as int]);
            return false;
        }
        i = i + 1;
    }
    assert(path@.subrange(0, dir.len() as int) =~= dir@);
    path[dir.len()] == SEP
}

fn any_within_exec(paths: &Vec<Vec<u8>>, dir: &[u8]) -> (r: bool)
    ensures
        r == any_within(byte_seqs(paths@), dir@),
{
    let ghost ps = byte_seqs(paths@);
    let mut i: usize = 0;
    while i < paths.len()
        invariant
            i <= paths.len(),
            ps == byte_seqs(paths@),
            forall|k: int| 0 <= k < i ==> !within_key(#[trigger] ps[k], dir@),
        decreases paths.len() - i,
    {
        assert(ps[i as int] == paths@[i as int]@);
        if within_key_exec(paths[i].as_slice(), dir) {
            return true;
        }
        i = i + 1;
    }
    false
}

fn contains_exec(paths: &Vec<Vec<u8>>, key: &[u8]) -> (r: bool)
    ensures
        r == byte_seqs(paths@).contains(key@),
{
    let ghost ps = byte_seqs(paths@);
    let mut i: usize = 0;
    while i < paths.len()
        invariant
            i <= paths.len(),
            ps == byte_seqs(paths@),
            forall|k: int| 0 <= k < i ==> ps[k] != key@,
        decreases paths.len() - i,
    {
        assert(ps[i as int] == paths@[i as int]@);
        if crate::bytepath::bytes_eq(paths[i].as_slice(), key) {
            return true;
        }
        i = i + 1;
    }
    false
}

/// The paths of `v`, each once, in the order they first occur.
fn distinct_paths(v: Vec<Vec<u8>>) -> (r: Vec<Vec<u8>>)
    ensures
        byte_seqs(r@).no_duplicates(),
        byte_seqs(r@).to_set() == byte_seqs(v@).to_set(),
{
    let ghost vs = byte_seqs(v@);
    let mut out: Vec<Vec<u8>> = Vec::new();
    let mut i: usize = 0;
    while i < v.len()
        invariant
            i <= v.len(),
            vs == byte_seqs(v@),
            byte_seqs(out@).no_duplicates(),
            forall|p: Seq<u8>| #[trigger]
                byte_seqs(out@).contains(p) <==> vs.subrange(0, i as int).contains(p),
        decreases v.len() - i,
    {
        let ghost before = byte_seqs(out@);
        let ghost pre = vs.subrange(0, i as int);
        let ghost p_i = vs[i as int];
        assert(vs.subrange(0, i + 1) =~= pre.push(p_i));
        if !contains_exec(&out, v[i].as_slice()) {
            out.push(copy_bytes(v[i].as_slice()));
            assert(byte_seqs(out@) =~= before.push(p_i));
            assert forall|p: Seq<u8>| #[trigger] byte_seqs(out@).contains(p) <==> pre.push(p_i).contains(
                p,
            ) by {
                if byte_seqs(out@).contains(p) {
                    let k = choose|k: int| 0 <= k < byte_seqs(out@).len() && byte_seqs(out@)[k] == p;
                    if k < before.len() {
                        assert(before.contains(p));
                        assert(pre.contains(p));
                        let m = choose|m: int| 0 <= m < pre.len() && pre[m] == p;
                        assert(pre.push(p_i)[m] == p);
                    } else {
                        assert(pre.push(p_i)[pre.len() as int] == p);
                    }
                }
                if pre.push(p_i).contains(p) {
                    let k = choose|k: int| 0 <= k < pre.push(p_i).len() && pre.push(p_i)[k] == p;
                    if k < pre.len() {
                        assert(pre.contains(p));
                        assert(before.contains(p));
                        let m = choose|m: int| 0 <= m < before.len() && before[m] == p;
                        assert(byte_seqs(out@)[m] == p);
                    } else {
                        assert(byte_seqs(out@)[before.len() as int] == p);
                    }
                }
            }
        } else {
            assert forall|p: Seq<u8>| #[trigger] byte_seqs(out@).contains(p) <==> pre.push(p_i).contains(
                p,
            ) by {
                if pre.push(p_i).contains(p) {
                    let k = choose|k: int| 0 <= k < pre.push(p_i).len() && pre.push(p_i)[k] == p;
                    if k < pre.len() {
                        assert(pre[k] == p);
                        assert(pre.contains(p));
                    }
                }
                if pre.contains(p) {
                    let m = choose|m: int| 0 <= m < pre.len() && pre[m] == p;
                    assert(pre.push(p_i)[m] == p);
                }
            }
        }
        i = i + 1;
    }
    assert(vs.subrange(0, v.len() as int) =~= vs);
    assert(byte_seqs(out@).to_set() =~= vs.to_set());
    out
}

impl GitPathState {
    /// The four lists as values.
    pub closed spec fn view_lists(&self) -> GitPathsView {
        (
            byte_seqs(self.in_index@),
            byte_seqs(self.modified@),
            byte_seqs(self.untracked@),
            byte_seqs(self.ignored@),
        )
    }

    /// Git's view from its path lists: the paths in the index, the paths
    /// modified in the working tree and in the index (together the modified
    /// ones), the untracked and the ignored paths.
    pub fn new(
        in_index: Vec<Vec<u8>>,
        modified_in_tree: Vec<Vec<u8>>,
        modified_in_index: Vec<Vec<u8>>,
        untracked: Vec<Vec<u8>>,
        ignored: Vec<Vec<u8>>,
    ) -> (s: GitPathState)
        ensures
            s.wf(),
            s.view_lists().0.to_set() == byte_seqs(in_index@).to_set(),
            s.view_lists().1.to_set() == byte_seqs(modified_in_tree@).to_set().union(
                byte_seqs(modified_in_index@).to_set(),
            ),
            s.view_lists().2.to_set() == byte_seqs(untracked@).to_set(),
            s.view_lists().3.to_set() == byte_seqs(ignored@).to_set(),
    {
        let mut modified = modified_in_tree;
        let mut extra = modified_in_index;
        let ghost a = byte_seqs(modified@);
        let ghost b = byte_seqs(extra@);
        modified.append(&mut extra);
        assert(byte_seqs(modified@) =~= a + b);
        assert((a + b).to_set() =~= a.to_set().union(b.to_set())) by {
            assert forall|p: Seq<u8>| (a + b).contains(p) <==> (a.contains(p) || b.contains(p)) by {
                if (a + b).contains(p) {
                    let k = choose|k: int| 0 <= k < (a + b).len() && (a + b)[k] == p;
                    if k < a.len() {
                        assert(a[k] == p);
                    } else {
                        assert(b[k - a.len()] == p);
                    }
                }
                if a.contains(p) {
                    let k = choose|k: int| 0 <= k < a.len() && a[k] == p;
                    assert((a + b)[k] == p);
                }
                if b.contains(p) {
                    let k = choose|k: int| 0 <= k < b.len() && b[k] == p;
                    assert((a + b)[a.len() + k] == p);
                }
            }
        }
        GitPathState {
            in_index: distinct_paths(in_index),
            modified: distinct_paths(modified),
            untracked: distinct_paths(untracked),
            ignored: distinct_paths(ignored),
        }
    }

    /// Like Git's path sets, no list holds a path twice.
    pub open spec fn wf(&self) -> bool {
        &&& self.view_lists().0.no_duplicates()
        &&& self.view_lists().1.no_duplicates()
        &&& self.view_lists().2.no_duplicates()
        &&& self.view_lists().3.no_duplicates()
    }

    /// How Git sees a candidate with this key, as [`git_status`] says.
    pub fn classify(&self, key: &[u8], t: CandidateType) -> (s: RepoGitStatus)
        ensures
            s == git_status(self.view_lists(), key@, t),
    {
        if t != CandidateType::Directory {
            if contains_exec(&self.in_index, key) {
                if contains_exec(&self.modified, key) {
                    return RepoGitStatus::TrackedModified;
                } else {
                    return RepoGitStatus::TrackedUnchanged;
                }
            }
            if contains_exec(&self.ignored, key) {
                return RepoGitStatus::Ignored;
            }
            return RepoGitStatus::Untracked;
        }
        let tr = any_within_exec(&self.in_index, key);
        let md = any_within_exec(&self.modified, key);
        let un = any_within_exec(&self.untracked, key);
        let ig = any_within_exec(&self.ignored, key);
        let categories: u8 = (if tr { 1u8 } else { 0u8 }) + (if un { 1u8 } else { 0u8 }) + (if ig {
            1u8
        } else {
            0u8
        });
        if categories > 1 {
            RepoGitStatus::Mixed
        } else if tr {
            if md {
                RepoGitStatus::TrackedModified
            } else {
                RepoGitStatus::TrackedUnchanged
            }
        } else if ig {
            RepoGitStatus::Ignored
        } else {
            RepoGitStatus::Untracked
        }
    }
}


// ----- Repository-relative paths -----

/// Parts joined by single separators.
pub open spec fn join_parts(parts: Seq<Seq<u8>>) -> Seq<u8>
    decreases parts.len(),
{
    if parts.len() == 0 {
        Seq::<u8>::empty()
    } else {
        let init = join_parts(parts.drop_last());
        if init.len() == 0 {
            parts.last()
        } else {
            init + seq![SEP] + parts.last()
        }
    }
}

/// The first body part, from `from` on, that keeps a path from being a
/// repository key: `..`, or `.git`.
pub open spec fn key_part_fault(body: Seq<Seq<u8>>, from: int) -> Option<RepoErrorKind>
    decreases body.len() - from,
{
    if from < 0 || from >= body.len() {
        None
    } else if body[from] == dot_dot() {
        Some(RepoErrorKind::UnsafeRelativeComponent)
    } else if body[from] == git_entry() {
        Some(RepoErrorKind::InsideGit)
    } else {
        key_part_fault(body, from + 1)
    }
}

/// Git's key for a repository-relative path: its names joined by `/`. A
/// path that starts at the root or at `.`, or holds `..`, is refused, as is
/// one through `.git` (whichever comes first) and one with no name at all.
pub open spec fn git_key(rel: Seq<u8>) -> Result<Seq<u8>, RepoErrorKind> {
    if path_start(rel).len() > 0 {
        Err(RepoErrorKind::UnsafeRelativeComponent)
    } else if key_part_fault(path_body(rel), 0) is Some {
        Err(key_part_fault(path_body(rel), 0)->0)
    } else if join_parts(path_body(rel)).len() == 0 {
        Err(RepoErrorKind::RepositoryRoot)
    } else {
        Ok(join_parts(path_body(rel)))
    }
}

/// The path an error about a refused key names: the relative path, or none
/// when it names the root.
pub open spec fn key_error_path(rel: Seq<u8>, kind: RepoErrorKind) -> Seq<u8> {
    if kind == RepoErrorKind::RepositoryRoot {
        Seq::<u8>::empty()
    } else {
        rel
    }
}

/// Git's key for a repository-relative path, as [`git_key`] says.
pub fn git_path_key(rel: &[u8]) -> (r: Result<Vec<u8>, RepoError>)
    ensures
        match git_key(rel@) {
            Ok(k) => r matches Ok(v) && v@ == k,
            Err(kind) => r matches Err(e) && e.kind == kind && e.path@ == key_error_path(
                rel@,
                kind,
            ) && e.detail@ == no_detail(),
        },
{
    let comps = components_exec(rel);
    let body = path_body_exec(rel);
    let ghost bs = path_body(rel@);
    assert(byte_seqs(comps@).len() == comps@.len());
    assert(byte_seqs(body@).len() == body@.len());
    if comps.len() != body.len() {
        return fail(RepoErrorKind::UnsafeRelativeComponent, copy_bytes(rel));
    }
    proof {
        lemma_body_weight(rel@);
    }
    let mut key: Vec<u8> = Vec::new();
    let mut i: usize = 0;
    assert(bs.subrange(0, 0) =~= Seq::<Seq<u8>>::empty());
    while i < body.len()
        invariant
            i <= body.len(),
            byte_seqs(body@) == bs,
            bs == path_body(rel@),
            bs.len() == body@.len(),
            path_start(rel@).len() == 0,
            key_part_fault(bs, 0) == key_part_fault(bs, i as int),
            key@ == join_parts(bs.subrange(0, i as int)),
            key@.len() <= parts_weight(bs.subrange(0, i as int)),
            forall|m: int|
                0 <= m <= bs.len() ==> 0 <= #[trigger] parts_weight(bs.subrange(0, m))
                    <= rel@.len() + 1,
        decreases body.len() - i,
    {
        let part = body[i].as_slice();
        assert(part@ == bs[i as int]);
        let is_dd = part.len() == 2 && part[0] == DOT && part[1] == DOT;
        proof {
            if is_dd {
                assert(part@ =~= dot_dot());
            } else if part@.len() == 2 {
                assert(part@[0] != dot_dot()[0] || part@[1] != dot_dot()[1]);
            }
        }
        if is_dd {
            return fail(RepoErrorKind::UnsafeRelativeComponent, copy_bytes(rel));
        }
        if is_git_entry(part) {
            return fail(RepoErrorKind::InsideGit, copy_bytes(rel));
        }
        let ghost prefix = bs.subrange(0, i + 1);
        assert(prefix.drop_last() =~= bs.subrange(0, i as int));
        assert(prefix.last() == bs[i as int]);
        assert(parts_weight(prefix) == parts_weight(bs.subrange(0, i as int)) + part@.len() + 1);
        assert(parts_weight(prefix) <= rel@.len() + 1);
        let ghost before = key@;
        if key.len() > 0 {
            key.push(SEP);
        }
        let mut piece = copy_bytes(part);
        key.append(&mut piece);
        assert(key@ =~= join_parts(prefix));
        i = i + 1;
    }
    assert(bs.subrange(0, body.len() as int) =~= bs);
    if key.len() == 0 {
        return fail_plain(RepoErrorKind::RepositoryRoot);
    }
    Ok(key)
}

// ----- Finding the working tree -----

/// A working-tree root path as Git prints it for `--show-cdup`: empty, or
/// made of `..` parts (empty parts allowed).
pub open spec fn cdup_ok(cdup: Seq<u8>) -> bool {
    cdup.len() == 0 || forall|i: int|
        0 <= i < split_parts(cdup).len() ==> (#[trigger] split_parts(cdup)[i]).len() == 0
            || split_parts(cdup)[i] == dot_dot()
}

fn cdup_ok_exec(cdup: &[u8]) -> (r: bool)
    ensures
        r == cdup_ok(cdup@),
{
    if cdup.len() == 0 {
        return true;
    }
    let parts = split_parts_exec(cdup);
    let ghost ps = split_parts(cdup@);
    assert(byte_seqs(parts@).len() == parts@.len());
    let mut i: usize = 0;
    while i < parts.len()
        invariant
            i <= parts.len(),
            byte_seqs(parts@) == ps,
            ps == split_parts(cdup@),
            cdup@.len() > 0,
            ps.len() == parts@.len(),
            forall|k: int| 0 <= k < i ==> (#[trigger] ps[k]).len() == 0 || ps[k] == dot_dot(),
        decreases parts.len() - i,
    {
        let q = parts[i].as_slice();
        assert(q@ == ps[i as int]);
        let dd = q.len() == 2 && q[0] == DOT && q[1] == DOT;
        proof {
            if dd {
                assert(q@ =~= dot_dot());
            } else if q@.len() == 2 {
                assert(q@[0] != dot_dot()[0] || q@[1] != dot_dot()[1]);
            }
        }
        if q.len() != 0 && !dd {
            return false;
        }
        i = i + 1;
    }
    true
}

/// The path whose resolution is the working-tree root: the target joined
/// with what Git printed for `--show-cdup`.
pub open spec fn internal_target(root: Seq<u8>, line: Seq<u8>) -> Option<Seq<u8>> {
    if line.len() == 0 {
        None
    } else if has_root(line) {
        Some(line)
    } else {
        Some(push_name(root, line))
    }
}

/// The layout of a repository: the working-tree root and Git's own and
/// common directories, all resolved.
#[derive(Debug, Clone)]
pub struct RepoLayout {
    /// The working-tree root.
    pub root: Vec<u8>,
    /// The repository's Git directory.
    pub git_dir: Vec<u8>,
    /// The Git directory shared by all worktrees.
    pub git_common_dir: Vec<u8>,
}

/// A question to Git.
#[derive(Debug, Clone, Copy, PartialEq, Eq, Structural)]
pub enum GitQuery {
    /// `rev-parse --is-bare-repository`
    IsBare,
    /// `rev-parse --is-inside-work-tree`
    IsInsideWorkTree,
    /// `rev-parse --show-cdup`
    ShowCdup,
    /// `rev-parse --absolute-git-dir`
    AbsoluteGitDir,
    /// `rev-parse --path-format=absolute --git-common-dir`
    GitCommonDir,
}

/// What the discovery needs observed next.
#[derive(Debug)]
pub enum DiscoveryRequest {
    /// `symlink_metadata` of the path, and its `canonicalize` when it is a
    /// directory.
    Inspect(Vec<u8>),
    /// Git's answer to the query, run in the directory.
    AskGit(Vec<u8>, GitQuery),
    /// `canonicalize` of the path.
    Resolve(Vec<u8>),
    /// Discovery is over.
    Done,
}

/// What was observed for a request.
#[derive(Debug)]
pub enum DiscoveryEvent {
    /// The type of the inspected path and, for a directory, what it
    /// resolves to.
    Inspected(Result<EntryType, IoFailure>, Result<Vec<u8>, IoFailure>),
    /// What Git printed, or why it could not answer.
    Answered(Result<Vec<u8>, RepoError>),
    /// What the path resolves to.
    Resolved(Result<Vec<u8>, IoFailure>),
}

/// Where a discovery stands, as values.
pub enum DiscoveryView {
    /// Inspect the target.
    Target(Seq<u8>),
    /// Ask whether the repository at the resolved target is bare.
    Bare(Seq<u8>),
    /// Ask whether the resolved target is inside a working tree.
    Inside(Seq<u8>),
    /// Ask for the way up to the working-tree root.
    Cdup(Seq<u8>),
    /// Resolve the working-tree root (resolved target, path to resolve).
    CdupRoot(Seq<u8>, Seq<u8>),
    /// Inspect the working-tree root.
    Root(Seq<u8>),
    /// Ask Git whether the root is the working-tree root.
    RootCdup(Seq<u8>),
    /// Ask for the Git directory.
    GitDir(Seq<u8>),
    /// Resolve the Git directory (root, path to resolve).
    GitDirResolve(Seq<u8>, Seq<u8>),
    /// Ask for the common Git directory (root, Git directory).
    CommonDir(Seq<u8>, Seq<u8>),
    /// Resolve it (root, Git directory, path to resolve).
    CommonResolve(Seq<u8>, Seq<u8>, Seq<u8>),
    /// Found: root, Git directory, common Git directory.
    Found(Seq<u8>, Seq<u8>, Seq<u8>),
    /// Failed: the error's kind, path and description.
    Failed(RepoErrorKind, Seq<u8>, Seq<char>),
}

/// The bytes of `true`.
pub open spec fn word_true() -> Seq<u8> {
    seq![0x74u8, 0x72u8, 0x75u8, 0x65u8]
}

/// The bytes of `false`.
pub open spec fn word_false() -> Seq<u8> {
    seq![0x66u8, 0x61u8, 0x6cu8, 0x73u8, 0x65u8]
}

fn is_word_true(l: &[u8]) -> (r: bool)
    ensures
        r == (l@ == word_true()),
{
    let r = l.len() == 4 && l[0] == 0x74u8 && l[1] == 0x72u8 && l[2] == 0x75u8 && l[3] == 0x65u8;
    proof {
        if r {
            assert(l@ =~= word_true());
        }
    }
    r
}

fn is_word_false(l: &[u8]) -> (r: bool)
    ensures
        r == (l@ == word_false()),
{
    let r = l.len() == 5 && l[0] == 0x66u8 && l[1] == 0x61u8 && l[2] == 0x6cu8 && l[3] == 0x73u8
        && l[4] == 0x65u8;
    proof {
        if r {
            assert(l@ =~= word_false());
        }
    }
    r
}

/// What Git's answer means at a question step: its line, or the failure.
pub open spec fn answer_line(a: Result<Vec<u8>, RepoError>) -> Result<
    Seq<u8>,
    (RepoErrorKind, Seq<u8>, Seq<char>),
> {
    match a {
        Err(e) => Err((e.kind, e.path@, e.detail@)),
        Ok(out) => match single_line(out@) {
            None => Err((RepoErrorKind::InvalidSingleLine, Seq::<u8>::empty(), no_detail())),
            Some(l) => Ok(l),
        },
    }
}

/// The step of a discovery after an event. The target must be a real
/// directory that does not resolve to a filesystem root; the repository
/// must not be bare (Git answering exactly `false`) and the target inside a
/// working tree; Git's way up to the root must be made of `..`; the root
/// must be a real directory, not a filesystem root, resolve to itself, and
/// be the working-tree root for Git; Git's own and common directories must
/// be named and resolve. An event of another kind than the step asks for
/// leaves it unchanged.
pub open spec fn discovery_next(s: DiscoveryView, e: DiscoveryEvent) -> DiscoveryView {
    match (s, e) {
        (DiscoveryView::Target(t), DiscoveryEvent::Inspected(tt, canonical)) => match tt {
            Err(f) => if f.kind == IoKind::NotFound {
                DiscoveryView::Failed(RepoErrorKind::TargetNotFound, t, f.detail@)
            } else {
                DiscoveryView::Failed(RepoErrorKind::CannotInspectTarget, t, f.detail@)
            },
            Ok(ty) => if ty == EntryType::Symlink {
                DiscoveryView::Failed(RepoErrorKind::SymlinkTarget, t, no_detail())
            } else if ty != EntryType::Directory {
                DiscoveryView::Failed(RepoErrorKind::NotADirectory, t, no_detail())
            } else {
                match canonical {
                    Err(f) => DiscoveryView::Failed(RepoErrorKind::CannotResolveTarget, t, f.detail@),
                    Ok(c) => if parent_len(c@) is None {
                        DiscoveryView::Failed(RepoErrorKind::FilesystemRoot, c@, no_detail())
                    } else {
                        DiscoveryView::Bare(c@)
                    },
                }
            },
        },
        (DiscoveryView::Bare(c), DiscoveryEvent::Answered(a)) => match answer_line(a) {
            Err((k, p, d)) => DiscoveryView::Failed(k, p, d),
            Ok(l) => if l == word_true() {
                DiscoveryView::Failed(RepoErrorKind::BareRepository, c, no_detail())
            } else if l != word_false() {
                DiscoveryView::Failed(RepoErrorKind::InvalidBareStatus, Seq::<u8>::empty(), no_detail())
            } else {
                DiscoveryView::Inside(c)
            },
        },
        (DiscoveryView::Inside(c), DiscoveryEvent::Answered(a)) => match answer_line(a) {
            Err((k, p, d)) => DiscoveryView::Failed(k, p, d),
            Ok(l) => if l != word_true() {
                DiscoveryView::Failed(RepoErrorKind::NotInsideWorkTree, c, no_detail())
            } else {
                DiscoveryView::Cdup(c)
            },
        },
        (DiscoveryView::Cdup(c), DiscoveryEvent::Answered(a)) => match answer_line(a) {
            Err((k, p, d)) => DiscoveryView::Failed(k, p, d),
            Ok(l) => if !cdup_ok(l) {
                DiscoveryView::Failed(RepoErrorKind::InvalidCdup, Seq::<u8>::empty(), no_detail())
            } else {
                DiscoveryView::CdupRoot(c, push_name(c, l))
            },
        },
        (DiscoveryView::CdupRoot(c, _), DiscoveryEvent::Resolved(r)) => match r {
            Err(f) => DiscoveryView::Failed(RepoErrorKind::CannotResolveCdupRoot, c, f.detail@),
            Ok(root) => DiscoveryView::Root(root@),
        },
        (DiscoveryView::Root(r), DiscoveryEvent::Inspected(rt, canonical)) => match rt {
            Err(f) => DiscoveryView::Failed(RepoErrorKind::CannotInspectRoot, r, f.detail@),
            Ok(ty) => if ty != EntryType::Directory {
                DiscoveryView::Failed(RepoErrorKind::RootNotRealDirectory, r, no_detail())
            } else if parent_len(r) is None {
                DiscoveryView::Failed(RepoErrorKind::FilesystemRoot, r, no_detail())
            } else {
                match canonical {
                    Err(f) => DiscoveryView::Failed(RepoErrorKind::CannotResolveRoot, r, f.detail@),
                    Ok(c) => if components(c@) != components(r) {
                        DiscoveryView::Failed(RepoErrorKind::RootInconsistent, r, no_detail())
                    } else {
                        DiscoveryView::RootCdup(r)
                    },
                }
            },
        },
        (DiscoveryView::RootCdup(r), DiscoveryEvent::Answered(a)) => match answer_line(a) {
            Err((k, p, d)) => DiscoveryView::Failed(k, p, d),
            Ok(l) => if l.len() != 0 {
                DiscoveryView::Failed(RepoErrorKind::RootValidationFailed, r, no_detail())
            } else {
                DiscoveryView::GitDir(r)
            },
        },
        (DiscoveryView::GitDir(r), DiscoveryEvent::Answered(a)) => match answer_line(a) {
            Err((k, p, d)) => DiscoveryView::Failed(k, p, d),
            Ok(l) => match internal_target(r, l) {
                None => DiscoveryView::Failed(RepoErrorKind::EmptyInternalPath, Seq::<u8>::empty(), no_detail()),
                Some(t) => DiscoveryView::GitDirResolve(r, t),
            },
        },
        (DiscoveryView::GitDirResolve(r, t), DiscoveryEvent::Resolved(res)) => match res {
            Err(f) => DiscoveryView::Failed(RepoErrorKind::CannotResolveInternalDir, t, f.detail@),
            Ok(g) => DiscoveryView::CommonDir(r, g@),
        },
        (DiscoveryView::CommonDir(r, g), DiscoveryEvent::Answered(a)) => match answer_line(a) {
            Err((k, p, d)) => DiscoveryView::Failed(k, p, d),
            Ok(l) => match internal_target(r, l) {
                None => DiscoveryView::Failed(RepoErrorKind::EmptyInternalPath, Seq::<u8>::empty(), no_detail()),
                Some(t) => DiscoveryView::CommonResolve(r, g, t),
            },
        },
        (DiscoveryView::CommonResolve(r, g, t), DiscoveryEvent::Resolved(res)) => match res {
            Err(f) => DiscoveryView::Failed(RepoErrorKind::CannotResolveInternalDir, t, f.detail@),
            Ok(c) => DiscoveryView::Found(r, g, c@),
        },
        _ => s,
    }
}

/// Where a discovery stands.
#[derive(Debug)]
enum DiscoveryPhase {
    Target(Vec<u8>),
    Bare(Vec<u8>),
    Inside(Vec<u8>),
    Cdup(Vec<u8>),
    CdupRoot(Vec<u8>, Vec<u8>),
    Root(Vec<u8>),
    RootCdup(Vec<u8>),
    GitDir(Vec<u8>),
    GitDirResolve(Vec<u8>, Vec<u8>),
    CommonDir(Vec<u8>, Vec<u8>),
    CommonResolve(Vec<u8>, Vec<u8>, Vec<u8>),
    Found(RepoLayout),
    Failed(RepoError),
}

/// The discovery of a repository's layout from a target path: it asks for
/// one observation at a time and decides from each, as [`discovery_next`]
/// says.
#[derive(Debug)]
pub struct RepoDiscovery {
    phase: DiscoveryPhase,
}

/// The phase as values.
pub closed spec fn phase_view(p: DiscoveryPhase) -> DiscoveryView {
    match p {
        DiscoveryPhase::Target(t) => DiscoveryView::Target(t@),
        DiscoveryPhase::Bare(c) => DiscoveryView::Bare(c@),
        DiscoveryPhase::Inside(c) => DiscoveryView::Inside(c@),
        DiscoveryPhase::Cdup(c) => DiscoveryView::Cdup(c@),
        DiscoveryPhase::CdupRoot(c, p) => DiscoveryView::CdupRoot(c@, p@),
        DiscoveryPhase::Root(r) => DiscoveryView::Root(r@),
        DiscoveryPhase::RootCdup(r) => DiscoveryView::RootCdup(r@),
        DiscoveryPhase::GitDir(r) => DiscoveryView::GitDir(r@),
        DiscoveryPhase::GitDirResolve(r, t) => DiscoveryView::GitDirResolve(r@, t@),
        DiscoveryPhase::CommonDir(r, g) => DiscoveryView::CommonDir(r@, g@),
        DiscoveryPhase::CommonResolve(r, g, t) => DiscoveryView::CommonResolve(r@, g@, t@),
        DiscoveryPhase::Found(l) => DiscoveryView::Found(l.root@, l.git_dir@, l.git_common_dir@),
        DiscoveryPhase::Failed(e) => DiscoveryView::Failed(e.kind, e.path@, e.detail@),
    }
}

/// Joining Git's answer to a directory stays within machine limits.
pub open spec fn event_fits(s: DiscoveryView, e: DiscoveryEvent) -> bool {
    match (s, e) {
        (DiscoveryView::Cdup(c), DiscoveryEvent::Answered(Ok(out))) => c.len() + out@.len() + 1
            <= isize::MAX,
        (DiscoveryView::GitDir(r), DiscoveryEvent::Answered(Ok(out))) => r.len() + out@.len() + 1
            <= isize::MAX,
        (DiscoveryView::CommonDir(r, _), DiscoveryEvent::Answered(Ok(out))) => r.len() + out@.len()
            + 1 <= isize::MAX,
        _ => true,
    }
}

fn line_of(a: Result<Vec<u8>, RepoError>) -> (r: Result<Vec<u8>, RepoError>)
    ensures
        match answer_line(a) {
            Ok(l) => r matches Ok(v) && v@ == l && (a matches Ok(out) && v@.len() <= out@.len()),
            Err((k, p, d)) => r matches Err(e) && e.kind == k && e.path@ == p && e.detail@ == d,
        },
{
    match a {
        Err(e) => Err(e),
        Ok(out) => {
            let r = git_single_line(out.as_slice());
            proof {
                if r is Ok {
                    assert(strip_line_end(out@).len() <= out@.len());
                }
            }
            r
        },
    }
}

fn internal_target_exec(root: &[u8], line: &[u8]) -> (r: Option<Vec<u8>>)
    requires
        root.len() + line.len() + 1 <= isize::MAX,
    ensures
        match internal_target(root@, line@) {
            Some(t) => r matches Some(v) && v@ == t,
            None => r is None,
        },
{
    if line.len() == 0 {
        None
    } else if line[0] == SEP {
        Some(copy_bytes(line))
    } else {
        Some(push_name_exec(root, line))
    }
}

fn step_phase(p: DiscoveryPhase, e: DiscoveryEvent) -> (r: DiscoveryPhase)
    requires
        event_fits(phase_view(p), e),
    ensures
        phase_view(r) == discovery_next(phase_view(p), e),
{
    match (p, e) {
        (DiscoveryPhase::Target(t), DiscoveryEvent::Inspected(tt, canonical)) => match tt {
            Err(f) => {
                let kind = if f.kind == IoKind::NotFound {
                    RepoErrorKind::TargetNotFound
                } else {
                    RepoErrorKind::CannotInspectTarget
                };
                DiscoveryPhase::Failed(RepoError::new(kind, t, f.detail))
            },
            Ok(ty) => if ty == EntryType::Symlink {
                DiscoveryPhase::Failed(RepoError::new(RepoErrorKind::SymlinkTarget, t, String::new()))
            } else if ty != EntryType::Directory {
                DiscoveryPhase::Failed(RepoError::new(RepoErrorKind::NotADirectory, t, String::new()))
            } else {
                match canonical {
                    Err(f) => DiscoveryPhase::Failed(
                        RepoError::new(RepoErrorKind::CannotResolveTarget, t, f.detail),
                    ),
                    Ok(c) => if parent_len_exec(c.as_slice()).is_none() {
                        DiscoveryPhase::Failed(
                            RepoError::new(RepoErrorKind::FilesystemRoot, c, String::new()),
                        )
                    } else {
                        DiscoveryPhase::Bare(c)
                    },
                }
            },
        },
        (DiscoveryPhase::Bare(c), DiscoveryEvent::Answered(a)) => match line_of(a) {
            Err(err) => DiscoveryPhase::Failed(err),
            Ok(l) => if is_word_true(l.as_slice()) {
                DiscoveryPhase::Failed(RepoError::new(RepoErrorKind::BareRepository, c, String::new()))
            } else if !is_word_false(l.as_slice()) {
                DiscoveryPhase::Failed(
                    RepoError::new(RepoErrorKind::InvalidBareStatus, Vec::new(), String::new()),
                )
            } else {
                DiscoveryPhase::Inside(c)
            },
        },
        (DiscoveryPhase::Inside(c), DiscoveryEvent::Answered(a)) => match line_of(a) {
            Err(err) => DiscoveryPhase::Failed(err),
            Ok(l) => if !is_word_true(l.as_slice()) {
                DiscoveryPhase::Failed(
                    RepoError::new(RepoErrorKind::NotInsideWorkTree, c, String::new()),
                )
            } else {
                DiscoveryPhase::Cdup(c)
            },
        },
        (DiscoveryPhase::Cdup(c), DiscoveryEvent::Answered(a)) => match line_of(a) {
            Err(err) => DiscoveryPhase::Failed(err),
            Ok(l) => if !cdup_ok_exec(l.as_slice()) {
                DiscoveryPhase::Failed(
                    RepoError::new(RepoErrorKind::InvalidCdup, Vec::new(), String::new()),
                )
            } else {
                let t = push_name_exec(c.as_slice(), l.as_slice());
                DiscoveryPhase::CdupRoot(c, t)
            },
        },
        (DiscoveryPhase::CdupRoot(c, t), DiscoveryEvent::Resolved(res)) => match res {
            Err(f) => DiscoveryPhase::Failed(
                RepoError::new(RepoErrorKind::CannotResolveCdupRoot, c, f.detail),
            ),
            Ok(root) => DiscoveryPhase::Root(root),
        },
        (DiscoveryPhase::Root(r), DiscoveryEvent::Inspected(rt, canonical)) => match rt {
            Err(f) => DiscoveryPhase::Failed(
                RepoError::new(RepoErrorKind::CannotInspectRoot, r, f.detail),
            ),
            Ok(ty) => if ty != EntryType::Directory {
                DiscoveryPhase::Failed(
                    RepoError::new(RepoErrorKind::RootNotRealDirectory, r, String::new()),
                )
            } else if parent_len_exec(r.as_slice()).is_none() {
                DiscoveryPhase::Failed(RepoError::new(RepoErrorKind::FilesystemRoot, r, String::new()))
            } else {
                match canonical {
                    Err(f) => DiscoveryPhase::Failed(
                        RepoError::new(RepoErrorKind::CannotResolveRoot, r, f.detail),
                    ),
                    Ok(c) => if !path_eq(c.as_slice(), r.as_slice()) {
                        DiscoveryPhase::Failed(
                            RepoError::new(RepoErrorKind::RootInconsistent, r, String::new()),
                        )
                    } else {
                        DiscoveryPhase::RootCdup(r)
                    },
                }
            },
        },
        (DiscoveryPhase::RootCdup(r), DiscoveryEvent::Answered(a)) => match line_of(a) {
            Err(err) => DiscoveryPhase::Failed(err),
            Ok(l) => if l.len() != 0 {
                DiscoveryPhase::Failed(
                    RepoError::new(RepoErrorKind::RootValidationFailed, r, String::new()),
                )
            } else {
                DiscoveryPhase::GitDir(r)
            },
        },
        (DiscoveryPhase::GitDir(r), DiscoveryEvent::Answered(a)) => match line_of(a) {
            Err(err) => DiscoveryPhase::Failed(err),
            Ok(l) => match internal_target_exec(r.as_slice(), l.as_slice()) {
                None => DiscoveryPhase::Failed(
                    RepoError::new(RepoErrorKind::EmptyInternalPath, Vec::new(), String::new()),
                ),
                Some(t) => DiscoveryPhase::GitDirResolve(r, t),
            },
        },
        (DiscoveryPhase::GitDirResolve(r, t), DiscoveryEvent::Resolved(res)) => match res {
            Err(f) => DiscoveryPhase::Failed(
                RepoError::new(RepoErrorKind::CannotResolveInternalDir, t, f.detail),
            ),
            Ok(g) => DiscoveryPhase::CommonDir(r, g),
        },
        (DiscoveryPhase::CommonDir(r, g), DiscoveryEvent::Answered(a)) => match line_of(a) {
            Err(err) => DiscoveryPhase::Failed(err),
            Ok(l) => match internal_target_exec(r.as_slice(), l.as_slice()) {
                None => DiscoveryPhase::Failed(
                    RepoError::new(RepoErrorKind::EmptyInternalPath, Vec::new(), String::new()),
                ),
                Some(t) => DiscoveryPhase::CommonResolve(r, g, t),
            },
        },
        (DiscoveryPhase::CommonResolve(r, g, t), DiscoveryEvent::Resolved(res)) => match res {
            Err(f) => DiscoveryPhase::Failed(
                RepoError::new(RepoErrorKind::CannotResolveInternalDir, t, f.detail),
            ),
            Ok(c) => DiscoveryPhase::Found(RepoLayout { root: r, git_dir: g, git_common_dir: c }),
        },
        (p, _) => p,
    }
}

impl RepoDiscovery {
    /// Where it stands, as values.
    pub closed spec fn state(&self) -> DiscoveryView {
        phase_view(self.phase)
    }

    /// Starts at the target.
    pub fn start(target: &[u8]) -> (d: RepoDiscovery)
        ensures
            d.state() == DiscoveryView::Target(target@),
    {
        RepoDiscovery { phase: DiscoveryPhase::Target(copy_bytes(target)) }
    }

    /// What to observe next.
    pub fn request(&self) -> (q: DiscoveryRequest)
        ensures
            match self.state() {
                DiscoveryView::Target(t) => q matches DiscoveryRequest::Inspect(p) && p@ == t,
                DiscoveryView::Bare(c) => q matches DiscoveryRequest::AskGit(d, GitQuery::IsBare)
                    && d@ == c,
                DiscoveryView::Inside(c) => q matches DiscoveryRequest::AskGit(
                    d,
                    GitQuery::IsInsideWorkTree,
                ) && d@ == c,
                DiscoveryView::Cdup(c) => q matches DiscoveryRequest::AskGit(d, GitQuery::ShowCdup)
                    && d@ == c,
                DiscoveryView::CdupRoot(_, t) => q matches DiscoveryRequest::Resolve(p) && p@ == t,
                DiscoveryView::Root(r) => q matches DiscoveryRequest::Inspect(p) && p@ == r,
                DiscoveryView::RootCdup(r) => q matches DiscoveryRequest::AskGit(
                    d,
                    GitQuery::ShowCdup,
                ) && d@ == r,
                DiscoveryView::GitDir(r) => q matches DiscoveryRequest::AskGit(
                    d,
                    GitQuery::AbsoluteGitDir,
                ) && d@ == r,
                DiscoveryView::GitDirResolve(_, t) => q matches DiscoveryRequest::Resolve(p) && p@
                    == t,
                DiscoveryView::CommonDir(r, _) => q matches DiscoveryRequest::AskGit(
                    d,
                    GitQuery::GitCommonDir,
                ) && d@ == r,
                DiscoveryView::CommonResolve(_, _, t) => q matches DiscoveryRequest::Resolve(p)
                    && p@ == t,
                DiscoveryView::Found(_, _, _) => q is Done,
                DiscoveryView::Failed(_, _, _) => q is Done,
            },
    {
        match &self.phase {
            DiscoveryPhase::Target(t) => DiscoveryRequest::Inspect(copy_bytes(t.as_slice())),
            DiscoveryPhase::Bare(c) => DiscoveryRequest::AskGit(
                copy_bytes(c.as_slice()),
                GitQuery::IsBare,
            ),
            DiscoveryPhase::Inside(c) => DiscoveryRequest::AskGit(
                copy_bytes(c.as_slice()),
                GitQuery::IsInsideWorkTree,
            ),
            DiscoveryPhase::Cdup(c) => DiscoveryRequest::AskGit(
                copy_bytes(c.as_slice()),
                GitQuery::ShowCdup,
            ),
            DiscoveryPhase::CdupRoot(_, t) => DiscoveryRequest::Resolve(copy_bytes(t.as_slice())),
            DiscoveryPhase::Root(r) => DiscoveryRequest::Inspect(copy_bytes(r.as_slice())),
            DiscoveryPhase::RootCdup(r) => DiscoveryRequest::AskGit(
                copy_bytes(r.as_slice()),
                GitQuery::ShowCdup,
            ),
            DiscoveryPhase::GitDir(r) => DiscoveryRequest::AskGit(
                copy_bytes(r.as_slice()),
                GitQuery::AbsoluteGitDir,
            ),
            DiscoveryPhase::GitDirResolve(_, t) => DiscoveryRequest::Resolve(
                copy_bytes(t.as_slice()),
            ),
            DiscoveryPhase::CommonDir(r, _) => DiscoveryRequest::AskGit(
                copy_bytes(r.as_slice()),
                GitQuery::GitCommonDir,
            ),
            DiscoveryPhase::CommonResolve(_, _, t) => DiscoveryRequest::Resolve(
                copy_bytes(t.as_slice()),
            ),
            DiscoveryPhase::Found(_) => DiscoveryRequest::Done,
            DiscoveryPhase::Failed(_) => DiscoveryRequest::Done,
        }
    }

    /// Decides from what was observed, as [`discovery_next`] says.
    pub fn advance(&mut self, event: DiscoveryEvent)
        requires
            event_fits(old(self).state(), event),
        ensures
            final(self).state() == discovery_next(old(self).state(), event),
    {
        let mut phase = DiscoveryPhase::Target(Vec::new());
        std::mem::swap(&mut phase, &mut self.phase);
        self.phase = step_phase(phase, event);
    }

    /// The layout found, or why discovery failed; `None` while it runs.
    pub fn outcome(self) -> (r: Option<Result<RepoLayout, RepoError>>)
        ensures
            match self.state() {
                DiscoveryView::Found(root, g, c) => r matches Some(Ok(l)) && l.root@ == root
                    && l.git_dir@ == g && l.git_common_dir@ == c,
                DiscoveryView::Failed(k, p, d) => r matches Some(Err(e)) && e.kind == k && e.path@
                    == p && e.detail@ == d,
                _ => r is None,
            },
    {
        match self.phase {
            DiscoveryPhase::Found(l) => Some(Ok(l)),
            DiscoveryPhase::Failed(e) => Some(Err(e)),
            _ => None,
        }
    }
}


// ----- Searching a metadata folder for `.git` -----

/// One entry of a metadata folder being searched: its name and its type
/// (`symlink_metadata`).
#[derive(Debug)]
pub struct TreeEntry {
    /// The entry's name.
    pub name: Vec<u8>,
    /// Its type, links not followed.
    pub entry_type: Result<EntryType, IoFailure>,
}

/// What one entry tells a search for `.git`: found, a directory to search
/// too, nothing, or an error.
pub enum TreeStep {
    /// A `.git` entry is there.
    Found,
    /// A real directory to search too.
    Descend(Seq<u8>),
    /// Nothing to do.
    Nothing,
    /// The search failed: the error's kind, path and description.
    Fail(RepoErrorKind, Seq<u8>, Seq<char>),
}

/// The rule for one entry of a searched directory: a `.git` entry of any
/// type is a boundary; a real directory is searched too.
pub open spec fn tree_step(dir: Seq<u8>, entry: Result<TreeEntry, IoFailure>) -> TreeStep {
    match entry {
        Err(f) => TreeStep::Fail(RepoErrorKind::CannotReadMetadataTreeEntry, dir, f.detail@),
        Ok(e) => if e.name@ == git_entry() {
            TreeStep::Found
        } else {
            match e.entry_type {
                Err(f) => TreeStep::Fail(
                    RepoErrorKind::CannotInspectMetadataTreeEntry,
                    push_name(dir, e.name@),
                    f.detail@,
                ),
                Ok(t) => if t == EntryType::Directory {
                    TreeStep::Descend(push_name(dir, e.name@))
                } else {
                    TreeStep::Nothing
                },
            }
        },
    }
}

/// A search of a folder tree for a `.git` entry: the directories still to
/// list (a stack).
#[derive(Debug)]
pub struct BoundarySearch {
    pending: Vec<Vec<u8>>,
}

impl BoundarySearch {
    /// The directories still to list; the last is listed next.
    pub closed spec fn pending_view(&self) -> Seq<Seq<u8>> {
        byte_seqs(self.pending@)
    }

    /// Starts at `root`.
    pub fn start(root: &[u8]) -> (s: BoundarySearch)
        ensures
            s.pending_view() == seq![root@],
    {
        let mut pending: Vec<Vec<u8>> = Vec::new();
        pending.push(copy_bytes(root));
        let s = BoundarySearch { pending };
        assert(s.pending_view() =~= seq![root@]);
        s
    }

    /// The next directory to list; `None` when the search found nothing.
    pub fn next_directory(&mut self) -> (d: Option<Vec<u8>>)
        ensures
            old(self).pending_view().len() == 0 ==> d is None && final(self).pending_view()
                == old(self).pending_view(),
            old(self).pending_view().len() > 0 ==> (d matches Some(p) && p@ == old(self).pending_view().last() && final(self).pending_view() == old(self).pending_view().drop_last()),
    {
        let ghost before = self.pending@;
        let d = self.pending.pop();
        proof {
            if before.len() > 0 {
                assert(byte_seqs(self.pending@) =~= byte_seqs(before).drop_last());
            }
        }
        d
    }

    /// The error for a directory of the tree that could not be listed.
    pub fn unreadable(dir: &[u8], failure: IoFailure) -> (e: RepoError)
        ensures
            e.kind == RepoErrorKind::CannotInspectMetadataTree,
            e.path@ == dir@,
    {
        RepoError::new(RepoErrorKind::CannotInspectMetadataTree, copy_bytes(dir), failure.detail)
    }

    /// Looks at one entry of `dir`, as [`tree_step`] says: `Ok(true)` when
    /// it is `.git`; a directory to search is added.
    pub fn visit_entry(&mut self, dir: &[u8], entry: Result<TreeEntry, IoFailure>) -> (r: Result<
        bool,
        RepoError,
    >)
        requires
            entry matches Ok(e) ==> dir@.len() + e.name@.len() + 1 <= isize::MAX,
        ensures
            match tree_step(dir@, entry) {
                TreeStep::Found => r == Ok::<bool, RepoError>(true) && final(self).pending_view()
                    == old(self).pending_view(),
                TreeStep::Descend(p) => r == Ok::<bool, RepoError>(false)
                    && final(self).pending_view() == old(self).pending_view().push(p),
                TreeStep::Nothing => r == Ok::<bool, RepoError>(false) && final(self).pending_view() == old(self).pending_view(),
                TreeStep::Fail(k, p, d) => r matches Err(e) && e.kind == k && e.path@ == p
                    && e.detail@ == d && final(self).pending_view() == old(self).pending_view(),
            },
    {
        match entry {
            Err(f) => Err(
                RepoError::new(RepoErrorKind::CannotReadMetadataTreeEntry, copy_bytes(dir), f.detail),
            ),
            Ok(e) => {
                if is_git_entry(e.name.as_slice()) {
                    return Ok(true);
                }
                match e.entry_type {
                    Err(f) => Err(
                        RepoError::new(
                            RepoErrorKind::CannotInspectMetadataTreeEntry,
                            push_name_exec(dir, e.name.as_slice()),
                            f.detail,
                        ),
                    ),
                    Ok(t) => {
                        if t == EntryType::Directory {
                            let ghost before = self.pending@;
                            let p = push_name_exec(dir, e.name.as_slice());
                            self.pending.push(p);
                            assert(byte_seqs(self.pending@) =~= byte_seqs(before).push(
                                push_name(dir@, e.name@),
                            ));
                        }
                        Ok(false)
                    },
                }
            },
        }
    }
}

// ----- Scanning the working tree -----

/// A working-tree directory waiting to be scanned: its path and its path
/// relative to the root (empty for the root).
#[derive(Debug, Clone)]
pub struct RepoPending {
    path: Vec<u8>,
    relative: Vec<u8>,
}

impl RepoPending {
    /// The directory as values: path, then relative path.
    pub closed spec fn view_pair(&self) -> (Seq<u8>, Seq<u8>) {
        (self.path@, self.relative@)
    }

    /// The directory's path.
    pub fn path(&self) -> (p: &[u8])
        ensures
            p@ == self.view_pair().0,
    {
        self.path.as_slice()
    }

    /// Whether it is the working-tree root.
    pub fn is_root(&self) -> (r: bool)
        ensures
            r == (self.view_pair().1.len() == 0),
    {
        self.relative.len() == 0
    }
}

/// A metadata entry found in the working tree, before Git's view of it is
/// known.
#[derive(Debug, Clone)]
pub struct FoundEntry {
    path: Vec<u8>,
    relative_path: Vec<u8>,
    metadata_kind: MetadataKind,
    candidate_type: CandidateType,
}

/// A found entry as values: path, relative path, kind, type.
pub type FoundView = (Seq<u8>, Seq<u8>, MetadataKind, CandidateType);

impl FoundEntry {
    /// This entry as values.
    pub closed spec fn view_tuple(&self) -> FoundView {
        (self.path@, self.relative_path@, self.metadata_kind, self.candidate_type)
    }

    /// As a scan of `root` lists it (see [`listed_repo_entry`]).
    pub open spec fn fits_root(&self, root: Seq<u8>) -> bool {
        listed_repo_entry(root, self.view_tuple())
    }
}

/// An entry as a scan of `root` lists it: as [`listed_candidate`] says,
/// with a relative path that is a Git key and holds no name `.git`.
pub open spec fn listed_repo_entry(root: Seq<u8>, c: FoundView) -> bool {
    &&& listed_candidate(root, c)
    &&& git_key(c.1) is Ok
    &&& forall|i: int| 0 <= i < split_parts(c.1).len() ==> #[trigger] split_parts(c.1)[i] != git_entry()
}

/// What was observed of one working-tree entry: its name; its type
/// (`symlink_metadata`); for a directory, whether it holds `.git`; and for
/// a `__MACOSX` directory without one, whether any folder below it does.
#[derive(Debug)]
pub struct RepoEntryObservation {
    /// The entry's name.
    pub name: Vec<u8>,
    /// Its type, links not followed.
    pub entry_type: Result<EntryType, IoFailure>,
    /// For a directory: whether `<entry>/.git` exists.
    pub boundary: Result<bool, IoFailure>,
    /// For a `__MACOSX` directory: whether its tree holds `.git`.
    pub tree_boundary: Result<bool, RepoError>,
}

/// What the scan does with one entry.
pub enum RepoEntryOutcome {
    /// Leave it alone.
    Skip,
    /// Scan this directory (path, relative path).
    Descend(Seq<u8>, Seq<u8>),
    /// A candidate: path, relative path, kind, type.
    Candidate(Seq<u8>, Seq<u8>, MetadataKind, CandidateType),
    /// Stop with this error: kind, path, description.
    Fail(RepoErrorKind, Seq<u8>, Seq<char>),
}

/// A metadata entry becomes a candidate when its path lies below the root
/// as its relative path says and that path is a Git key.
pub open spec fn candidate_outcome(
    root: Seq<u8>,
    path: Seq<u8>,
    rel: Seq<u8>,
    k: MetadataKind,
    t: CandidateType,
) -> RepoEntryOutcome {
    if !strips_to(path, root, rel) {
        RepoEntryOutcome::Fail(RepoErrorKind::EntryEscaped, path, no_detail())
    } else {
        match git_key(rel) {
            Err(kk) => RepoEntryOutcome::Fail(kk, key_error_path(rel, kk), no_detail()),
            Ok(_) => RepoEntryOutcome::Candidate(path, rel, k, t),
        }
    }
}

/// The rule for one working-tree entry: `.git` is never looked at; a
/// symlink with a metadata name is a candidate (never followed); a
/// directory holding `.git` is another repository and left alone; a
/// `__MACOSX` directory is a candidate unless a folder below it holds
/// `.git`; any other directory is scanned; a regular file named `.DS_Store`
/// or `._*` is a candidate; everything else is left alone.
pub open spec fn repo_entry_outcome(
    root: Seq<u8>,
    dir: (Seq<u8>, Seq<u8>),
    entry: Result<RepoEntryObservation, IoFailure>,
) -> RepoEntryOutcome {
    match entry {
        Err(f) => RepoEntryOutcome::Fail(RepoErrorKind::CannotReadEntry, dir.0, f.detail@),
        Ok(o) => {
            let n = o.name@;
            let path = push_name(dir.0, n);
            let rel = push_name(dir.1, n);
            if n == git_entry() {
                RepoEntryOutcome::Skip
            } else if !is_entry_name(n) {
                RepoEntryOutcome::Fail(RepoErrorKind::UnusableEntryName, path, no_detail())
            } else {
                match o.entry_type {
                    Err(f) => RepoEntryOutcome::Fail(
                        RepoErrorKind::CannotInspectEntry,
                        path,
                        f.detail@,
                    ),
                    Ok(t) => match t {
                        EntryType::Symlink => match component_kind(n) {
                            Some(k) => candidate_outcome(root, path, rel, k, CandidateType::Symlink),
                            None => RepoEntryOutcome::Skip,
                        },
                        EntryType::Directory => match o.boundary {
                            Err(f) => RepoEntryOutcome::Fail(
                                RepoErrorKind::CannotInspectBoundary,
                                path,
                                f.detail@,
                            ),
                            Ok(b) => if b {
                                RepoEntryOutcome::Skip
                            } else if component_kind(n) == Some(MetadataKind::MacosxDirectory) {
                                match o.tree_boundary {
                                    Err(e) => RepoEntryOutcome::Fail(e.kind, e.path@, e.detail@),
                                    Ok(tb) => if tb {
                                        RepoEntryOutcome::Skip
                                    } else {
                                        candidate_outcome(
                                            root,
                                            path,
                                            rel,
                                            MetadataKind::MacosxDirectory,
                                            CandidateType::Directory,
                                        )
                                    },
                                }
                            } else {
                                RepoEntryOutcome::Descend(path, rel)
                            },
                        },
                        EntryType::File => match component_kind(n) {
                            Some(MetadataKind::DsStore) => candidate_outcome(
                                root,
                                path,
                                rel,
                                MetadataKind::DsStore,
                                CandidateType::RegularFile,
                            ),
                            Some(MetadataKind::AppleDouble) => candidate_outcome(
                                root,
                                path,
                                rel,
                                MetadataKind::AppleDouble,
                                CandidateType::RegularFile,
                            ),
                            _ => RepoEntryOutcome::Skip,
                        },
                        EntryType::Other => RepoEntryOutcome::Skip,
                    },
                }
            }
        },
    }
}

/// Whether the scan reads, of an entry with this name and type, whether
/// `<entry>/.git` exists: only for a usable name other than `.git` that is a
/// directory.
pub open spec fn boundary_needed(name: Seq<u8>, entry_type: Result<EntryType, IoFailure>) -> bool {
    name != git_entry() && is_entry_name(name) && entry_type == Ok::<EntryType, IoFailure>(
        EntryType::Directory,
    )
}

/// Whether the scan reads whether a folder below the entry holds `.git`:
/// only for a `__MACOSX` directory that does not hold `.git` itself.
pub open spec fn tree_search_needed(
    name: Seq<u8>,
    entry_type: Result<EntryType, IoFailure>,
    boundary: Result<bool, IoFailure>,
) -> bool {
    boundary_needed(name, entry_type) && boundary == Ok::<bool, IoFailure>(false) && component_kind(
        name,
    ) == Some(MetadataKind::MacosxDirectory)
}

/// Whether to look for `<entry>/.git`, as [`boundary_needed`] says.
pub fn needs_boundary(name: &[u8], entry_type: &Result<EntryType, IoFailure>) -> (r: bool)
    ensures
        r == boundary_needed(name@, *entry_type),
{
    if is_git_entry(name) || !entry_name_ok(name) {
        return false;
    }
    match entry_type {
        Ok(EntryType::Directory) => true,
        _ => false,
    }
}

/// Whether to search the entry's tree for `.git`, as
/// [`tree_search_needed`] says.
pub fn needs_tree_search(
    name: &[u8],
    entry_type: &Result<EntryType, IoFailure>,
    boundary: &Result<bool, IoFailure>,
) -> (r: bool)
    ensures
        r == tree_search_needed(name@, *entry_type, *boundary),
{
    if !needs_boundary(name, entry_type) {
        return false;
    }
    match boundary {
        Ok(false) => classify_filesystem_name(name) == Some(MetadataKind::MacosxDirectory),
        _ => false,
    }
}

/// What the scan does with an entry depends on whether it holds `.git` only
/// when [`boundary_needed`] says so, and on whether its tree does only when
/// [`tree_search_needed`] says so.
pub proof fn law_unneeded_observations_do_not_matter(
    root: Seq<u8>,
    dir: (Seq<u8>, Seq<u8>),
    a: RepoEntryObservation,
    b: RepoEntryObservation,
)
    requires
        a.name@ == b.name@,
        a.entry_type == b.entry_type,
        boundary_needed(a.name@, a.entry_type) ==> a.boundary == b.boundary,
        tree_search_needed(a.name@, a.entry_type, a.boundary) ==> a.tree_boundary
            == b.tree_boundary,
    ensures
        repo_entry_outcome(root, dir, Ok(a)) == repo_entry_outcome(root, dir, Ok(b)),
{
}

/// Whether a directory to scan is listed: it must still be a real
/// directory resolving inside the root; below the root, one holding `.git`
/// is another repository and is not listed.
pub open spec fn repo_directory_verdict(
    root: Seq<u8>,
    dir: (Seq<u8>, Seq<u8>),
    own_type: Result<EntryType, IoFailure>,
    canonical: Result<Vec<u8>, IoFailure>,
    boundary: Result<bool, IoFailure>,
) -> Result<bool, (RepoErrorKind, Seq<u8>, Seq<char>)> {
    if own_type is Err {
        Err((RepoErrorKind::CannotRevalidateDirectory, dir.0, own_type->Err_0.detail@))
    } else if own_type->Ok_0 != EntryType::Directory {
        Err((RepoErrorKind::DirectoryChanged, dir.0, no_detail()))
    } else if canonical is Err {
        Err((RepoErrorKind::CannotResolveDirectory, dir.0, canonical->Err_0.detail@))
    } else if !path_starts_with(canonical->Ok_0@, root) {
        Err((RepoErrorKind::DirectoryEscaped, dir.0, no_detail()))
    } else if dir.1.len() == 0 {
        Ok(true)
    } else {
        match boundary {
            Err(f) => Err((RepoErrorKind::CannotInspectBoundary, dir.0, f.detail@)),
            Ok(b) => Ok(!b),
        }
    }
}

/// The views of found entries.
pub open spec fn found_views(s: Seq<FoundEntry>) -> Seq<FoundView> {
    s.map_values(|c: FoundEntry| c.view_tuple())
}

/// The relative paths of found entries.
pub open spec fn found_rels(s: Seq<FoundEntry>) -> Seq<Seq<u8>> {
    s.map_values(|c: FoundEntry| c.view_tuple().1)
}

/// The views of pending directories.
pub open spec fn repo_pending_views(s: Seq<RepoPending>) -> Seq<(Seq<u8>, Seq<u8>)> {
    s.map_values(|d: RepoPending| d.view_pair())
}

/// The relative paths of pending directories.
pub open spec fn repo_pending_rels(s: Seq<RepoPending>) -> Seq<Seq<u8>> {
    s.map_values(|d: RepoPending| d.view_pair().1)
}

/// A working-tree directory to scan as a scan of `root` builds it: as
/// [`pending_fits`] says, and with no name `.git`.
pub open spec fn repo_pending_fits(root: Seq<u8>, d: (Seq<u8>, Seq<u8>)) -> bool {
    &&& pending_fits(root, d)
    &&& forall|i: int| 0 <= i < rel_parts(d.1).len() ==> #[trigger] rel_parts(d.1)[i] != git_entry()
}

/// Each path of `xs` is not nested with `d`, or is a child of `d` with a
/// name among `seen`.
pub open spec fn settled_against(xs: Seq<Seq<u8>>, d: Seq<u8>, seen: Seq<Seq<u8>>) -> bool {
    forall|i: int| 0 <= i < xs.len() ==> !nested(#[trigger] xs[i], d) || child_named(xs[i], d, seen)
}

proof fn lemma_settled_grow(xs: Seq<Seq<u8>>, d: Seq<u8>, seen: Seq<Seq<u8>>, n: Seq<u8>)
    requires
        settled_against(xs, d, seen),
    ensures
        settled_against(xs, d, seen.push(n)),
{
    assert forall|i: int| 0 <= i < xs.len() implies !nested(#[trigger] xs[i], d) || child_named(
        xs[i],
        d,
        seen.push(n),
    ) by {
        if nested(xs[i], d) {
            let k = choose|k: int| 0 <= k < seen.len() && seen[k] == rel_parts(xs[i]).last();
            assert(seen.push(n)[k] == seen[k]);
        }
    }
}

/// What is settled against `d` and its seen names is not nested with a
/// child of `d` of a new name.
proof fn lemma_settled_child(xs: Seq<Seq<u8>>, d: Seq<u8>, seen: Seq<Seq<u8>>, n: Seq<u8>)
    requires
        settled_against(xs, d, seen),
        !seen.contains(n),
        d.len() == 0 || is_plain_relative(d),
        is_entry_name(n),
    ensures
        forall|j: int| 0 <= j < xs.len() ==> !nested(#[trigger] xs[j], push_name(d, n)),
{
    assert forall|j: int| 0 <= j < xs.len() implies !nested(#[trigger] xs[j], push_name(d, n)) by {
        if !nested(xs[j], d) {
            lemma_fresh_child(xs[j], d, n);
        } else {
            lemma_child_apart(xs[j], d, rel_parts(xs[j]).last(), n);
        }
    }
}

/// A working-tree scan in progress: the layout, the directories still to
/// scan (a stack), the metadata entries found so far, and the directory
/// being listed with the names seen in it so far.
pub struct RepoScanner {
    layout: RepoLayout,
    pending: Vec<RepoPending>,
    found: Vec<FoundEntry>,
    current: Ghost<Option<(Seq<u8>, Seq<u8>)>>,
    seen: Ghost<Seq<Seq<u8>>>,
}

impl RepoScanner {
    /// The working-tree root.
    pub closed spec fn root_view(&self) -> Seq<u8> {
        self.layout.root@
    }

    /// The directories still to scan; the last is scanned next.
    pub closed spec fn pending_view(&self) -> Seq<(Seq<u8>, Seq<u8>)> {
        repo_pending_views(self.pending@)
    }

    /// The entries found so far, in discovery order.
    pub closed spec fn found_view(&self) -> Seq<FoundView> {
        found_views(self.found@)
    }

    /// The layout being scanned.
    pub closed spec fn layout_view(&self) -> (Seq<u8>, Seq<u8>, Seq<u8>) {
        (self.layout.root@, self.layout.git_dir@, self.layout.git_common_dir@)
    }

    /// The directory being listed: the last one handed out.
    pub closed spec fn current_dir(&self) -> Option<(Seq<u8>, Seq<u8>)> {
        self.current@
    }

    /// The names of the current directory's entries looked at so far.
    pub closed spec fn seen_names(&self) -> Seq<Seq<u8>> {
        self.seen@
    }

    /// The pending directories and found entries were built by this scan:
    /// each fits the root, no two of them are nested, and each is apart
    /// from the current directory or one of its children already seen.
    pub closed spec fn wf(&self) -> bool {
        &&& forall|i: int|
            0 <= i < self.pending@.len() ==> repo_pending_fits(
                self.layout.root@,
                (#[trigger] self.pending@[i]).view_pair(),
            )
        &&& forall|i: int|
            0 <= i < self.found@.len() ==> (#[trigger] self.found@[i]).fits_root(
                self.layout.root@,
            )
        &&& separated(found_rels(self.found@))
        &&& separated(repo_pending_rels(self.pending@))
        &&& apart(found_rels(self.found@), repo_pending_rels(self.pending@))
        &&& self.current@ matches Some(d) ==> repo_pending_fits(self.layout.root@, d)
            && settled_against(found_rels(self.found@), d.1, self.seen@) && settled_against(
            repo_pending_rels(self.pending@),
            d.1,
            self.seen@,
        )
    }

    /// Starts at the working-tree root.
    pub fn start(layout: RepoLayout) -> (s: RepoScanner)
        ensures
            s.wf(),
            s.layout_view() == (layout.root@, layout.git_dir@, layout.git_common_dir@),
            s.pending_view() == seq![(layout.root@, Seq::<u8>::empty())],
            s.found_view().len() == 0,
            s.current_dir() is None,
    {
        let first = RepoPending { path: copy_bytes(layout.root.as_slice()), relative: Vec::new() };
        let mut pending: Vec<RepoPending> = Vec::new();
        pending.push(first);
        let s = RepoScanner {
            layout,
            pending,
            found: Vec::new(),
            current: Ghost(None),
            seen: Ghost(Seq::empty()),
        };
        assert(s.pending_view() =~= seq![(s.layout.root@, Seq::<u8>::empty())]);
        assert(repo_pending_fits(s.layout.root@, first.view_pair())) by {
            assert(rel_parts(first.relative@).len() == 0);
        }
        assert(found_rels(s.found@).len() == 0);
        assert(repo_pending_rels(s.pending@).len() == 1);
        s
    }

    /// The next directory to scan (the most recently found), removed from
    /// the stack and made the current one, with no name seen yet; `None`
    /// when the scan is complete.
    pub fn next_directory(&mut self) -> (d: Option<RepoPending>)
        requires
            old(self).wf(),
        ensures
            final(self).wf(),
            final(self).layout_view() == old(self).layout_view(),
            final(self).found_view() == old(self).found_view(),
            old(self).pending_view().len() == 0 ==> d is None && final(self).pending_view()
                == old(self).pending_view(),
            old(self).pending_view().len() > 0 ==> (d matches Some(p) && p.view_pair() == old(
                self,
            ).pending_view().last() && final(self).pending_view() == old(
                self,
            ).pending_view().drop_last() && final(self).current_dir() == Some(p.view_pair())
                && final(self).seen_names().len() == 0),
    {
        let ghost before = self.pending@;
        let d = self.pending.pop();
        proof {
            if before.len() > 0 {
                let top = before.len() - 1;
                assert(repo_pending_views(self.pending@) =~= repo_pending_views(before).drop_last());
                assert(repo_pending_rels(self.pending@) =~= repo_pending_rels(before).drop_last());
                assert(d->0 == before[top]);
                let dr = repo_pending_rels(before)[top];
                assert forall|i: int| 0 <= i < found_rels(self.found@).len() implies !nested(
                    #[trigger] found_rels(self.found@)[i],
                    dr,
                ) by {}
                assert forall|i: int| 0 <= i < repo_pending_rels(self.pending@).len() implies !nested(
                    #[trigger] repo_pending_rels(self.pending@)[i],
                    dr,
                ) by {
                    assert(repo_pending_rels(self.pending@)[i] == repo_pending_rels(before)[i]);
                }
            }
        }
        match &d {
            Some(p) => {
                self.current = Ghost(Some(p.view_pair()));
                self.seen = Ghost(Seq::empty());
            },
            None => {},
        }
        d
    }
    /// Decides whether to list a directory, as [`repo_directory_verdict`]
    /// says: `symlink_metadata` of it, its `canonicalize`, and whether
    /// `<dir>/.git` exists (not asked for the root).
    pub fn enter(
        &self,
        dir: &RepoPending,
        own_type: Result<EntryType, IoFailure>,
        canonical: Result<Vec<u8>, IoFailure>,
        boundary: Result<bool, IoFailure>,
    ) -> (r: Result<bool, RepoError>)
        ensures
            match repo_directory_verdict(self.root_view(), dir.view_pair(), own_type, canonical, boundary) {
                Ok(b) => r == Ok::<bool, RepoError>(b),
                Err((k, p, d)) => r matches Err(e) && e.kind == k && e.path@ == p && e.detail@ == d,
            },
    {
        match own_type {
            Err(f) => {
                return Err(
                    RepoError::new(
                        RepoErrorKind::CannotRevalidateDirectory,
                        copy_bytes(dir.path.as_slice()),
                        f.detail,
                    ),
                );
            },
            Ok(t) => {
                if t != EntryType::Directory {
                    return fail(RepoErrorKind::DirectoryChanged, copy_bytes(dir.path.as_slice()));
                }
            },
        }
        match canonical {
            Err(f) => {
                return Err(
                    RepoError::new(
                        RepoErrorKind::CannotResolveDirectory,
                        copy_bytes(dir.path.as_slice()),
                        f.detail,
                    ),
                );
            },
            Ok(c) => {
                if !starts_with_exec(c.as_slice(), self.layout.root.as_slice()) {
                    return fail(RepoErrorKind::DirectoryEscaped, copy_bytes(dir.path.as_slice()));
                }
            },
        }
        if dir.relative.len() == 0 {
            return Ok(true);
        }
        match boundary {
            Err(f) => Err(
                RepoError::new(
                    RepoErrorKind::CannotInspectBoundary,
                    copy_bytes(dir.path.as_slice()),
                    f.detail,
                ),
            ),
            Ok(b) => Ok(!b),
        }
    }

    /// The error for a directory that could not be listed.
    pub fn unreadable(dir: &RepoPending, failure: IoFailure) -> (e: RepoError)
        ensures
            e.kind == RepoErrorKind::CannotReadDirectory,
            e.path@ == dir.view_pair().0,
    {
        RepoError::new(RepoErrorKind::CannotReadDirectory, copy_bytes(dir.path.as_slice()), failure.detail)
    }

    /// Looks at one entry of the current directory, as
    /// [`repo_entry_outcome`] says: a candidate or a directory to scan is
    /// added. Its name is then seen.
    pub fn visit_entry(&mut self, dir: &RepoPending, entry: Result<RepoEntryObservation, IoFailure>) -> (r: Result<
        (),
        RepoError,
    >)
        requires
            old(self).wf(),
            old(self).current_dir() == Some(dir.view_pair()),
            entry matches Ok(o) ==> !old(self).seen_names().contains(o.name@)
                && dir.view_pair().0.len() + o.name@.len() + 1 <= isize::MAX
                && old(self).root_view().len() + dir.view_pair().1.len() + o.name@.len() + 3
                <= isize::MAX,
        ensures
            final(self).wf(),
            final(self).layout_view() == old(self).layout_view(),
            final(self).current_dir() == old(self).current_dir(),
            final(self).seen_names() == match entry {
                Ok(o) => old(self).seen_names().push(o.name@),
                Err(_) => old(self).seen_names(),
            },
            r is Err ==> final(self).found_view() == old(self).found_view()
                && final(self).pending_view() == old(self).pending_view(),
            match repo_entry_outcome(old(self).root_view(), dir.view_pair(), entry) {
                RepoEntryOutcome::Fail(k, p, d) => r matches Err(e) && e.kind == k && e.path@ == p
                    && e.detail@ == d,
                RepoEntryOutcome::Skip => r is Ok && final(self).found_view() == old(self).found_view() && final(self).pending_view() == old(self).pending_view(),
                RepoEntryOutcome::Descend(p, q) => r is Ok && final(self).found_view() == old(self).found_view() && final(self).pending_view() == old(self).pending_view().push(
                    (p, q),
                ),
                RepoEntryOutcome::Candidate(p, q, k, t) => r is Ok && final(self).found_view()
                    == old(self).found_view().push((p, q, k, t)) && final(self).pending_view()
                    == old(self).pending_view(),
            },
    {
        let o = match entry {
            Err(f) => {
                return Err(
                    RepoError::new(
                        RepoErrorKind::CannotReadEntry,
                        copy_bytes(dir.path.as_slice()),
                        f.detail,
                    ),
                );
            },
            Ok(o) => o,
        };
        let ghost n = o.name@;
        let ghost d_rel = dir.relative@;
        let ghost root = self.layout.root@;
        let ghost seen0 = self.seen@;
        proof {
            lemma_settled_grow(found_rels(self.found@), d_rel, seen0, n);
            lemma_settled_grow(repo_pending_rels(self.pending@), d_rel, seen0, n);
        }
        self.seen = Ghost(seen0.push(n));
        if is_git_entry(o.name.as_slice()) {
            return Ok(());
        }
        if !entry_name_ok(o.name.as_slice()) {
            return fail(
                RepoErrorKind::UnusableEntryName,
                push_name_exec(dir.path.as_slice(), o.name.as_slice()),
            );
        }
        let path = push_name_exec(dir.path.as_slice(), o.name.as_slice());
        let t = match o.entry_type {
            Err(f) => {
                return Err(RepoError::new(RepoErrorKind::CannotInspectEntry, path, f.detail));
            },
            Ok(t) => t,
        };
        let kind = classify_filesystem_name(o.name.as_slice());
        let ghost x = push_name(d_rel, n);
        proof {
            lemma_plain_push(d_rel, n);
            lemma_rel_parts_push(d_rel, n);
            lemma_under_root_push(root, d_rel, n);
            lemma_split_parts_len(x);
            lemma_settled_child(found_rels(self.found@), d_rel, seen0, n);
            lemma_settled_child(repo_pending_rels(self.pending@), d_rel, seen0, n);
            assert(self.seen@[seen0.len() as int] == n);
            assert(child_named(x, d_rel, self.seen@)) by {
                assert(rel_parts(x).drop_last() =~= rel_parts(d_rel));
            }
            assert forall|q: int| 0 <= q < rel_parts(x).len() implies #[trigger] rel_parts(x)[q]
                != git_entry() by {
                if q < rel_parts(d_rel).len() {
                    assert(rel_parts(x)[q] == rel_parts(d_rel)[q]);
                }
            }
        }
        let rel = push_name_exec(dir.relative.as_slice(), o.name.as_slice());
        let selected: Option<(MetadataKind, CandidateType)> = match t {
            EntryType::Symlink => match kind {
                Some(k) => Some((k, CandidateType::Symlink)),
                None => None,
            },
            EntryType::Directory => {
                match o.boundary {
                    Err(f) => {
                        return Err(
                            RepoError::new(RepoErrorKind::CannotInspectBoundary, path, f.detail),
                        );
                    },
                    Ok(b) => {
                        if b {
                            return Ok(());
                        }
                    },
                }
                if kind == Some(MetadataKind::MacosxDirectory) {
                    match o.tree_boundary {
                        Err(e) => {
                            return Err(e);
                        },
                        Ok(tb) => {
                            if tb {
                                return Ok(());
                            }
                        },
                    }
                    Some((MetadataKind::MacosxDirectory, CandidateType::Directory))
                } else {
                    let ghost before = self.pending@;
                    let d = RepoPending { path, relative: rel };
                    proof {
                        assert forall|q: int| 0 <= q < rel_parts(x).len() implies component_kind(
                            #[trigger] rel_parts(x)[q],
                        ) != Some(MetadataKind::MacosxDirectory) by {
                            if q < rel_parts(d_rel).len() {
                                assert(rel_parts(x)[q] == rel_parts(d_rel)[q]);
                            }
                        }
                        assert(repo_pending_fits(root, d.view_pair()));
                        lemma_separated_push(repo_pending_rels(before), x);
                        lemma_apart_push_right(found_rels(self.found@), repo_pending_rels(before), x);
                    }
                    self.pending.push(d);
                    proof {
                        assert(repo_pending_rels(self.pending@) =~= repo_pending_rels(before).push(x));
                        assert forall|k: int| 0 <= k < self.pending@.len() implies repo_pending_fits(
                            root,
                            (#[trigger] self.pending@[k]).view_pair(),
                        ) by {
                            if k < before.len() {
                                assert(self.pending@[k] == before[k]);
                            }
                        }
                        assert forall|k: int| 0 <= k < repo_pending_rels(self.pending@).len() implies !nested(
                            #[trigger] repo_pending_rels(self.pending@)[k],
                            d_rel,
                        ) || child_named(repo_pending_rels(self.pending@)[k], d_rel, self.seen@) by {
                            if k < before.len() {
                                assert(repo_pending_rels(self.pending@)[k] == repo_pending_rels(before)[k]);
                            }
                        }
                        assert(repo_pending_views(self.pending@) =~= repo_pending_views(before).push(
                            d.view_pair(),
                        ));
                    }
                    return Ok(());
                }
            },
            EntryType::File => match kind {
                Some(MetadataKind::DsStore) => Some(
                    (MetadataKind::DsStore, CandidateType::RegularFile),
                ),
                Some(MetadataKind::AppleDouble) => Some(
                    (MetadataKind::AppleDouble, CandidateType::RegularFile),
                ),
                _ => None,
            },
            EntryType::Other => None,
        };
        let (k, ctype) = match selected {
            None => {
                return Ok(());
            },
            Some(sel) => sel,
        };
        if !strips_to_exec(path.as_slice(), self.layout.root.as_slice(), rel.as_slice()) {
            return fail(RepoErrorKind::EntryEscaped, path);
        }
        match git_path_key(rel.as_slice()) {
            Err(e) => {
                return Err(e);
            },
            Ok(_) => {},
        }
        let ghost before = self.found@;
        let c = FoundEntry { path, relative_path: rel, metadata_kind: k, candidate_type: ctype };
        proof {
            assert(rel_parts(x) == split_parts(x));
            assert forall|q: int| 0 <= q < split_parts(x).len() - 1 implies component_kind(
                #[trigger] split_parts(x)[q],
            ) != Some(MetadataKind::MacosxDirectory) by {
                assert(split_parts(x)[q] == rel_parts(d_rel)[q]);
            }
            assert(c.fits_root(root));
            lemma_separated_push(found_rels(before), x);
            lemma_apart_push_left(found_rels(before), repo_pending_rels(self.pending@), x);
        }
        self.found.push(c);
        proof {
            assert(found_rels(self.found@) =~= found_rels(before).push(x));
            assert forall|j: int| 0 <= j < self.found@.len() implies (
            #[trigger] self.found@[j]).fits_root(root) by {
                if j < before.len() {
                    assert(self.found@[j] == before[j]);
                }
            }
            assert forall|j: int| 0 <= j < found_rels(self.found@).len() implies !nested(
                #[trigger] found_rels(self.found@)[j],
                d_rel,
            ) || child_named(found_rels(self.found@)[j], d_rel, self.seen@) by {
                if j < before.len() {
                    assert(found_rels(self.found@)[j] == found_rels(before)[j]);
                }
            }
            assert(found_views(self.found@) =~= found_views(before).push(c.view_tuple()));
        }
        Ok(())
    }
}


// ----- The completed scan -----

/// A metadata entry of the working tree selected for removal, with Git's
/// view of it.
#[derive(Debug, Clone, PartialEq, Eq)]
pub struct RepoCandidate {
    path: Vec<u8>,
    relative_path: Vec<u8>,
    metadata_kind: MetadataKind,
    candidate_type: CandidateType,
    git_status: RepoGitStatus,
}

/// A candidate as values: path, relative path, kind, type, Git status.
pub type RepoCandidateView = (Seq<u8>, Seq<u8>, MetadataKind, CandidateType, RepoGitStatus);

impl RepoCandidate {
    /// This candidate as values.
    pub closed spec fn view_tuple(&self) -> RepoCandidateView {
        (self.path@, self.relative_path@, self.metadata_kind, self.candidate_type, self.git_status)
    }

    /// As a scan of `root` lists it: its entry as [`listed_repo_entry`]
    /// says, and only a directory is mixed.
    pub open spec fn fits_root(&self, root: Seq<u8>) -> bool {
        &&& listed_repo_entry(
            root,
            (self.view_tuple().0, self.view_tuple().1, self.view_tuple().2, self.view_tuple().3),
        )
        &&& self.view_tuple().4 == RepoGitStatus::Mixed ==> self.view_tuple().3
            == CandidateType::Directory
    }

    /// The full path.
    pub fn path(&self) -> (p: &[u8])
        ensures
            p@ == self.view_tuple().0,
    {
        self.path.as_slice()
    }

    /// The path relative to the working-tree root.
    pub fn relative_path(&self) -> (p: &[u8])
        ensures
            p@ == self.view_tuple().1,
    {
        self.relative_path.as_slice()
    }

    /// What kind of metadata it is.
    pub fn metadata_kind(&self) -> (k: MetadataKind)
        ensures
            k == self.view_tuple().2,
    {
        self.metadata_kind
    }

    /// What kind of object it is.
    pub fn candidate_type(&self) -> (t: CandidateType)
        ensures
            t == self.view_tuple().3,
    {
        self.candidate_type
    }

    /// How Git sees it.
    pub fn git_status(&self) -> (g: RepoGitStatus)
        ensures
            g == self.view_tuple().4,
    {
        self.git_status
    }

    /// Whether it is shown with a trailing `/`.
    pub fn display_as_directory(&self) -> (d: bool)
        ensures
            d == (self.view_tuple().3 == CandidateType::Directory),
    {
        self.candidate_type == CandidateType::Directory
    }
}

impl PathKeyed for RepoCandidate {
    open spec fn path_key(&self) -> Seq<u8> {
        self.view_tuple().1
    }

    fn path_key_bytes(&self) -> (k: &[u8]) {
        self.relative_path.as_slice()
    }
}

/// The views of candidates.
pub open spec fn repo_candidate_views(s: Seq<RepoCandidate>) -> Seq<RepoCandidateView> {
    s.map_values(|c: RepoCandidate| c.view_tuple())
}

/// A found entry as values with the status Git's view gives its key.
pub open spec fn status_view(f: FoundView, st: GitPathsView) -> RepoCandidateView {
    (f.0, f.1, f.2, f.3, git_status(st, git_key(f.1)->Ok_0, f.3))
}

/// A found entry with Git's view of it.
closed spec fn with_status(e: FoundEntry, st: GitPathsView) -> RepoCandidate {
    RepoCandidate {
        path: e.path,
        relative_path: e.relative_path,
        metadata_kind: e.metadata_kind,
        candidate_type: e.candidate_type,
        git_status: git_status(st, git_key(e.relative_path@)->Ok_0, e.candidate_type),
    }
}

/// A completed repository scan: the layout and the candidates, sorted by
/// relative path.
#[derive(Debug, Clone, PartialEq, Eq)]
pub struct RepoScan {
    root: Vec<u8>,
    git_dir: Vec<u8>,
    git_common_dir: Vec<u8>,
    candidates: Vec<RepoCandidate>,
}

impl RepoScan {
    /// The layout as values: root, Git directory, common Git directory.
    pub closed spec fn layout_view(&self) -> (Seq<u8>, Seq<u8>, Seq<u8>) {
        (self.root@, self.git_dir@, self.git_common_dir@)
    }

    /// The candidates.
    pub closed spec fn candidate_list(&self) -> Seq<RepoCandidate> {
        self.candidates@
    }

    /// As a scan lists them: every candidate fits the root (see
    /// [`RepoCandidate::fits_root`]); the relative paths strictly increase;
    /// and no candidate lies at or below another.
    pub open spec fn wf(&self) -> bool {
        &&& forall|i: int|
            0 <= i < self.candidate_list().len() ==> (#[trigger] self.candidate_list()[i]).fits_root(
                self.layout_view().0,
            )
        &&& strictly_sorted_by_key(self.candidate_list())
        &&& forall|i: int, j: int|
            0 <= i < self.candidate_list().len() && 0 <= j < self.candidate_list().len() && i != j
                ==> !nested(
                (#[trigger] self.candidate_list()[i]).view_tuple().1,
                (#[trigger] self.candidate_list()[j]).view_tuple().1,
            )
    }

    /// The working-tree root.
    pub fn root(&self) -> (r: &[u8])
        ensures
            r@ == self.layout_view().0,
    {
        self.root.as_slice()
    }

    /// The Git directory.
    pub fn git_dir(&self) -> (r: &[u8])
        ensures
            r@ == self.layout_view().1,
    {
        self.git_dir.as_slice()
    }

    /// The common Git directory.
    pub fn git_common_dir(&self) -> (r: &[u8])
        ensures
            r@ == self.layout_view().2,
    {
        self.git_common_dir.as_slice()
    }

    /// The candidates, sorted by relative path.
    pub fn candidates(&self) -> (c: &[RepoCandidate])
        ensures
            c@ == self.candidate_list(),
    {
        self.candidates.as_slice()
    }

    /// Whether nothing was found.
    pub fn is_empty(&self) -> (r: bool)
        ensures
            r == (self.candidate_list().len() == 0),
    {
        self.candidates.len() == 0
    }
}

impl RepoScanner {
    /// The completed scan: each entry found gets Git's view of its key, and
    /// the candidates are sorted by relative path.
    pub fn finish(self, state: &GitPathState) -> (scan: RepoScan)
        requires
            self.wf(),
            self.pending_view().len() == 0,
        ensures
            scan.wf(),
            scan.layout_view() == self.layout_view(),
            repo_candidate_views(scan.candidate_list()).to_multiset() == self.found_view().map_values(
                |f: FoundView| status_view(f, state.view_lists()),
            ).to_multiset(),
    {
        let ghost st = state.view_lists();
        let ghost found0 = self.found@;
        let ghost root = self.layout.root@;
        let ghost target = found0.map_values(|e: FoundEntry| with_status(e, st));
        let mut found = self.found;
        let mut built: Vec<RepoCandidate> = Vec::new();
        let mut i: usize = 0;
        let n = found.len();
        while found.len() > 0
            invariant
                i + found@.len() == found0.len(),
                found0.len() == n,
                found@ == found0.subrange(i as int, found0.len() as int),
                built@ == target.subrange(0, i as int),
                st == state.view_lists(),
                target == found0.map_values(|e: FoundEntry| with_status(e, st)),
                forall|j: int| 0 <= j < found0.len() ==> (#[trigger] found0[j]).fits_root(root),
            decreases found@.len(),
        {
            let e = found.remove(0);
            assert(e == found0[i as int]);
            assert(e.fits_root(root));
            let key = match git_path_key(e.relative_path.as_slice()) {
                Ok(k) => k,
                Err(_) => {
                    assert(false);
                    Vec::new()
                },
            };
            let status = state.classify(key.as_slice(), e.candidate_type);
            let c = RepoCandidate {
                path: e.path,
                relative_path: e.relative_path,
                metadata_kind: e.metadata_kind,
                candidate_type: e.candidate_type,
                git_status: status,
            };
            assert(c == with_status(found0[i as int], st));
            built.push(c);
            assert(built@ =~= target.subrange(0, i + 1));
            i = i + 1;
            assert(found@ =~= found0.subrange(i as int, found0.len() as int));
        }
        assert(built@ =~= target);
        let candidates = sort_by_path_key(built);
        let scan = RepoScan {
            root: self.layout.root,
            git_dir: self.layout.git_dir,
            git_common_dir: self.layout.git_common_dir,
            candidates,
        };
        let ghost sorted = scan.candidates@;
        proof {
            assert forall|j: int| 0 <= j < target.len() implies (#[trigger] target[j]).fits_root(
                root,
            ) by {
                assert(found0[j].fits_root(root));
                assert(target[j] == with_status(found0[j], st));
            }
            assert forall|a: int, b: int|
                0 <= a < target.len() && 0 <= b < target.len() && a != b implies target[a].path_key()
                != target[b].path_key() by {
                assert(!nested(found_rels(found0)[a], found_rels(found0)[b]));
                assert(target[a].path_key() == found_rels(found0)[a]);
                assert(target[b].path_key() == found_rels(found0)[b]);
                if target[a].path_key() == target[b].path_key() {
                    assert(rel_parts(target[a].path_key()).subrange(
                        0,
                        rel_parts(target[a].path_key()).len() as int,
                    ) =~= rel_parts(target[a].path_key()));
                }
            }
            lemma_sorted_distinct_is_strict(target, sorted);
            assert(repo_candidate_views(target) =~= found_views(found0).map_values(
                |f: FoundView| status_view(f, st),
            ));
            lemma_rearranged_map(sorted, target, |c: RepoCandidate| c.view_tuple());
        }
        assert forall|j: int| 0 <= j < sorted.len() implies (#[trigger] sorted[j]).fits_root(root) by {
            let c = sorted[j];
            vstd::seq_lib::to_multiset_contains(sorted, c);
            vstd::seq_lib::to_multiset_contains(target, c);
            let k = choose|k: int| 0 <= k < target.len() && target[k] == c;
            assert(target[k].fits_root(root));
        }
        assert forall|a: int, b: int|
            0 <= a < sorted.len() && 0 <= b < sorted.len() && a != b implies !nested(
            (#[trigger] sorted[a]).view_tuple().1,
            (#[trigger] sorted[b]).view_tuple().1,
        ) by {
            vstd::seq_lib::to_multiset_contains(sorted, sorted[a]);
            vstd::seq_lib::to_multiset_contains(target, sorted[a]);
            vstd::seq_lib::to_multiset_contains(sorted, sorted[b]);
            vstd::seq_lib::to_multiset_contains(target, sorted[b]);
            assert(sorted.contains(sorted[a]));
            assert(sorted.contains(sorted[b]));
            let p = choose|k: int| 0 <= k < target.len() && target[k] == sorted[a];
            let q = choose|k: int| 0 <= k < target.len() && target[k] == sorted[b];
            assert(sorted[a].path_key() != sorted[b].path_key());
            assert(p != q);
            assert(!nested(found_rels(found0)[p], found_rels(found0)[q]));
            assert(target[p].view_tuple().1 == found_rels(found0)[p]);
            assert(target[q].view_tuple().1 == found_rels(found0)[q]);
        }
        scan
    }
}


// ----- Removing the candidates -----

/// One path lies inside the other (or they are the same).
pub open spec fn paths_intersect(a: Seq<u8>, b: Seq<u8>) -> bool {
    path_starts_with(a, b) || path_starts_with(b, a)
}

/// The first directory of `chain`, from `from` on, that could not be
/// inspected, is no longer a real directory, or now holds `.git` (or whose
/// `.git` could not be looked for).
pub open spec fn repo_parents_verdict(
    chain: Seq<Seq<u8>>,
    types: Seq<Result<EntryType, IoFailure>>,
    boundaries: Seq<Result<bool, IoFailure>>,
    from: int,
) -> Option<(RepoErrorKind, Seq<u8>, Seq<char>)>
    decreases chain.len() - from,
{
    if from < 0 || from >= chain.len() {
        None
    } else {
        match types[from] {
            Err(f) => Some((RepoErrorKind::CannotRevalidateParent, chain[from], f.detail@)),
            Ok(t) => if t != EntryType::Directory {
                Some((RepoErrorKind::ParentChanged, chain[from], no_detail()))
            } else {
                match boundaries[from] {
                    Err(g) => Some((RepoErrorKind::CannotInspectBoundary, chain[from], g.detail@)),
                    Ok(b) => if b {
                        Some((RepoErrorKind::NestedBoundaryAppeared, chain[from], no_detail()))
                    } else {
                        repo_parents_verdict(chain, types, boundaries, from + 1)
                    },
                }
            },
        }
    }
}

/// What was observed of one candidate before removing it: for each
/// directory of its parent chain its type (`symlink_metadata`) and whether
/// it holds `.git`; what the parent resolves to; the candidate's own type;
/// and, for a folder, whether its tree holds `.git`.
#[derive(Debug)]
pub struct RepoCandidateObservation {
    /// The type of each directory of the parent chain, in order.
    pub parent_types: Vec<Result<EntryType, IoFailure>>,
    /// Whether each directory of the parent chain holds `.git`.
    pub parent_boundaries: Vec<Result<bool, IoFailure>>,
    /// What the parent directory resolves to.
    pub parent_canonical: Result<Vec<u8>, IoFailure>,
    /// The candidate's own type.
    pub own_type: Result<EntryType, IoFailure>,
    /// For a folder: whether its tree holds `.git`.
    pub tree_boundary: Result<bool, RepoError>,
}

/// The first problem with a candidate before removing it: its relative
/// path must still be a Git key and its path the root joined with it; it
/// must not touch a Git directory; every directory of its parent chain must
/// be a real directory without `.git`, the parent resolve inside the root,
/// the candidate exist with the same type and a name of the same kind, and
/// a folder hold no `.git` anywhere below.
pub open spec fn repo_candidate_verdict(
    layout: (Seq<u8>, Seq<u8>, Seq<u8>),
    c: RepoCandidateView,
    obs: RepoCandidateObservation,
) -> Option<(RepoErrorKind, Seq<u8>, Seq<char>)> {
    let (root, git_dir, common) = layout;
    let (path, rel, kind, ctype, _) = c;
    if git_key(rel) is Err {
        Some((git_key(rel)->Err_0, key_error_path(rel, git_key(rel)->Err_0), no_detail()))
    } else if !strips_to(path, root, rel) {
        Some((RepoErrorKind::CandidateEscaped, path, no_detail()))
    } else if paths_intersect(path, git_dir) || paths_intersect(path, common) {
        Some((RepoErrorKind::GitInternalPath, path, no_detail()))
    } else if repo_parents_verdict(
        parent_chain(root, rel),
        obs.parent_types@,
        obs.parent_boundaries@,
        0,
    ) is Some {
        repo_parents_verdict(parent_chain(root, rel), obs.parent_types@, obs.parent_boundaries@, 0)
    } else if obs.parent_canonical is Err {
        Some(
            (
                RepoErrorKind::CannotResolveParent,
                resolved_parent(root, rel),
                obs.parent_canonical->Err_0.detail@,
            ),
        )
    } else if !path_starts_with(obs.parent_canonical->Ok_0@, root) {
        Some((RepoErrorKind::ParentEscaped, resolved_parent(root, rel), no_detail()))
    } else if obs.own_type is Err {
        Some((RepoErrorKind::CandidateChangedOrDisappeared, rel, obs.own_type->Err_0.detail@))
    } else if candidate_type_of(obs.own_type->Ok_0) != Some(ctype) {
        Some((RepoErrorKind::CandidateChangedType, rel, no_detail()))
    } else if file_name(path) is None {
        Some((RepoErrorKind::CandidateHasNoFilename, Seq::<u8>::empty(), no_detail()))
    } else if component_kind(file_name(path)->0) != Some(kind) {
        Some((RepoErrorKind::CandidateChangedName, rel, no_detail()))
    } else if ctype == CandidateType::Directory {
        match obs.tree_boundary {
            Err(e) => Some((e.kind, e.path@, e.detail@)),
            Ok(b) => if b {
                Some((RepoErrorKind::NestedBoundaryInCandidate, rel, no_detail()))
            } else {
                None
            },
        }
    } else {
        None
    }
}

/// Checks a candidate before it is removed, as [`repo_candidate_verdict`]
/// says.
fn check_repo_candidate(
    root: &[u8],
    git_dir: &[u8],
    common: &[u8],
    c: &RepoCandidate,
    obs: &RepoCandidateObservation,
) -> (r: Result<(), RepoError>)
    requires
        c.fits_root(root@),
        obs.parent_types@.len() == parent_chain(root@, c.view_tuple().1).len(),
        obs.parent_boundaries@.len() == parent_chain(root@, c.view_tuple().1).len(),
    ensures
        match repo_candidate_verdict((root@, git_dir@, common@), c.view_tuple(), *obs) {
            Some((k, p, d)) => r matches Err(e) && e.kind == k && e.path@ == p && e.detail@ == d,
            None => r is Ok,
        },
{
    let ghost rel = c.relative_path@;
    match git_path_key(c.relative_path.as_slice()) {
        Err(e) => {
            return Err(e);
        },
        Ok(_) => {},
    }
    if !strips_to_exec(c.path.as_slice(), root, c.relative_path.as_slice()) {
        return fail(RepoErrorKind::CandidateEscaped, copy_bytes(c.path.as_slice()));
    }
    if starts_with_exec(c.path.as_slice(), git_dir) || starts_with_exec(git_dir, c.path.as_slice())
        || starts_with_exec(c.path.as_slice(), common) || starts_with_exec(
        common,
        c.path.as_slice(),
    ) {
        return fail(RepoErrorKind::GitInternalPath, copy_bytes(c.path.as_slice()));
    }
    let chain = parent_chain_exec(root, c.relative_path.as_slice());
    let ghost cs = parent_chain(root@, rel);
    assert(byte_seqs(chain@).len() == chain@.len());
    let mut i: usize = 0;
    while i < chain.len()
        invariant
            i <= chain.len(),
            byte_seqs(chain@) == cs,
            cs == parent_chain(root@, rel),
            rel == c.relative_path@,
            git_key(rel) is Ok,
            strips_to(c.path@, root@, rel),
            !(paths_intersect(c.path@, git_dir@) || paths_intersect(c.path@, common@)),
            cs.len() == chain@.len(),
            obs.parent_types@.len() == cs.len(),
            obs.parent_boundaries@.len() == cs.len(),
            repo_parents_verdict(cs, obs.parent_types@, obs.parent_boundaries@, 0)
                == repo_parents_verdict(cs, obs.parent_types@, obs.parent_boundaries@, i as int),
        decreases chain.len() - i,
    {
        assert(chain@[i as int]@ == cs[i as int]);
        match &obs.parent_types[i] {
            Err(f) => {
                return Err(
                    RepoError::new(
                        RepoErrorKind::CannotRevalidateParent,
                        copy_bytes(chain[i].as_slice()),
                        f.detail.clone(),
                    ),
                );
            },
            Ok(t) => {
                if *t != EntryType::Directory {
                    return fail(RepoErrorKind::ParentChanged, copy_bytes(chain[i].as_slice()));
                }
            },
        }
        match &obs.parent_boundaries[i] {
            Err(f) => {
                return Err(
                    RepoError::new(
                        RepoErrorKind::CannotInspectBoundary,
                        copy_bytes(chain[i].as_slice()),
                        f.detail.clone(),
                    ),
                );
            },
            Ok(b) => {
                if *b {
                    return fail(
                        RepoErrorKind::NestedBoundaryAppeared,
                        copy_bytes(chain[i].as_slice()),
                    );
                }
            },
        }
        i = i + 1;
    }
    let parent = if chain.len() == 0 {
        copy_bytes(root)
    } else {
        copy_bytes(chain[chain.len() - 1].as_slice())
    };
    assert(parent@ == resolved_parent(root@, rel));
    match &obs.parent_canonical {
        Err(f) => {
            return Err(RepoError::new(RepoErrorKind::CannotResolveParent, parent, f.detail.clone()));
        },
        Ok(p) => {
            if !starts_with_exec(p.as_slice(), root) {
                return fail(RepoErrorKind::ParentEscaped, parent);
            }
        },
    }
    match &obs.own_type {
        Err(f) => {
            return Err(
                RepoError::new(
                    RepoErrorKind::CandidateChangedOrDisappeared,
                    copy_bytes(c.relative_path.as_slice()),
                    f.detail.clone(),
                ),
            );
        },
        Ok(t) => {
            if classify_type(*t) != Some(c.candidate_type) {
                return fail(
                    RepoErrorKind::CandidateChangedType,
                    copy_bytes(c.relative_path.as_slice()),
                );
            }
        },
    }
    match file_name_exec(c.path.as_slice()) {
        None => {
            return fail_plain(RepoErrorKind::CandidateHasNoFilename);
        },
        Some(n) => {
            if classify_component(n.as_slice()) != Some(c.metadata_kind) {
                return fail(
                    RepoErrorKind::CandidateChangedName,
                    copy_bytes(c.relative_path.as_slice()),
                );
            }
        },
    }
    if c.candidate_type == CandidateType::Directory {
        match &obs.tree_boundary {
            Err(e) => {
                return Err(RepoError::new(e.kind, copy_bytes(e.path.as_slice()), e.detail.clone()));
            },
            Ok(b) => {
                if *b {
                    return fail(
                        RepoErrorKind::NestedBoundaryInCandidate,
                        copy_bytes(c.relative_path.as_slice()),
                    );
                }
            },
        }
    }
    Ok(())
}


/// A failed repository removal: the error, and the relative paths already
/// removed.
#[derive(Debug)]
pub struct RepoApplyError {
    error: RepoError,
    removed: Vec<Vec<u8>>,
}

impl RepoApplyError {
    /// The error.
    pub closed spec fn error_view(&self) -> RepoError {
        self.error
    }

    /// The relative paths removed before the error.
    pub closed spec fn removed_view(&self) -> Seq<Seq<u8>> {
        byte_seqs(self.removed@)
    }

    /// What went wrong.
    pub fn error(&self) -> (e: &RepoError)
        ensures
            *e == self.error_view(),
    {
        &self.error
    }

    /// The relative paths removed before the error, in order.
    pub fn removed(&self) -> (r: &[Vec<u8>])
        ensures
            byte_seqs(r@) == self.removed_view(),
    {
        self.removed.as_slice()
    }
}

/// A completed repository removal: the relative paths removed, in order.
#[derive(Debug, Clone, PartialEq, Eq)]
pub struct RepoApplyReport {
    /// The relative paths removed.
    pub removed: Vec<Vec<u8>>,
}

/// The relative paths of repository candidates, in order.
pub open spec fn repo_relative_paths(cs: Seq<RepoCandidate>) -> Seq<Seq<u8>> {
    cs.map_values(|c: RepoCandidate| c.view_tuple().1)
}

/// Whether the repository, discovered again from the scanned root, still
/// has the scanned layout.
pub open spec fn layout_verdict(
    scanned: (Seq<u8>, Seq<u8>, Seq<u8>),
    again: Result<RepoLayout, RepoError>,
) -> Option<(RepoErrorKind, Seq<u8>, Seq<char>)> {
    match again {
        Err(e) => Some((e.kind, e.path@, e.detail@)),
        Ok(l) => if components(l.root@) != components(scanned.0) || components(l.git_dir@)
            != components(scanned.1) || components(l.git_common_dir@) != components(scanned.2) {
            Some((RepoErrorKind::LayoutChanged, scanned.0, no_detail()))
        } else {
            None
        },
    }
}

/// What to inspect before removing a repository candidate: the directories
/// of its parent chain, the parent to resolve, and the candidate itself.
#[derive(Debug)]
pub struct RepoCandidateProbe {
    /// The directories between the root and the candidate, outermost first.
    pub parents: Vec<Vec<u8>>,
    /// The parent directory to resolve.
    pub parent: Vec<u8>,
    /// The candidate's path.
    pub path: Vec<u8>,
}

/// An in-place removal of a repository scan's candidates: every candidate
/// is checked first, then each is checked again and removed, in scan order.
pub struct RepoCleanup {
    scan: RepoScan,
    step: CleanupStep,
    removed: Vec<Vec<u8>>,
    verified: Ghost<nat>,
}

impl RepoCleanup {
    /// The scan being applied.
    pub closed spec fn scan_view(&self) -> RepoScan {
        self.scan
    }

    /// The current step.
    pub closed spec fn stage(&self) -> CleanupStep {
        self.step
    }

    /// The relative paths removed so far, in order.
    pub closed spec fn removed_view(&self) -> Seq<Seq<u8>> {
        byte_seqs(self.removed@)
    }

    /// How many candidates passed the check made before any removal.
    pub closed spec fn preflight_passed(&self) -> nat {
        self.verified@
    }

    /// The number of candidates.
    pub open spec fn count(&self) -> int {
        self.scan_view().candidate_list().len() as int
    }

    /// The candidate the current step concerns.
    pub open spec fn current_view(&self) -> RepoCandidate {
        self.scan_view().candidate_list()[step_index(self.stage())]
    }

    /// The state agrees with the scan: nothing is removed while checking,
    /// the removed paths are the first candidates' in order, and removal
    /// starts only after every candidate passed its first check.
    pub closed spec fn wf(&self) -> bool {
        let n = self.scan.candidates@.len();
        let rels = repo_relative_paths(self.scan.candidates@);
        &&& self.scan.wf()
        &&& match self.step {
            CleanupStep::Verify(i) => i < n && self.removed@.len() == 0 && self.verified@ == i,
            CleanupStep::Recheck(i) => i < n && byte_seqs(self.removed@) == rels.subrange(
                0,
                i as int,
            ) && self.verified@ == n,
            CleanupStep::Remove(i) => i < n && byte_seqs(self.removed@) == rels.subrange(
                0,
                i as int,
            ) && self.verified@ == n,
            CleanupStep::Finished => byte_seqs(self.removed@) == rels && self.verified@ == n,
        }
    }

    /// Starts applying `scan` once the repository, discovered again from
    /// its root, still has the scanned layout, as [`layout_verdict`] says.
    pub fn begin(scan: RepoScan, again: Result<RepoLayout, RepoError>) -> (r: Result<
        RepoCleanup,
        RepoApplyError,
    >)
        requires
            scan.wf(),
        ensures
            match layout_verdict(scan.layout_view(), again) {
                Some((k, p, d)) => r matches Err(e) && e.error_view().kind == k
                    && e.error_view().path@ == p && e.error_view().detail@ == d
                    && e.removed_view().len() == 0,
                None => r matches Ok(c) && c.wf() && c.scan_view() == scan
                    && c.removed_view().len() == 0 && c.stage() == (if scan.candidate_list().len()
                    > 0 {
                    CleanupStep::Verify(0)
                } else {
                    CleanupStep::Finished
                }),
            },
    {
        let checked: Result<(), RepoError> = match again {
            Err(e) => Err(e),
            Ok(l) => if !path_eq(l.root.as_slice(), scan.root.as_slice()) || !path_eq(
                l.git_dir.as_slice(),
                scan.git_dir.as_slice(),
            ) || !path_eq(l.git_common_dir.as_slice(), scan.git_common_dir.as_slice()) {
                fail(RepoErrorKind::LayoutChanged, copy_bytes(scan.root.as_slice()))
            } else {
                Ok(())
            },
        };
        match checked {
            Err(error) => {
                let e = RepoApplyError { error, removed: Vec::new() };
                assert(e.removed_view() =~= Seq::<Seq<u8>>::empty());
                Err(e)
            },
            Ok(()) => {
                let step = if scan.candidates.len() > 0 {
                    CleanupStep::Verify(0)
                } else {
                    CleanupStep::Finished
                };
                let c = RepoCleanup { scan, step, removed: Vec::new(), verified: Ghost(0nat) };
                assert(byte_seqs(c.removed@) =~= Seq::<Seq<u8>>::empty());
                assert(repo_relative_paths(c.scan.candidates@).len() == 0 ==> repo_relative_paths(
                    c.scan.candidates@,
                ) =~= Seq::<Seq<u8>>::empty());
                Ok(c)
            },
        }
    }

    /// The current step.
    pub fn step(&self) -> (s: CleanupStep)
        ensures
            s == self.stage(),
    {
        self.step
    }

    fn index(&self) -> (i: usize)
        requires
            self.wf(),
            !(self.stage() is Finished),
        ensures
            i == step_index(self.stage()),
            i < self.scan_view().candidate_list().len(),
    {
        match self.step {
            CleanupStep::Verify(i) => i,
            CleanupStep::Recheck(i) => i,
            CleanupStep::Remove(i) => i,
            CleanupStep::Finished => 0,
        }
    }

    /// The candidate the current step concerns.
    pub fn current(&self) -> (c: &RepoCandidate)
        requires
            self.wf(),
            !(self.stage() is Finished),
        ensures
            *c == self.current_view(),
    {
        let i = self.index();
        &self.scan.candidates[i]
    }

    /// What to inspect for the current check: the parent chain, the parent
    /// to resolve, and the candidate's path.
    pub fn probe(&self) -> (p: RepoCandidateProbe)
        requires
            self.wf(),
            !(self.stage() is Finished),
        ensures
            byte_seqs(p.parents@) == parent_chain(
                self.scan_view().layout_view().0,
                self.current_view().view_tuple().1,
            ),
            p.parent@ == resolved_parent(
                self.scan_view().layout_view().0,
                self.current_view().view_tuple().1,
            ),
            p.path@ == self.current_view().view_tuple().0,
    {
        let i = self.index();
        let c = &self.scan.candidates[i];
        assert(c.fits_root(self.scan.root@));
        let parents = parent_chain_exec(self.scan.root.as_slice(), c.relative_path.as_slice());
        assert(byte_seqs(parents@).len() == parents@.len());
        let parent = if parents.len() == 0 {
            copy_bytes(self.scan.root.as_slice())
        } else {
            copy_bytes(parents[parents.len() - 1].as_slice())
        };
        RepoCandidateProbe { parents, parent, path: copy_bytes(c.path.as_slice()) }
    }

    /// Records what was observed of the current candidate: a verdict as
    /// [`repo_candidate_verdict`] says ends the cleanup with the paths
    /// removed so far; otherwise the cleanup moves on as
    /// [`step_after_check`] says.
    pub fn record_check(&mut self, obs: &RepoCandidateObservation) -> (r: Result<
        (),
        RepoApplyError,
    >)
        requires
            old(self).wf(),
            old(self).stage() is Verify || old(self).stage() is Recheck,
            obs.parent_types@.len() == parent_chain(
                old(self).scan_view().layout_view().0,
                old(self).current_view().view_tuple().1,
            ).len(),
            obs.parent_boundaries@.len() == parent_chain(
                old(self).scan_view().layout_view().0,
                old(self).current_view().view_tuple().1,
            ).len(),
        ensures
            final(self).wf(),
            final(self).scan_view() == old(self).scan_view(),
            final(self).removed_view() == old(self).removed_view(),
            match repo_candidate_verdict(
                old(self).scan_view().layout_view(),
                old(self).current_view().view_tuple(),
                *obs,
            ) {
                Some((k, p, d)) => r matches Err(e) && e.error_view().kind == k
                    && e.error_view().path@ == p && e.error_view().detail@ == d
                    && e.removed_view() == old(self).removed_view()
                    && final(self).stage() == old(self).stage(),
                None => r is Ok && final(self).stage() == step_after_check(
                    old(self).stage(),
                    old(self).count(),
                ),
            },
    {
        let i = self.index();
        assert(self.scan.candidates@[i as int].fits_root(self.scan.root@));
        match check_repo_candidate(
            self.scan.root.as_slice(),
            self.scan.git_dir.as_slice(),
            self.scan.git_common_dir.as_slice(),
            &self.scan.candidates[i],
            obs,
        ) {
            Err(error) => Err(RepoApplyError { error, removed: copy_paths(&self.removed) }),
            Ok(()) => {
                let n = self.scan.candidates.len();
                match self.step {
                    CleanupStep::Verify(i) => {
                        if i + 1 < n {
                            self.step = CleanupStep::Verify(i + 1);
                            self.verified = Ghost((i + 1) as nat);
                        } else {
                            self.step = CleanupStep::Recheck(0);
                            self.verified = Ghost(n as nat);
                            assert(repo_relative_paths(self.scan.candidates@).subrange(0, 0)
                                =~= Seq::<Seq<u8>>::empty());
                            assert(byte_seqs(self.removed@) =~= Seq::<Seq<u8>>::empty());
                        }
                    },
                    CleanupStep::Recheck(i) => {
                        self.step = CleanupStep::Remove(i);
                    },
                    _ => {},
                }
                Ok(())
            },
        }
    }

    /// Records the outcome of removing the current candidate: a failure ends
    /// the cleanup with the paths removed before it; otherwise its relative
    /// path is added and the cleanup moves on as [`step_after_removal`]
    /// says.
    pub fn record_removal(&mut self, outcome: Result<(), IoFailure>) -> (r: Result<
        (),
        RepoApplyError,
    >)
        requires
            old(self).wf(),
            old(self).stage() is Remove,
        ensures
            final(self).wf(),
            final(self).scan_view() == old(self).scan_view(),
            match outcome {
                Err(_) => r matches Err(e) && e.error_view().kind == RepoErrorKind::RemoveFailed
                    && e.error_view().path@ == old(self).current_view().view_tuple().1
                    && e.error_view().detail@ == outcome->Err_0.detail@
                    && e.removed_view() == old(self).removed_view() && final(self).stage() == old(
                    self).stage() && final(self).removed_view() == old(self).removed_view(),
                Ok(_) => r is Ok && final(self).removed_view() == old(self).removed_view().push(
                    old(self).current_view().view_tuple().1,
                ) && final(self).stage() == step_after_removal(old(self).stage(), old(self).count()),
            },
    {
        let i = self.index();
        let n = self.scan.candidates.len();
        let ghost rels = repo_relative_paths(self.scan.candidates@);
        match outcome {
            Err(f) => {
                let error = RepoError::new(
                    RepoErrorKind::RemoveFailed,
                    copy_bytes(self.scan.candidates[i].relative_path.as_slice()),
                    f.detail,
                );
                Err(RepoApplyError { error, removed: copy_paths(&self.removed) })
            },
            Ok(()) => {
                let ghost before = self.removed@;
                let rel = copy_bytes(self.scan.candidates[i].relative_path.as_slice());
                self.removed.push(rel);
                assert(byte_seqs(self.removed@) =~= byte_seqs(before).push(rels[i as int]));
                assert(rels.subrange(0, i + 1) =~= rels.subrange(0, i as int).push(rels[i as int]));
                if i + 1 < n {
                    self.step = CleanupStep::Recheck(i + 1);
                } else {
                    self.step = CleanupStep::Finished;
                    assert(rels.subrange(0, i + 1) =~= rels);
                }
                Ok(())
            },
        }
    }

    /// The completed cleanup: every candidate's relative path, in scan
    /// order.
    pub fn finish(self) -> (report: RepoApplyReport)
        requires
            self.wf(),
            self.stage() is Finished,
        ensures
            byte_seqs(report.removed@) == repo_relative_paths(self.scan_view().candidate_list()),
    {
        RepoApplyReport { removed: self.removed }
    }
}

/// Nothing in the working tree is removed before every candidate passed
/// the check made before any removal, and what was removed is always the
/// first candidates' relative paths, in scan order.
pub proof fn law_repo_removal_follows_full_preflight(c: &RepoCleanup)
    requires
        c.wf(),
    ensures
        c.stage() is Verify ==> c.removed_view().len() == 0,
        !(c.stage() is Verify) ==> c.preflight_passed() == c.count(),
        c.removed_view().len() <= c.count(),
        c.removed_view() == repo_relative_paths(c.scan_view().candidate_list()).subrange(
            0,
            c.removed_view().len() as int,
        ),
{
    let rels = repo_relative_paths(c.scan.candidates@);
    if c.step is Finished {
        assert(rels.subrange(0, rels.len() as int) =~= rels);
    }
    if c.step is Verify {
        assert(rels.subrange(0, 0) =~= Seq::<Seq<u8>>::empty());
        assert(byte_seqs(c.removed@) =~= Seq::<Seq<u8>>::empty());
    }
}

/// A candidate that touches a Git directory is never removed: its check
/// refuses it, whatever was observed.
pub proof fn law_git_internals_are_never_removed(
    layout: (Seq<u8>, Seq<u8>, Seq<u8>),
    c: RepoCandidateView,
    obs: RepoCandidateObservation,
)
    requires
        paths_intersect(c.0, layout.1) || paths_intersect(c.0, layout.2),
    ensures
        repo_candidate_verdict(layout, c, obs) is Some,
{
}


/// `.git` is never selected nor scanned, a directory holding `.git` (another
/// repository) is neither selected nor scanned, and every candidate has a
/// metadata name of its kind and a relative path that is a Git key.
pub proof fn law_scan_respects_repository_boundaries(
    root: Seq<u8>,
    dir: (Seq<u8>, Seq<u8>),
    entry: Result<RepoEntryObservation, IoFailure>,
)
    ensures
        entry matches Ok(o) && o.name@ == git_entry() ==> repo_entry_outcome(root, dir, entry)
            is Skip,
        entry matches Ok(o) && o.entry_type == Ok::<EntryType, IoFailure>(EntryType::Directory)
            && o.boundary == Ok::<bool, IoFailure>(true) && is_entry_name(o.name@) ==> (
        repo_entry_outcome(root, dir, entry) is Skip),
        repo_entry_outcome(root, dir, entry) matches RepoEntryOutcome::Candidate(p, q, k, t) ==> (
        entry matches Ok(o) && component_kind(o.name@) == Some(k) && git_key(q) is Ok && strips_to(
            p,
            root,
            q,
        )),
{
}

/// A folder holding paths Git sees in more than one way (versioned,
/// untracked, ignored) is mixed; a file's status depends on its own key
/// only.
pub proof fn law_mixed_folders(st: GitPathsView, key: Seq<u8>, t: CandidateType)
    ensures
        t == CandidateType::Directory && ((any_within(st.0, key) && any_within(st.2, key)) || (
        any_within(st.0, key) && any_within(st.3, key)) || (any_within(st.2, key) && any_within(
            st.3,
            key,
        ))) ==> git_status(st, key, t) == RepoGitStatus::Mixed,
        t != CandidateType::Directory ==> (git_status(st, key, t) == RepoGitStatus::TrackedModified
            <==> st.0.contains(key) && st.1.contains(key)),
{
}

/// The listing of a repository scan depends only on what it found, not on
/// the order in which the tree was walked: two scans that found the same
/// candidates list them identically, sorted by relative path with no
/// repeats.
pub proof fn law_repo_listing_is_determined(a: RepoScan, b: RepoScan)
    requires
        a.wf(),
        b.wf(),
        repo_candidate_views(a.candidate_list()).to_multiset() == repo_candidate_views(
            b.candidate_list(),
        ).to_multiset(),
    ensures
        repo_candidate_views(a.candidate_list()) == repo_candidate_views(b.candidate_list()),
{
    let va = repo_candidate_views(a.candidate_list());
    let vb = repo_candidate_views(b.candidate_list());
    let key = |v: RepoCandidateView| v.1;
    assert forall|i: int, j: int| 0 <= i < j < va.len() implies path_less(key(va[i]), key(va[j])) by {
        assert(a.candidate_list()[i].path_key() == va[i].1);
        assert(a.candidate_list()[j].path_key() == va[j].1);
    }
    assert forall|i: int, j: int| 0 <= i < j < vb.len() implies path_less(key(vb[i]), key(vb[j])) by {
        assert(b.candidate_list()[i].path_key() == vb[i].1);
        assert(b.candidate_list()[j].path_key() == vb[j].1);
    }
    lemma_strictly_sorted_unique(va, vb, key);
}

/// How Git sees a candidate depends only on which paths each of Git's lists
/// holds, not on their order or on repeats.
pub proof fn law_status_depends_on_path_sets(
    a: GitPathsView,
    b: GitPathsView,
    key: Seq<u8>,
    t: CandidateType,
)
    requires
        a.0.to_set() == b.0.to_set(),
        a.1.to_set() == b.1.to_set(),
        a.2.to_set() == b.2.to_set(),
        a.3.to_set() == b.3.to_set(),
    ensures
        git_status(a, key, t) == git_status(b, key, t),
{
    lemma_within_same_set(a.0, b.0, key);
    lemma_within_same_set(a.1, b.1, key);
    lemma_within_same_set(a.2, b.2, key);
    lemma_within_same_set(a.3, b.3, key);
    assert(a.0.contains(key) == a.0.to_set().contains(key));
    assert(b.0.contains(key) == b.0.to_set().contains(key));
    assert(a.1.contains(key) == a.1.to_set().contains(key));
    assert(b.1.contains(key) == b.1.to_set().contains(key));
    assert(a.3.contains(key) == a.3.to_set().contains(key));
    assert(b.3.contains(key) == b.3.to_set().contains(key));
}

proof fn lemma_within_same_set(x: Seq<Seq<u8>>, y: Seq<Seq<u8>>, dir: Seq<u8>)
    requires
        x.to_set() == y.to_set(),
    ensures
        any_within(x, dir) == any_within(y, dir),
{
    if any_within(x, dir) {
        let i = choose|i: int| 0 <= i < x.len() && within_key(#[trigger] x[i], dir);
        assert(x.to_set().contains(x[i]));
        assert(y.contains(x[i]));
        let j = choose|j: int| 0 <= j < y.len() && y[j] == x[i];
        assert(within_key(y[j], dir));
    }
    if any_within(y, dir) {
        let i = choose|i: int| 0 <= i < y.len() && within_key(#[trigger] y[i], dir);
        assert(y.to_set().contains(y[i]));
        assert(x.contains(y[i]));
        let j = choose|j: int| 0 <= j < x.len() && x[j] == y[i];
        assert(within_key(x[j], dir));
    }
}

/// A folder whose paths Git sees in one way only takes that way: versioned
/// with no modified path at or below it is tracked and unchanged, versioned
/// with one is tracked and modified; ignored alone is ignored; untracked
/// alone, or nothing at all, is untracked. Whenever a folder is not mixed,
/// it is tracked and modified exactly when it holds both a versioned and a
/// modified path.
pub proof fn law_unmixed_folders_take_their_one_way(st: GitPathsView, key: Seq<u8>)
    ensures
        any_within(st.0, key) && !any_within(st.1, key) && !any_within(st.2, key) && !any_within(
            st.3,
            key,
        ) ==> git_status(st, key, CandidateType::Directory) == RepoGitStatus::TrackedUnchanged,
        any_within(st.0, key) && any_within(st.1, key) && !any_within(st.2, key) && !any_within(
            st.3,
            key,
        ) ==> git_status(st, key, CandidateType::Directory) == RepoGitStatus::TrackedModified,
        !any_within(st.0, key) && !any_within(st.2, key) && any_within(st.3, key) ==> git_status(
            st,
            key,
            CandidateType::Directory,
        ) == RepoGitStatus::Ignored,
        !any_within(st.0, key) && !any_within(st.3, key) ==> git_status(
            st,
            key,
            CandidateType::Directory,
        ) == RepoGitStatus::Untracked,
        git_status(st, key, CandidateType::Directory) != RepoGitStatus::Mixed ==> (git_status(
            st,
            key,
            CandidateType::Directory,
        ) == RepoGitStatus::TrackedModified <==> (any_within(st.0, key) && any_within(st.1, key))),
        git_status(st, key, CandidateType::Directory) == RepoGitStatus::Mixed ==> (any_within(
            st.0,
            key,
        ) && any_within(st.2, key)) || (any_within(st.0, key) && any_within(st.3, key)) || (
        any_within(st.2, key) && any_within(st.3, key)),
{
}

/// A file or symlink is judged by its own key alone: in the index it is
/// tracked (modified when Git lists it as modified), else ignored when Git
/// ignores it, else untracked; it is never mixed.
pub proof fn law_files_take_their_own_status(st: GitPathsView, key: Seq<u8>, t: CandidateType)
    requires
        t != CandidateType::Directory,
    ensures
        st.0.contains(key) && !st.1.contains(key) ==> git_status(st, key, t)
            == RepoGitStatus::TrackedUnchanged,
        st.0.contains(key) && st.1.contains(key) ==> git_status(st, key, t)
            == RepoGitStatus::TrackedModified,
        !st.0.contains(key) && st.3.contains(key) ==> git_status(st, key, t)
            == RepoGitStatus::Ignored,
        !st.0.contains(key) && !st.3.contains(key) ==> git_status(st, key, t)
            == RepoGitStatus::Untracked,
        git_status(st, key, t) != RepoGitStatus::Mixed,
{
}

/// `n` parent steps as Git prints them: `..`, `../..`, ...
pub open spec fn parent_steps(n: nat) -> Seq<u8>
    decreases n,
{
    if n <= 1 {
        seq![DOT, DOT]
    } else {
        parent_steps((n - 1) as nat) + seq![SEP] + seq![DOT, DOT]
    }
}

proof fn lemma_parent_steps_parts(n: nat)
    requires
        n >= 1,
    ensures
        forall|i: int|
            0 <= i < split_parts(parent_steps(n)).len() ==> #[trigger] split_parts(parent_steps(n))[i]
                == dot_dot(),
        split_parts(parent_steps(n)).len() == n,
    decreases n,
{
    assert(!seq![DOT, DOT].contains(SEP)) by {
        if seq![DOT, DOT].contains(SEP) {
            let k = choose|k: int| 0 <= k < 2 && seq![DOT, DOT][k] == SEP;
        }
    }
    if n <= 1 {
        crate::bytepath::lemma_split_single(seq![DOT, DOT]);
        assert(dot_dot() =~= seq![DOT, DOT]);
    } else {
        lemma_parent_steps_parts((n - 1) as nat);
        crate::bytepath::lemma_split_join(parent_steps((n - 1) as nat), seq![DOT, DOT]);
        assert(dot_dot() =~= seq![DOT, DOT]);
        let p = split_parts(parent_steps(n));
        assert forall|i: int| 0 <= i < p.len() implies #[trigger] p[i] == dot_dot() by {
            if i < p.len() - 1 {
                assert(p[i] == split_parts(parent_steps((n - 1) as nat))[i]);
            }
        }
    }
}

/// What Git prints for `--show-cdup` below the working-tree root is
/// accepted, with or without a trailing `/`: `..`, `../`, `../..`,
/// `../../`, ...
pub proof fn law_parent_steps_are_accepted(n: nat)
    requires
        n >= 1,
    ensures
        cdup_ok(parent_steps(n)),
        cdup_ok(parent_steps(n) + seq![SEP]),
{
    lemma_parent_steps_parts(n);
    let s = parent_steps(n);
    let t = s + seq![SEP];
    assert(t.drop_last() =~= s);
    assert(t.last() == SEP);
    assert(split_parts(t) == split_parts(s).push(Seq::<u8>::empty()));
    assert forall|i: int| 0 <= i < split_parts(t).len() implies (#[trigger] split_parts(t)[i]).len()
        == 0 || split_parts(t)[i] == dot_dot() by {
        if i < split_parts(s).len() {
            assert(split_parts(t)[i] == split_parts(s)[i]);
        }
    }
}

proof fn lemma_parent_steps_bytes(n: nat)
    ensures
        forall|k: int|
            0 <= k < parent_steps(n).len() ==> #[trigger] parent_steps(n)[k] == DOT
                || parent_steps(n)[k] == SEP,
        parent_steps(n).len() >= 2,
    decreases n,
{
    if n > 1 {
        lemma_parent_steps_bytes((n - 1) as nat);
        let a = parent_steps((n - 1) as nat);
        assert forall|k: int| 0 <= k < parent_steps(n).len() implies #[trigger] parent_steps(n)[k]
            == DOT || parent_steps(n)[k] == SEP by {
            if k < a.len() {
                assert(parent_steps(n)[k] == a[k]);
            }
        }
    }
}

/// Below the working-tree root, Git's `--show-cdup` line (`../`, `../../`,
/// ..., or the same without the trailing `/`) leads the discovery on to
/// resolve the target joined with that line.
pub proof fn law_discovery_climbs_what_git_prints(
    c: Seq<u8>,
    n: nat,
    trailing_slash: bool,
    out: Vec<u8>,
)
    requires
        n >= 1,
        out@ == (if trailing_slash {
            parent_steps(n) + seq![SEP]
        } else {
            parent_steps(n)
        }) + seq![LF],
    ensures
        discovery_next(
            DiscoveryView::Cdup(c),
            DiscoveryEvent::Answered(Ok::<Vec<u8>, RepoError>(out)),
        ) == DiscoveryView::CdupRoot(
            c,
            push_name(
                c,
                if trailing_slash {
                    parent_steps(n) + seq![SEP]
                } else {
                    parent_steps(n)
                },
            ),
        ),
{
    let line = if trailing_slash {
        parent_steps(n) + seq![SEP]
    } else {
        parent_steps(n)
    };
    law_parent_steps_are_accepted(n);
    lemma_parent_steps_bytes(n);
    assert forall|k: int| 0 <= k < line.len() implies #[trigger] line[k] == DOT || line[k] == SEP by {
        if k < parent_steps(n).len() {
            assert(line[k] == parent_steps(n)[k]);
        }
    }
    let o = out@;
    assert(o[o.len() - 1] == LF);
    assert(o[o.len() - 2] == line[line.len() - 1]);
    assert(strip_line_end(o) =~= line);
    assert(!line.contains(LF) && !line.contains(CR) && !line.contains(0u8)) by {
        if line.contains(LF) {
            let k = choose|k: int| 0 <= k < line.len() && line[k] == LF;
            assert(line[k] == DOT || line[k] == SEP);
        }
        if line.contains(CR) {
            let k = choose|k: int| 0 <= k < line.len() && line[k] == CR;
            assert(line[k] == DOT || line[k] == SEP);
        }
        if line.contains(0u8) {
            let k = choose|k: int| 0 <= k < line.len() && line[k] == 0u8;
            assert(line[k] == DOT || line[k] == SEP);
        }
    }
    assert(single_line(o) == Some(line));
}

} // verus!

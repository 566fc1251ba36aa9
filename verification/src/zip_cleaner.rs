//! Safe ZIP-to-ZIP cleaning: which entries are refused, which are dropped as
//! metadata and which are copied, and where the cleaned copy goes.

use vstd::prelude::*;
use vstd::string::StringExecFns;
use vstd::utf8::{decode_utf8, encode_utf8, valid_utf8};

use crate::bytepath::{
    byte_seqs, bytes_eq, components, file_name, file_name_exec, lemma_body_part_len,
    lemma_parent_and_name_fit, lemma_split_parts_len, parent, parent_len_exec, path_eq,
    push_name_exec, split_parts, split_parts_exec, with_file_name, DOT, SEP,
};
use crate::metadata::{is_macos_metadata, names_metadata};
use crate::observation::{no_detail, EntryType, IoFailure, IoKind};
use crate::text::{debug_quoted, display_bytes, lossy_utf8, quoted};

verus! {

/// The size of the verification buffer, which also bounds symlink targets.
pub const VERIFY_BUFFER_SIZE: usize = 65536;

/// Why an entry name is unsafe to process.
#[derive(Debug, Clone, Copy, PartialEq, Eq, Structural)]
pub enum UnsafeEntryName {
    /// The name is empty.
    Empty,
    /// The name contains a NUL byte.
    NulByte,
    /// The name starts with `/` or `\`.
    Absolute,
    /// The name contains `\`.
    Backslash,
    /// A component other than a trailing directory marker is empty.
    EmptyComponent,
    /// A component is `.` or `..`.
    Traversal,
    /// The first component starts with a drive letter and `:`.
    DrivePrefix,
}

/// The reason an entry name is refused, as the program states it.
pub open spec fn unsafe_reason_text(r: UnsafeEntryName) -> Seq<char> {
    match r {
        UnsafeEntryName::Empty => "empty entry name"@,
        UnsafeEntryName::NulByte => "entry name contains a NUL byte"@,
        UnsafeEntryName::Absolute => "absolute entry path"@,
        UnsafeEntryName::Backslash => "entry name uses a host-specific backslash separator"@,
        UnsafeEntryName::EmptyComponent => "entry path contains an empty component"@,
        UnsafeEntryName::Traversal => "entry path contains a traversal component"@,
        UnsafeEntryName::DrivePrefix => "entry path contains a Windows drive prefix"@,
    }
}

impl UnsafeEntryName {
    /// The reason as the program states it.
    pub fn reason(&self) -> (text: &'static str)
        ensures
            text@ == unsafe_reason_text(*self),
    {
        match self {
            UnsafeEntryName::Empty => "empty entry name",
            UnsafeEntryName::NulByte => "entry name contains a NUL byte",
            UnsafeEntryName::Absolute => "absolute entry path",
            UnsafeEntryName::Backslash => "entry name uses a host-specific backslash separator",
            UnsafeEntryName::EmptyComponent => "entry path contains an empty component",
            UnsafeEntryName::Traversal => "entry path contains a traversal component",
            UnsafeEntryName::DrivePrefix => "entry path contains a Windows drive prefix",
        }
    }
}

/// The byte `\`.
pub const BACKSLASH: u8 = 0x5c;

/// The byte `:`.
pub const COLON: u8 = 0x3a;

/// An ASCII letter.
pub open spec fn is_ascii_letter(b: u8) -> bool {
    (0x41 <= b && b <= 0x5a) || (0x61 <= b && b <= 0x7a)
}

/// What is wrong with component `index` of `count`, if anything: an empty
/// component is allowed only as the trailing directory marker, `.` and `..`
/// are traversal, and the first component may not start with `X:`.
pub open spec fn component_fault(c: Seq<u8>, index: int, count: int) -> Option<UnsafeEntryName> {
    if index + 1 == count && c.len() == 0 {
        None
    } else if c.len() == 0 {
        Some(UnsafeEntryName::EmptyComponent)
    } else if c == seq![DOT] || c == seq![DOT, DOT] {
        Some(UnsafeEntryName::Traversal)
    } else if index == 0 && c.len() >= 2 && is_ascii_letter(c[0]) && c[1] == COLON {
        Some(UnsafeEntryName::DrivePrefix)
    } else {
        None
    }
}

/// The fault of the first faulty component at or after `from`.
pub open spec fn first_component_fault(parts: Seq<Seq<u8>>, from: int) -> Option<UnsafeEntryName>
    decreases parts.len() - from,
{
    if from < 0 || from >= parts.len() {
        None
    } else {
        match component_fault(parts[from], from, parts.len() as int) {
            Some(e) => Some(e),
            None => first_component_fault(parts, from + 1),
        }
    }
}

/// The verdict on an entry name: the first failed check, in the order empty,
/// NUL, absolute, backslash, then the components in order.
pub open spec fn entry_name_verdict(name: Seq<u8>) -> Result<(), UnsafeEntryName> {
    if name.len() == 0 {
        Err(UnsafeEntryName::Empty)
    } else if name.contains(0u8) {
        Err(UnsafeEntryName::NulByte)
    } else if name[0] == SEP || name[0] == BACKSLASH {
        Err(UnsafeEntryName::Absolute)
    } else if name.contains(BACKSLASH) {
        Err(UnsafeEntryName::Backslash)
    } else {
        match first_component_fault(split_parts(name), 0) {
            Some(e) => Err(e),
            None => Ok(()),
        }
    }
}

fn contains_byte(s: &[u8], b: u8) -> (r: bool)
    ensures
        r == s@.contains(b),
{
    let mut i: usize = 0;
    while i < s.len()
        invariant
            i <= s.len(),
            forall|k: int| 0 <= k < i ==> s@[k] != b,
        decreases s.len() - i,
    {
        if s[i] == b {
            assert(s@[i as int] == b);
            return true;
        }
        i = i + 1;
    }
    false
}

fn component_fault_exec(c: &[u8], index: usize, count: usize) -> (r: Option<UnsafeEntryName>)
    requires
        index < count,
    ensures
        r == component_fault(c@, index as int, count as int),
{
    if index + 1 == count && c.len() == 0 {
        None
    } else if c.len() == 0 {
        Some(UnsafeEntryName::EmptyComponent)
    } else if (c.len() == 1 && c[0] == DOT) || (c.len() == 2 && c[0] == DOT && c[1] == DOT) {
        proof {
            if c.len() == 1 {
                assert(c@ =~= seq![DOT]);
            } else {
                assert(c@ =~= seq![DOT, DOT]);
            }
        }
        Some(UnsafeEntryName::Traversal)
    } else if index == 0 && c.len() >= 2 && ((0x41 <= c[0] && c[0] <= 0x5a) || (0x61 <= c[0] && c[0]
        <= 0x7a)) && c[1] == COLON {
        Some(UnsafeEntryName::DrivePrefix)
    } else {
        proof {
            if c.len() == 1 {
                assert(c@ != seq![DOT, DOT]);
            }
            if c.len() == 2 {
                assert(c@ != seq![DOT]);
            }
        }
        None
    }
}

/// Checks that a ZIP entry name is a safe relative path: not empty, no NUL,
/// not absolute, no backslash, no empty component (but a trailing `/`), no
/// `.` or `..` component, no Windows drive prefix.
pub fn validate_entry_name(name: &[u8]) -> (verdict: Result<(), UnsafeEntryName>)
    ensures
        verdict == entry_name_verdict(name@),
{
    if name.len() == 0 {
        return Err(UnsafeEntryName::Empty);
    }
    if contains_byte(name, 0) {
        return Err(UnsafeEntryName::NulByte);
    }
    if name[0] == SEP || name[0] == BACKSLASH {
        return Err(UnsafeEntryName::Absolute);
    }
    if contains_byte(name, BACKSLASH) {
        return Err(UnsafeEntryName::Backslash);
    }
    let parts = split_parts_exec(name);
    let ghost ps = split_parts(name@);
    let mut i: usize = 0;
    while i < parts.len()
        invariant
            i <= parts.len(),
            byte_seqs(parts@) == ps,
            ps == split_parts(name@),
            first_component_fault(ps, 0) == first_component_fault(ps, i as int),
            name@.len() > 0,
            !name@.contains(0u8),
            name@[0] != SEP && name@[0] != BACKSLASH,
            !name@.contains(BACKSLASH),
        decreases parts.len() - i,
    {
        assert(ps[i as int] == parts@[i as int]@);
        assert(ps.len() == parts.len());
        let fault = component_fault_exec(parts[i].as_slice(), i, parts.len());
        if let Some(e) = fault {
            assert(component_fault(ps[i as int], i as int, ps.len() as int) == Some(e));
            assert(first_component_fault(ps, i as int) == Some(e));
            return Err(e);
        }
        i = i + 1;
    }
    Ok(())
}

/// `-clean.zip`.
pub open spec fn clean_suffix() -> Seq<u8> {
    seq![0x2du8, 0x63u8, 0x6cu8, 0x65u8, 0x61u8, 0x6eu8, 0x2eu8, 0x7au8, 0x69u8, 0x70u8]
}

/// The index of the last `b` in `s`, or -1.
pub open spec fn last_index_of(s: Seq<u8>, b: u8) -> int
    decreases s.len(),
{
    if s.len() == 0 {
        -1
    } else if s.last() == b {
        s.len() - 1
    } else {
        last_index_of(s.drop_last(), b)
    }
}

/// A file name without its extension: everything before the last `.`,
/// unless there is none or it is the first byte.
pub open spec fn file_stem_of(name: Seq<u8>) -> Seq<u8> {
    let d = last_index_of(name, DOT);
    if d <= 0 {
        name
    } else {
        name.subrange(0, d)
    }
}

/// The default output: `<stem>-clean.zip` in place of the input's file name.
pub open spec fn default_output(input: Seq<u8>) -> Seq<u8> {
    let stem = match file_name(input) {
        Some(n) => file_stem_of(n),
        None => Seq::<u8>::empty(),
    };
    with_file_name(input, stem + clean_suffix())
}

proof fn lemma_last_index_bounds(s: Seq<u8>, b: u8)
    ensures
        -1 <= last_index_of(s, b) < s.len(),
    decreases s.len(),
{
    if s.len() > 0 {
        lemma_last_index_bounds(s.drop_last(), b);
    }
}

fn last_dot(s: &[u8]) -> (r: Option<usize>)
    ensures
        match r {
            Some(d) => last_index_of(s@, DOT) == d as int,
            None => last_index_of(s@, DOT) == -1,
        },
{
    let mut i: usize = s.len();
    assert(s@.subrange(0, s.len() as int) =~= s@);
    while i > 0
        invariant
            i <= s.len(),
            last_index_of(s@, DOT) == last_index_of(s@.subrange(0, i as int), DOT),
        decreases i,
    {
        let ghost pre = s@.subrange(0, i as int);
        assert(pre.drop_last() =~= s@.subrange(0, i - 1));
        if s[i - 1] == DOT {
            return Some(i - 1);
        }
        i = i - 1;
    }
    None
}

fn copy_prefix(s: &[u8], n: usize) -> (r: Vec<u8>)
    requires
        n <= s.len(),
    ensures
        r@ == s@.subrange(0, n as int),
{
    let mut r: Vec<u8> = Vec::new();
    let mut i: usize = 0;
    while i < n
        invariant
            i <= n,
            n <= s.len(),
            r@ == s@.subrange(0, i as int),
        decreases n - i,
    {
        r.push(s[i]);
        i = i + 1;
        assert(r@ =~= s@.subrange(0, i as int));
    }
    r
}

/// Derives `<name>-clean.zip` in the same directory as `input`.
pub fn default_output_path(input: &[u8]) -> (output: Vec<u8>)
    requires
        input@.len() <= isize::MAX,
    ensures
        output@ == default_output(input@),
{
    let name = file_name_exec(input);
    let mut file_name_bytes: Vec<u8> = match &name {
        Some(n) => {
            let d = last_dot(n.as_slice());
            proof {
                lemma_last_index_bounds(n@, DOT);
            }
            match d {
                Some(d) => if d == 0 {
                    n.clone()
                } else {
                    copy_prefix(n.as_slice(), d)
                },
                None => n.clone(),
            }
        },
        None => Vec::new(),
    };
    proof {
        if let Some(n) = &name {
            lemma_last_index_bounds(n@, DOT);
            lemma_body_part_len(input@);
            lemma_parent_and_name_fit(input@);
            assert(n@.len() <= input@.len());
        }
    }
    let ghost stem = file_name_bytes@;
    let suffix: [u8; 10] = [0x2d, 0x63, 0x6c, 0x65, 0x61, 0x6e, 0x2e, 0x7a, 0x69, 0x70];
    let mut k: usize = 0;
    while k < 10
        invariant
            k <= 10,
            file_name_bytes@ == stem + clean_suffix().subrange(0, k as int),
            stem.len() <= input@.len(),
            name is Some ==> stem.len() <= name->0@.len(),
            name is None ==> stem.len() == 0,
            suffix@ == clean_suffix(),
        decreases 10 - k,
    {
        file_name_bytes.push(suffix[k]);
        k = k + 1;
        assert(file_name_bytes@ =~= stem + clean_suffix().subrange(0, k as int));
    }
    assert(clean_suffix().subrange(0, 10) =~= clean_suffix());
    let base = if name.is_some() {
        match parent_len_exec(input) {
            Some(n) => copy_prefix(input, n),
            None => copy_prefix(input, input.len()),
        }
    } else {
        copy_prefix(input, input.len())
    };
    assert(input@.subrange(0, input@.len() as int) =~= input@);
    push_name_exec(base.as_slice(), file_name_bytes.as_slice())
}


/// Why cleaning or checking a ZIP archive stopped.
#[derive(Debug, Clone, Copy, PartialEq, Eq, Structural)]
pub enum CleanErrorKind {
    /// The output path names the input.
    SameInputOutput,
    /// The input does not exist.
    InputNotFound,
    /// The input could not be inspected.
    CannotInspectInput,
    /// The input is not a regular file.
    InputNotRegularFile,
    /// The output already exists.
    OutputExists,
    /// The output's directory does not exist or cannot be inspected.
    OutputDirectoryInaccessible,
    /// The output's parent is not a directory.
    OutputParentNotDirectory,
    /// The input could not be opened.
    CannotOpenInput,
    /// The input is not a readable ZIP archive.
    InvalidZip,
    /// The archive's structure could not be validated.
    CannotValidateStructure,
    /// Entries of the archive overlap.
    OverlappingEntries,
    /// No temporary output could be created.
    CannotCreateOutput,
    /// The archive comment could not be carried over.
    CannotPreserveComment,
    /// An entry's header could not be read.
    CannotInspectEntry,
    /// An entry name is unsafe.
    UnsafeEntry(UnsafeEntryName),
    /// An entry is encrypted.
    EncryptedEntry,
    /// An entry could not be opened for reading.
    CannotReadEntry,
    /// An entry's data failed to decompress or verify.
    CorruptEntry,
    /// A symlink's raw name is not its UTF-8 name.
    NonUtf8SymlinkName,
    /// A symlink entry could not be opened.
    CannotReadSymlink,
    /// A symlink target exceeds the buffer size.
    SymlinkTooLarge,
    /// A symlink target could not be read.
    CannotReadSymlinkTarget,
    /// A symlink target is not UTF-8.
    NonUtf8SymlinkTarget,
    /// A symlink could not be written.
    CannotPreserveSymlink,
    /// An entry could not be reopened for copying.
    CannotReopenEntry,
    /// An entry could not be copied.
    CannotCopyEntry,
    /// The output archive could not be finished.
    CannotFinishOutput,
    /// The output could not be flushed to disk.
    CannotFlushOutput,
    /// The output could not be published under its final name.
    CannotPublishOutput,
}

/// An error with what it concerns (a path or an entry's name) and the host's
/// description, if any.
#[derive(Debug, Clone, PartialEq, Eq)]
pub struct CleanError {
    /// What went wrong.
    pub kind: CleanErrorKind,
    /// The path or entry name concerned (empty when none).
    pub subject: Vec<u8>,
    /// The underlying error's description (empty when none).
    pub detail: String,
}

/// The message for a ZIP error of this kind about this subject (a path, an entry name or an entry number), with this description; entry names are quoted.
pub open spec fn clean_error_text(kind: CleanErrorKind, subject: Seq<char>, detail: Seq<char>) -> Seq<char> {
    match kind {
        CleanErrorKind::SameInputOutput => "output path must differ from input path"@,
        CleanErrorKind::InputNotFound => "file not found:\n"@ + subject,
        CleanErrorKind::CannotInspectInput => "cannot inspect input "@ + subject + ": "@ + detail,
        CleanErrorKind::InputNotRegularFile => "input is not a regular file:\n"@ + subject,
        CleanErrorKind::OutputExists => "output file already exists:\n"@ + subject,
        CleanErrorKind::OutputDirectoryInaccessible => "output directory does not exist or is inaccessible:\n"@ + subject + "\n"@ + detail,
        CleanErrorKind::OutputParentNotDirectory => "output parent is not a directory:\n"@ + subject,
        CleanErrorKind::CannotOpenInput => "cannot read input "@ + subject + ": "@ + detail,
        CleanErrorKind::InvalidZip => "invalid ZIP "@ + subject + ": "@ + detail,
        CleanErrorKind::CannotValidateStructure => "cannot validate ZIP structure "@ + subject + ": "@ + detail,
        CleanErrorKind::OverlappingEntries => "unsafe ZIP structure: archive entries overlap"@,
        CleanErrorKind::CannotCreateOutput => "cannot create output in "@ + subject + ": "@ + detail,
        CleanErrorKind::CannotPreserveComment => "cannot preserve ZIP comment: "@ + detail,
        CleanErrorKind::CannotInspectEntry => "cannot inspect ZIP entry #"@ + subject + ": "@ + detail,
        CleanErrorKind::UnsafeEntry(r) => "unsafe ZIP entry "@ + debug_quoted(subject) + ": "@ + unsafe_reason_text(r),
        CleanErrorKind::EncryptedEntry => "encrypted ZIP entry is not supported: "@ + subject,
        CleanErrorKind::CannotReadEntry => "cannot read ZIP entry "@ + debug_quoted(subject) + ": "@ + detail,
        CleanErrorKind::CorruptEntry => "corrupt ZIP entry "@ + debug_quoted(subject) + ": "@ + detail,
        CleanErrorKind::NonUtf8SymlinkName => "cannot safely preserve non-UTF-8 symlink name: "@ + debug_quoted(subject),
        CleanErrorKind::CannotReadSymlink => "cannot read symlink entry "@ + debug_quoted(subject) + ": "@ + detail,
        CleanErrorKind::SymlinkTooLarge => "symlink target is unreasonably large: "@ + debug_quoted(subject),
        CleanErrorKind::CannotReadSymlinkTarget => "cannot read symlink target "@ + debug_quoted(subject) + ": "@ + detail,
        CleanErrorKind::NonUtf8SymlinkTarget => "cannot safely preserve non-UTF-8 symlink target: "@ + debug_quoted(subject),
        CleanErrorKind::CannotPreserveSymlink => "cannot preserve symlink entry "@ + debug_quoted(subject) + ": "@ + detail,
        CleanErrorKind::CannotReopenEntry => "cannot reopen ZIP entry "@ + debug_quoted(subject) + ": "@ + detail,
        CleanErrorKind::CannotCopyEntry => "cannot copy ZIP entry "@ + debug_quoted(subject) + ": "@ + detail,
        CleanErrorKind::CannotFinishOutput => "cannot finish output ZIP: "@ + detail,
        CleanErrorKind::CannotFlushOutput => "cannot flush output ZIP: "@ + detail,
        CleanErrorKind::CannotPublishOutput => "cannot create output "@ + subject + ": "@ + detail,
    }
}

impl CleanError {
    /// The message this error is shown with.
    pub fn message(&self) -> (m: String)
        ensures
            m@ == clean_error_text(self.kind, lossy_utf8(self.subject@), self.detail@),
    {
        let subject = display_bytes(self.subject.as_slice());
        let name = quoted(subject.as_str());
        let mut s = String::new();
        match self.kind {
            CleanErrorKind::SameInputOutput => {
                s.append("output path must differ from input path");
            },
            CleanErrorKind::InputNotFound => {
                s.append("file not found:\n");
                s.append(subject.as_str());
            },
            CleanErrorKind::CannotInspectInput => {
                s.append("cannot inspect input ");
                s.append(subject.as_str());
                s.append(": ");
                s.append(self.detail.as_str());
            },
            CleanErrorKind::InputNotRegularFile => {
                s.append("input is not a regular file:\n");
                s.append(subject.as_str());
            },
            CleanErrorKind::OutputExists => {
                s.append("output file already exists:\n");
                s.append(subject.as_str());
            },
            CleanErrorKind::OutputDirectoryInaccessible => {
                s.append("output directory does not exist or is inaccessible:\n");
                s.append(subject.as_str());
                s.append("\n");
                s.append(self.detail.as_str());
            },
            CleanErrorKind::OutputParentNotDirectory => {
                s.append("output parent is not a directory:\n");
                s.append(subject.as_str());
            },
            CleanErrorKind::CannotOpenInput => {
                s.append("cannot read input ");
                s.append(subject.as_str());
                s.append(": ");
                s.append(self.detail.as_str());
            },
            CleanErrorKind::InvalidZip => {
                s.append("invalid ZIP ");
                s.append(subject.as_str());
                s.append(": ");
                s.append(self.detail.as_str());
            },
            CleanErrorKind::CannotValidateStructure => {
                s.append("cannot validate ZIP structure ");
                s.append(subject.as_str());
                s.append(": ");
                s.append(self.detail.as_str());
            },
            CleanErrorKind::OverlappingEntries => {
                s.append("unsafe ZIP structure: archive entries overlap");
            },
            CleanErrorKind::CannotCreateOutput => {
                s.append("cannot create output in ");
                s.append(subject.as_str());
                s.append(": ");
                s.append(self.detail.as_str());
            },
            CleanErrorKind::CannotPreserveComment => {
                s.append("cannot preserve ZIP comment: ");
                s.append(self.detail.as_str());
            },
            CleanErrorKind::CannotInspectEntry => {
                s.append("cannot inspect ZIP entry #");
                s.append(subject.as_str());
                s.append(": ");
                s.append(self.detail.as_str());
            },
            CleanErrorKind::UnsafeEntry(r) => {
                s.append("unsafe ZIP entry ");
                s.append(name.as_str());
                s.append(": ");
                s.append(r.reason());
            },
            CleanErrorKind::EncryptedEntry => {
                s.append("encrypted ZIP entry is not supported: ");
                s.append(subject.as_str());
            },
            CleanErrorKind::CannotReadEntry => {
                s.append("cannot read ZIP entry ");
                s.append(name.as_str());
                s.append(": ");
                s.append(self.detail.as_str());
            },
            CleanErrorKind::CorruptEntry => {
                s.append("corrupt ZIP entry ");
                s.append(name.as_str());
                s.append(": ");
                s.append(self.detail.as_str());
            },
            CleanErrorKind::NonUtf8SymlinkName => {
                s.append("cannot safely preserve non-UTF-8 symlink name: ");
                s.append(name.as_str());
            },
            CleanErrorKind::CannotReadSymlink => {
                s.append("cannot read symlink entry ");
                s.append(name.as_str());
                s.append(": ");
                s.append(self.detail.as_str());
            },
            CleanErrorKind::SymlinkTooLarge => {
                s.append("symlink target is unreasonably large: ");
                s.append(name.as_str());
            },
            CleanErrorKind::CannotReadSymlinkTarget => {
                s.append("cannot read symlink target ");
                s.append(name.as_str());
                s.append(": ");
                s.append(self.detail.as_str());
            },
            CleanErrorKind::NonUtf8SymlinkTarget => {
                s.append("cannot safely preserve non-UTF-8 symlink target: ");
                s.append(name.as_str());
            },
            CleanErrorKind::CannotPreserveSymlink => {
                s.append("cannot preserve symlink entry ");
                s.append(name.as_str());
                s.append(": ");
                s.append(self.detail.as_str());
            },
            CleanErrorKind::CannotReopenEntry => {
                s.append("cannot reopen ZIP entry ");
                s.append(name.as_str());
                s.append(": ");
                s.append(self.detail.as_str());
            },
            CleanErrorKind::CannotCopyEntry => {
                s.append("cannot copy ZIP entry ");
                s.append(name.as_str());
                s.append(": ");
                s.append(self.detail.as_str());
            },
            CleanErrorKind::CannotFinishOutput => {
                s.append("cannot finish output ZIP: ");
                s.append(self.detail.as_str());
            },
            CleanErrorKind::CannotFlushOutput => {
                s.append("cannot flush output ZIP: ");
                s.append(self.detail.as_str());
            },
            CleanErrorKind::CannotPublishOutput => {
                s.append("cannot create output ");
                s.append(subject.as_str());
                s.append(": ");
                s.append(self.detail.as_str());
            },
        }
        s
    }

    /// An error of `kind` about `subject`.
    pub fn new(kind: CleanErrorKind, subject: Vec<u8>, detail: String) -> (e: CleanError)
        ensures
            e.kind == kind,
            e.subject@ == subject@,
            e.detail@ == detail@,
    {
        CleanError { kind, subject, detail }
    }
}

/// The result of cleaning: where the copy went and which entries were left
/// out, by their display names, in archive order.
#[derive(Debug, Clone, PartialEq, Eq)]
pub struct CleanReport {
    /// The created archive.
    pub output: Vec<u8>,
    /// The display names of the removed entries.
    pub removed_entries: Vec<String>,
}

/// The result of a read-only check: the archive and its metadata entries.
#[derive(Debug, Clone, PartialEq, Eq)]
pub struct ZipScan {
    input: Vec<u8>,
    candidates: Vec<String>,
}

impl ZipScan {
    /// The checked archive's path.
    pub closed spec fn input_view(&self) -> Seq<u8> {
        self.input@
    }

    /// The display names of its metadata entries.
    pub closed spec fn candidate_names(&self) -> Seq<Seq<char>> {
        texts(self.candidates@)
    }

    /// The checked archive.
    pub fn input(&self) -> (p: &[u8])
        ensures
            p@ == self.input_view(),
    {
        self.input.as_slice()
    }

    /// The display names of its metadata entries, in archive order.
    pub fn candidates(&self) -> (c: &Vec<String>)
        ensures
            texts(c@) == self.candidate_names(),
    {
        &self.candidates
    }

    /// Whether no metadata was found.
    pub fn is_empty(&self) -> (r: bool)
        ensures
            r == (self.candidate_names().len() == 0),
    {
        self.candidates.len() == 0
    }
}

/// The directory that receives the output: its parent, or `.` when that is
/// empty or missing.
pub open spec fn output_parent_of(output: Seq<u8>) -> Seq<u8> {
    match parent(output) {
        Some(p) => if p.len() > 0 {
            p
        } else {
            seq![DOT]
        },
        None => seq![DOT],
    }
}

/// The directory that receives the output, as [`output_parent_of`] says.
pub fn output_parent(output: &[u8]) -> (dir: Vec<u8>)
    ensures
        dir@ == output_parent_of(output@),
{
    match parent_len_exec(output) {
        Some(n) => if n > 0 {
            copy_prefix(output, n)
        } else {
            let d = vec![DOT];
            assert(d@ =~= seq![DOT]);
            d
        },
        None => {
            let d = vec![DOT];
            assert(d@ =~= seq![DOT]);
            d
        },
    }
}

/// The first problem with the input and output paths, in the order: same
/// path, input missing or uninspectable or not a regular file, output
/// existing, output directory inaccessible or not a directory.
pub open spec fn paths_verdict(
    input: Seq<u8>,
    output: Seq<u8>,
    input_type: Result<EntryType, IoFailure>,
    output_exists: bool,
    parent_type: Result<EntryType, IoFailure>,
) -> Option<(CleanErrorKind, Seq<u8>, Seq<char>)> {
    if components(input) == components(output) {
        Some((CleanErrorKind::SameInputOutput, Seq::<u8>::empty(), no_detail()))
    } else {
        match input_type {
            Err(f) => if f.kind == IoKind::NotFound {
                Some((CleanErrorKind::InputNotFound, input, f.detail@))
            } else {
                Some((CleanErrorKind::CannotInspectInput, input, f.detail@))
            },
            Ok(t) => if t != EntryType::File {
                Some((CleanErrorKind::InputNotRegularFile, input, no_detail()))
            } else if output_exists {
                Some((CleanErrorKind::OutputExists, output, no_detail()))
            } else {
                match parent_type {
                    Err(g) => Some(
                        (
                            CleanErrorKind::OutputDirectoryInaccessible,
                            output_parent_of(output),
                            g.detail@,
                        ),
                    ),
                    Ok(p) => if p != EntryType::Directory {
                        Some(
                            (
                                CleanErrorKind::OutputParentNotDirectory,
                                output_parent_of(output),
                                no_detail(),
                            ),
                        )
                    } else {
                        None
                    },
                }
            },
        }
    }
}

/// Checks that `input` is a regular file distinct from `output`, that
/// `output` does not exist, and that its directory is one. `input_type` and
/// `parent_type` are what `metadata` (following links) reported for the
/// input and for [`output_parent`]; `output_exists` whether `output` exists.
pub fn validate_input_output(
    input: &[u8],
    output: &[u8],
    input_type: Result<EntryType, IoFailure>,
    output_exists: bool,
    parent_type: Result<EntryType, IoFailure>,
) -> (r: Result<(), CleanError>)
    ensures
        match paths_verdict(input@, output@, input_type, output_exists, parent_type) {
            None => r is Ok,
            Some((k, subject, d)) => r matches Err(e) && e.kind == k && e.subject@ == subject
                && e.detail@ == d,
        },
{
    if path_eq(input, output) {
        return Err(CleanError::new(CleanErrorKind::SameInputOutput, Vec::new(), String::new()));
    }
    match input_type {
        Err(f) => {
            let kind = if f.kind == IoKind::NotFound {
                CleanErrorKind::InputNotFound
            } else {
                CleanErrorKind::CannotInspectInput
            };
            return Err(CleanError::new(kind, copy_prefix(input, input.len()), f.detail));
        },
        Ok(t) => {
            if t != EntryType::File {
                return Err(
                    CleanError::new(
                        CleanErrorKind::InputNotRegularFile,
                        copy_prefix(input, input.len()),
                        String::new(),
                    ),
                );
            }
        },
    }
    assert(input@.subrange(0, input@.len() as int) =~= input@);
    assert(output@.subrange(0, output@.len() as int) =~= output@);
    if output_exists {
        return Err(
            CleanError::new(
                CleanErrorKind::OutputExists,
                copy_prefix(output, output.len()),
                String::new(),
            ),
        );
    }
    match parent_type {
        Err(f) => Err(
            CleanError::new(
                CleanErrorKind::OutputDirectoryInaccessible,
                output_parent(output),
                f.detail,
            ),
        ),
        Ok(p) => if p != EntryType::Directory {
            Err(
                CleanError::new(
                    CleanErrorKind::OutputParentNotDirectory,
                    output_parent(output),
                    String::new(),
                ),
            )
        } else {
            Ok(())
        },
    }
}

/// The error for an input that could not be opened: missing, or otherwise.
pub fn open_input_error(input: &[u8], failure: IoFailure) -> (e: CleanError)
    ensures
        e.kind == (if failure.kind == IoKind::NotFound {
            CleanErrorKind::InputNotFound
        } else {
            CleanErrorKind::CannotOpenInput
        }),
        e.subject@ == input@,
        e.detail@ == failure.detail@,
{
    let kind = if failure.kind == IoKind::NotFound {
        CleanErrorKind::InputNotFound
    } else {
        CleanErrorKind::CannotOpenInput
    };
    let subject = copy_prefix(input, input.len());
    assert(input@.subrange(0, input@.len() as int) =~= input@);
    CleanError::new(kind, subject, failure.detail)
}

/// The error for an output that could not be published without clobbering:
/// it already exists, or publishing failed otherwise.
pub fn publish_error(output: &[u8], failure: IoFailure) -> (e: CleanError)
    ensures
        e.kind == (if failure.kind == IoKind::AlreadyExists {
            CleanErrorKind::OutputExists
        } else {
            CleanErrorKind::CannotPublishOutput
        }),
        e.subject@ == output@,
        e.detail@ == failure.detail@,
{
    let kind = if failure.kind == IoKind::AlreadyExists {
        CleanErrorKind::OutputExists
    } else {
        CleanErrorKind::CannotPublishOutput
    };
    let subject = copy_prefix(output, output.len());
    assert(output@.subrange(0, output@.len() as int) =~= output@);
    CleanError::new(kind, subject, failure.detail)
}

/// Refuses an archive whose entries overlap. `overlap` is the archive's own
/// overlap check, or the reason it could not be made.
pub fn check_structure(input: &[u8], overlap: Result<bool, String>) -> (r: Result<(), CleanError>)
    ensures
        match overlap {
            Ok(false) => r is Ok,
            Ok(true) => r matches Err(e) && e.kind == CleanErrorKind::OverlappingEntries,
            Err(d) => r matches Err(e) && e.kind == CleanErrorKind::CannotValidateStructure
                && e.subject@ == input@ && e.detail@ == d@,
        },
{
    match overlap {
        Ok(false) => Ok(()),
        Ok(true) => Err(
            CleanError::new(CleanErrorKind::OverlappingEntries, Vec::new(), String::new()),
        ),
        Err(detail) => {
            let subject = copy_prefix(input, input.len());
            assert(input@.subrange(0, input@.len() as int) =~= input@);
            Err(CleanError::new(CleanErrorKind::CannotValidateStructure, subject, detail))
        },
    }
}

/// What the archive's central directory says of one entry.
#[derive(Debug, Clone)]
pub struct EntryHeader {
    /// The name's bytes as stored.
    pub raw_name: Vec<u8>,
    /// The name as the archive decodes it.
    pub display_name: String,
    /// Whether the entry is encrypted.
    pub encrypted: bool,
    /// Whether the entry is a symbolic link.
    pub symlink: bool,
}

/// The outcome of reading an entry's data to its end.
#[derive(Debug, Clone)]
pub enum EntryCheck {
    /// Every byte decompressed and the CRC matched.
    Intact,
    /// The entry could not be opened for reading.
    Unreadable(String),
    /// Reading failed partway (corrupt data or CRC mismatch).
    Corrupt(String),
}

/// What to do with a verified entry.
#[derive(Debug, Clone, Copy, PartialEq, Eq, Structural)]
pub enum EntryAction {
    /// Leave it out: it is metadata.
    Drop,
    /// Copy its compressed bytes unchanged.
    RawCopy,
    /// Recreate it as a symbolic link.
    CopySymlink,
}

/// Whether an entry may be read at all: its name must be safe and it must
/// not be encrypted.
pub open spec fn entry_admission(raw_name: Seq<u8>, encrypted: bool) -> Option<CleanErrorKind> {
    match entry_name_verdict(raw_name) {
        Err(e) => Some(CleanErrorKind::UnsafeEntry(e)),
        Ok(_) => if encrypted {
            Some(CleanErrorKind::EncryptedEntry)
        } else {
            None
        },
    }
}

/// The description a refused entry is reported with: what reading it
/// failed with, when that is why it is refused.
pub open spec fn entry_plan_detail(h: EntryHeader, check: EntryCheck) -> Seq<char> {
    match entry_admission(h.raw_name@, h.encrypted) {
        Some(_) => no_detail(),
        None => match check {
            EntryCheck::Unreadable(d) => d@,
            EntryCheck::Corrupt(d) => d@,
            EntryCheck::Intact => no_detail(),
        },
    }
}

/// The plan for one entry: refused if its name is unsafe, if it is
/// encrypted or if it does not verify; otherwise dropped when its name is
/// metadata, recreated when it is a symlink, and copied raw otherwise.
pub open spec fn entry_plan(h: EntryHeader, check: EntryCheck) -> Result<EntryAction, CleanErrorKind> {
    match entry_admission(h.raw_name@, h.encrypted) {
        Some(k) => Err(k),
        None => match check {
            EntryCheck::Unreadable(_) => Err(CleanErrorKind::CannotReadEntry),
            EntryCheck::Corrupt(_) => Err(CleanErrorKind::CorruptEntry),
            EntryCheck::Intact => if names_metadata(h.raw_name@) {
                Ok(EntryAction::Drop)
            } else if h.symlink {
                Ok(EntryAction::CopySymlink)
            } else {
                Ok(EntryAction::RawCopy)
            },
        },
    }
}

/// The UTF-8 bytes of a string.
fn string_bytes(s: &String) -> (b: Vec<u8>)
    ensures
        b@ == encode_utf8(s@),
{
    vstd::slice::slice_to_vec(s.as_str().as_bytes())
}

/// Checks that an entry may be read: a safe name, not encrypted.
pub fn admit_entry(header: &EntryHeader) -> (r: Result<(), CleanError>)
    ensures
        match entry_admission(header.raw_name@, header.encrypted) {
            None => r is Ok,
            Some(k) => r matches Err(e) && e.kind == k && e.subject@ == encode_utf8(
                header.display_name@,
            ) && e.detail@ == no_detail(),
        },
{
    match validate_entry_name(header.raw_name.as_slice()) {
        Err(reason) => Err(
            CleanError::new(
                CleanErrorKind::UnsafeEntry(reason),
                string_bytes(&header.display_name),
                String::new(),
            ),
        ),
        Ok(()) => if header.encrypted {
            Err(
                CleanError::new(
                    CleanErrorKind::EncryptedEntry,
                    string_bytes(&header.display_name),
                    String::new(),
                ),
            )
        } else {
            Ok(())
        },
    }
}

/// The views of a sequence of strings.
pub open spec fn texts(v: Seq<String>) -> Seq<Seq<char>> {
    v.map_values(|s: String| s@)
}

/// Goes through an archive's entries in order, deciding for each what to do,
/// and keeps the display names of the entries left out.
pub struct ZipCleaning {
    total: usize,
    next: usize,
    removed: Vec<String>,
}

impl ZipCleaning {
    /// How many entries the archive has.
    pub closed spec fn total(&self) -> nat {
        self.total as nat
    }

    /// How many entries have been decided.
    pub closed spec fn decided(&self) -> nat {
        self.next as nat
    }

    /// The display names of the entries left out so far, in order.
    pub closed spec fn removed(&self) -> Seq<Seq<char>> {
        texts(self.removed@)
    }

    /// Starts on an archive of `total` entries.
    pub fn new(total: usize) -> (c: ZipCleaning)
        ensures
            c.total() == total,
            c.decided() == 0,
            c.removed() == Seq::<Seq<char>>::empty(),
    {
        let c = ZipCleaning { total, next: 0, removed: Vec::new() };
        assert(c.removed() =~= Seq::<Seq<char>>::empty());
        c
    }

    /// The index of the next entry to decide, if any is left.
    pub fn next_entry(&self) -> (index: Option<usize>)
        ensures
            self.decided() < self.total() ==> index == Some(self.decided() as usize),
            self.decided() >= self.total() ==> index is None,
    {
        if self.next < self.total {
            Some(self.next)
        } else {
            None
        }
    }

    /// Decides the next entry from its header and the outcome of reading it:
    /// the result is [`entry_plan`]; a dropped entry's display name is
    /// recorded.
    pub fn plan_entry(&mut self, header: &EntryHeader, check: EntryCheck) -> (r: Result<
        EntryAction,
        CleanError,
    >)
        requires
            old(self).decided() < old(self).total(),
        ensures
            match entry_plan(*header, check) {
                Ok(a) => r == Ok::<EntryAction, CleanError>(a),
                Err(k) => r matches Err(e) && e.kind == k && e.subject@ == encode_utf8(
                    header.display_name@,
                ) && e.detail@ == entry_plan_detail(*header, check),
            },
            final(self).total() == old(self).total(),
            final(self).decided() == old(self).decided() + 1,
            final(self).removed() == (if r == Ok::<EntryAction, CleanError>(EntryAction::Drop) {
                old(self).removed().push(header.display_name@)
            } else {
                old(self).removed()
            }),
    {
        self.next = self.next + 1;
        admit_entry(header)?;
        match check {
            EntryCheck::Unreadable(detail) => {
                return Err(
                    CleanError::new(
                        CleanErrorKind::CannotReadEntry,
                        string_bytes(&header.display_name),
                        detail,
                    ),
                );
            },
            EntryCheck::Corrupt(detail) => {
                return Err(
                    CleanError::new(
                        CleanErrorKind::CorruptEntry,
                        string_bytes(&header.display_name),
                        detail,
                    ),
                );
            },
            EntryCheck::Intact => {},
        }
        if is_macos_metadata(header.raw_name.as_slice()) {
            let ghost before = self.removed@;
            self.removed.push(header.display_name.clone());
            assert(texts(self.removed@) =~= texts(before).push(header.display_name@));
            Ok(EntryAction::Drop)
        } else if header.symlink {
            Ok(EntryAction::CopySymlink)
        } else {
            Ok(EntryAction::RawCopy)
        }
    }

    /// The display names of the entries left out so far.
    pub fn removed_entries(&self) -> (names: &Vec<String>)
        ensures
            texts(names@) == self.removed(),
    {
        &self.removed
    }

    /// The report of a finished cleaning that wrote `output`.
    pub fn into_report(self, output: Vec<u8>) -> (report: CleanReport)
        requires
            self.decided() == self.total(),
        ensures
            report.output@ == output@,
            texts(report.removed_entries@) == self.removed(),
    {
        CleanReport { output, removed_entries: self.removed }
    }

    /// The result of a finished check of `input`.
    pub fn into_scan(self, input: Vec<u8>) -> (scan: ZipScan)
        requires
            self.decided() == self.total(),
        ensures
            scan.input_view() == input@,
            scan.candidate_names() == self.removed(),
    {
        ZipScan { input, candidates: self.removed }
    }
}

/// `String::from_utf8`: the text of `bytes` when they are valid UTF-8.
#[verifier::external_body]
fn string_from_utf8(bytes: Vec<u8>) -> (text: Option<String>)
    ensures
        text is Some == valid_utf8(bytes@),
        text matches Some(t) ==> t@ == decode_utf8(bytes@),
{
    String::from_utf8(bytes).ok()
}

/// Checks a symlink entry before its target is read: its raw name must be
/// exactly its UTF-8 display name, and its declared size must fit the buffer.
pub fn check_symlink_entry(header: &EntryHeader, size: u64) -> (r: Result<(), CleanError>)
    ensures
        header.raw_name@ != encode_utf8(header.display_name@) ==> (r matches Err(e) && e.kind
            == CleanErrorKind::NonUtf8SymlinkName),
        header.raw_name@ == encode_utf8(header.display_name@) && size > VERIFY_BUFFER_SIZE ==> (r
            matches Err(e) && e.kind == CleanErrorKind::SymlinkTooLarge),
        header.raw_name@ == encode_utf8(header.display_name@) && size <= VERIFY_BUFFER_SIZE ==> r
            is Ok,
        r matches Err(e) ==> e.subject@ == encode_utf8(header.display_name@) && e.detail@
            == no_detail(),
{
    let display = string_bytes(&header.display_name);
    if !bytes_eq(header.raw_name.as_slice(), display.as_slice()) {
        return Err(CleanError::new(CleanErrorKind::NonUtf8SymlinkName, display, String::new()));
    }
    if size > VERIFY_BUFFER_SIZE as u64 {
        return Err(CleanError::new(CleanErrorKind::SymlinkTooLarge, display, String::new()));
    }
    Ok(())
}

/// The target text of a symlink entry, from the at most one buffer more
/// than allowed that was read: too long, not UTF-8, or the text.
pub fn symlink_target(header: &EntryHeader, target: Vec<u8>) -> (r: Result<String, CleanError>)
    ensures
        target@.len() > VERIFY_BUFFER_SIZE ==> (r matches Err(e) && e.kind
            == CleanErrorKind::SymlinkTooLarge),
        target@.len() <= VERIFY_BUFFER_SIZE && !valid_utf8(target@) ==> (r matches Err(e) && e.kind
            == CleanErrorKind::NonUtf8SymlinkTarget),
        target@.len() <= VERIFY_BUFFER_SIZE && valid_utf8(target@) ==> (r matches Ok(t) && t@
            == decode_utf8(target@)),
        r matches Err(e) ==> e.subject@ == encode_utf8(header.display_name@) && e.detail@
            == no_detail(),
{
    if target.len() > VERIFY_BUFFER_SIZE {
        return Err(
            CleanError::new(
                CleanErrorKind::SymlinkTooLarge,
                string_bytes(&header.display_name),
                String::new(),
            ),
        );
    }
    match string_from_utf8(target) {
        Some(t) => Ok(t),
        None => Err(
            CleanError::new(
                CleanErrorKind::NonUtf8SymlinkTarget,
                string_bytes(&header.display_name),
                String::new(),
            ),
        ),
    }
}

/// Every verified entry whose raw name is metadata is left out, and no
/// other: the plan drops an admitted, intact entry exactly when one of its
/// components is `.DS_Store`, `._*` or `__MACOSX`; nothing is copied or
/// dropped unless its name is safe, it is not encrypted, and it read back
/// intact.
pub proof fn law_only_metadata_is_dropped(h: EntryHeader, check: EntryCheck)
    ensures
        entry_plan(h, check) matches Ok(a) ==> (a == EntryAction::Drop <==> names_metadata(
            h.raw_name@,
        )),
        entry_plan(h, check) is Ok ==> entry_name_verdict(h.raw_name@) is Ok && !h.encrypted
            && check is Intact,
        entry_admission(h.raw_name@, h.encrypted) is None && check is Intact ==> entry_plan(
            h,
            check,
        ) is Ok,
{
}

/// No component at or after `from` is faulty when none is reported.
proof fn lemma_no_component_fault(parts: Seq<Seq<u8>>, from: int, k: int)
    requires
        0 <= from <= k < parts.len(),
        first_component_fault(parts, from) is None,
    ensures
        component_fault(parts[k], k, parts.len() as int) is None,
    decreases k - from,
{
    if from < k {
        lemma_no_component_fault(parts, from + 1, k);
    }
}

/// An accepted entry name stays inside the archive: it is not empty, holds
/// no NUL byte and no backslash, does not start at a root, and none of its
/// components is `.` or `..`, nor (for the first) a drive prefix.
pub proof fn law_accepted_names_stay_inside(name: Seq<u8>)
    requires
        entry_name_verdict(name) is Ok,
    ensures
        name.len() > 0,
        !name.contains(0u8),
        !name.contains(BACKSLASH),
        name[0] != SEP,
        forall|k: int|
            0 <= k < split_parts(name).len() ==> #[trigger] split_parts(name)[k] != seq![DOT]
                && split_parts(name)[k] != seq![DOT, DOT],
        !(split_parts(name)[0].len() >= 2 && is_ascii_letter(split_parts(name)[0][0])
            && split_parts(name)[0][1] == COLON),
{
    let parts = split_parts(name);
    assert forall|k: int| 0 <= k < parts.len() implies #[trigger] parts[k] != seq![DOT]
        && parts[k] != seq![DOT, DOT] by {
        lemma_no_component_fault(parts, 0, k);
    }
    lemma_split_parts_len(name);
    lemma_no_component_fault(parts, 0, 0);
}

/// Every ordinary entry name is accepted: one that is not empty, holds no NUL
/// byte and no backslash, does not start with `/`, whose first component is
/// not a drive prefix, and whose components are names other than `.` and
/// `..`, all non-empty but for a trailing `/` (a directory entry), at any
/// depth.
pub proof fn law_ordinary_names_are_accepted(name: Seq<u8>)
    requires
        name.len() > 0,
        !name.contains(0u8),
        !name.contains(BACKSLASH),
        name[0] != SEP,
        forall|k: int|
            0 <= k < split_parts(name).len() ==> ((#[trigger] split_parts(name)[k]).len() > 0 || k
                == split_parts(name).len() - 1) && split_parts(name)[k] != seq![DOT]
                && split_parts(name)[k] != seq![DOT, DOT],
        !(split_parts(name)[0].len() >= 2 && is_ascii_letter(split_parts(name)[0][0])
            && split_parts(name)[0][1] == COLON),
    ensures
        entry_name_verdict(name) is Ok,
{
    assert(name[0] != BACKSLASH) by {
        if name[0] == BACKSLASH {
            assert(name.contains(BACKSLASH));
        }
    }
    lemma_split_parts_len(name);
    lemma_ordinary_parts(split_parts(name), 0);
}

proof fn lemma_ordinary_parts(parts: Seq<Seq<u8>>, from: int)
    requires
        0 <= from,
        forall|k: int|
            0 <= k < parts.len() ==> ((#[trigger] parts[k]).len() > 0 || k == parts.len() - 1)
                && parts[k] != seq![DOT] && parts[k] != seq![DOT, DOT],
        parts.len() > 0 ==> !(parts[0].len() >= 2 && is_ascii_letter(parts[0][0]) && parts[0][1]
            == COLON),
    ensures
        first_component_fault(parts, from) is None,
    decreases parts.len() - from,
{
    if from < parts.len() {
        assert(parts[from].len() > 0 || from == parts.len() - 1);
        assert(component_fault(parts[from], from, parts.len() as int) is None);
        lemma_ordinary_parts(parts, from + 1);
    }
}

} // verus!

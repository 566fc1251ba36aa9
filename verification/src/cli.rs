//! The command line: its syntax, the confirmation it asks for, and how its
//! output is colored.

use vstd::prelude::*;
use vstd::string::StringExecFns;

use crate::bytepath::{byte_seqs, bytes_eq, DOT};
use crate::text::{display_bytes, lossy_utf8};
use crate::zip_cleaner::{default_output, default_output_path};

verus! {

/// A terminal color.
#[derive(Debug, Clone, Copy, PartialEq, Eq, Structural)]
pub enum Color {
    /// Errors and warnings.
    Red,
    /// Success.
    Green,
    /// Paths and commands.
    BoldCyan,
}

/// The ANSI escape sequence that selects a color.
pub open spec fn ansi_code(color: Color) -> Seq<char> {
    match color {
        Color::Red => "\x1b[31m"@,
        Color::Green => "\x1b[32m"@,
        Color::BoldCyan => "\x1b[1;36m"@,
    }
}

impl Color {
    /// The ANSI escape sequence that selects this color.
    pub fn ansi(self) -> (code: &'static str)
        ensures
            code@ == ansi_code(self),
    {
        match self {
            Color::Red => "\x1b[31m",
            Color::Green => "\x1b[32m",
            Color::BoldCyan => "\x1b[1;36m",
        }
    }
}

/// Colors are used only on a terminal, and never when `NO_COLOR` is set.
pub fn colors_enabled(is_terminal: bool, no_color_is_set: bool) -> (enabled: bool)
    ensures
        enabled == (is_terminal && !no_color_is_set),
{
    is_terminal && !no_color_is_set
}

/// `text` wrapped in `color` and a reset when `enabled`, unchanged otherwise.
pub fn styled(text: &str, color: Color, enabled: bool) -> (s: String)
    ensures
        s@ == (if enabled {
            ansi_code(color) + text@ + "\x1b[0m"@
        } else {
            text@
        }),
{
    if enabled {
        let mut s = color.ansi().to_owned();
        s.append(text);
        s.append("\x1b[0m");
        s
    } else {
        text.to_owned()
    }
}

/// `entry` for one, `entries` otherwise.
pub fn entry_word(count: usize) -> (word: &'static str)
    ensures
        word@ == (if count == 1 {
            "entry"@
        } else {
            "entries"@
        }),
{
    if count == 1 {
        "entry"
    } else {
        "entries"
    }
}

/// The exit status of a check: 0 when clean, 1 when metadata was found.
pub fn check_exit_code(candidate_count: usize) -> (code: u8)
    ensures
        code == (if candidate_count == 0 {
            0u8
        } else {
            1u8
        }),
{
    if candidate_count == 0 {
        0
    } else {
        1
    }
}

/// What a folder or repository run does once its scan is complete.
#[derive(Debug, Clone, Copy, PartialEq, Eq, Structural)]
pub enum RunStep {
    /// Report the check's result and exit with this status.
    ReportCheck(u8),
    /// Say that nothing was found; nothing is removed.
    NothingFound,
    /// List the candidates and the command that would remove them; nothing
    /// is removed.
    Preview,
    /// List the candidates, warn, and remove them only after the exact
    /// confirmation.
    ConfirmAndRemove,
}

/// The step of a folder run with `count` candidates: a check reports its
/// status; otherwise nothing found ends the run, a preview lists, and only
/// apply mode asks to remove.
pub open spec fn folder_step(mode: FolderMode, count: nat) -> RunStep {
    match mode {
        FolderMode::Check => RunStep::ReportCheck(if count == 0 { 0u8 } else { 1u8 }),
        FolderMode::Preview => if count == 0 {
            RunStep::NothingFound
        } else {
            RunStep::Preview
        },
        FolderMode::Apply => if count == 0 {
            RunStep::NothingFound
        } else {
            RunStep::ConfirmAndRemove
        },
    }
}

/// The step of a folder run, as [`folder_step`] says.
pub fn folder_run_step(mode: FolderMode, count: usize) -> (step: RunStep)
    ensures
        step == folder_step(mode, count as nat),
{
    match mode {
        FolderMode::Check => RunStep::ReportCheck(check_exit_code(count)),
        FolderMode::Preview => if count == 0 {
            RunStep::NothingFound
        } else {
            RunStep::Preview
        },
        FolderMode::Apply => if count == 0 {
            RunStep::NothingFound
        } else {
            RunStep::ConfirmAndRemove
        },
    }
}

/// The step of a repository run with `count` candidates: a check reports
/// its status; otherwise nothing found ends the run, and candidates are
/// offered for removal.
pub open spec fn repo_step(mode: RepoMode, count: nat) -> RunStep {
    match mode {
        RepoMode::Check => RunStep::ReportCheck(if count == 0 { 0u8 } else { 1u8 }),
        RepoMode::Clean => if count == 0 {
            RunStep::NothingFound
        } else {
            RunStep::ConfirmAndRemove
        },
    }
}

/// The step of a repository run, as [`repo_step`] says.
pub fn repo_run_step(mode: RepoMode, count: usize) -> (step: RunStep)
    ensures
        step == repo_step(mode, count as nat),
{
    match mode {
        RepoMode::Check => RunStep::ReportCheck(check_exit_code(count)),
        RepoMode::Clean => if count == 0 {
            RunStep::NothingFound
        } else {
            RunStep::ConfirmAndRemove
        },
    }
}

/// The exit status when a scan or validation fails: 2 for a check, which
/// could not be completed, and 1 otherwise.
pub fn failure_status(check: bool) -> (status: u8)
    ensures
        status == (if check {
            2u8
        } else {
            1u8
        }),
{
    if check {
        2
    } else {
        1
    }
}

/// Checks and previews never remove anything, and removal is offered only
/// in apply (folder) or clean (repository) mode, and only when something
/// was found.
pub proof fn law_checks_and_previews_never_remove(fmode: FolderMode, rmode: RepoMode, count: nat)
    ensures
        folder_step(FolderMode::Check, count) is ReportCheck,
        folder_step(FolderMode::Preview, count) != RunStep::ConfirmAndRemove,
        repo_step(RepoMode::Check, count) is ReportCheck,
        folder_step(fmode, count) == RunStep::ConfirmAndRemove ==> fmode == FolderMode::Apply
            && count > 0,
        repo_step(rmode, count) == RunStep::ConfirmAndRemove ==> rmode == RepoMode::Clean && count
            > 0,
{
}

/// `DELETE`.
pub open spec fn delete_word() -> Seq<char> {
    seq!['D', 'E', 'L', 'E', 'T', 'E']
}

/// The confirmation is exactly `DELETE`, followed by nothing, `\n` or `\r\n`.
pub open spec fn confirms_delete(input: Seq<char>) -> bool {
    input == delete_word() || input == delete_word().push('\n') || input == delete_word().push(
        '\r',
    ).push('\n')
}

/// Whether a line typed at the prompt confirms deletion.
pub fn is_delete_confirmation(input: &str) -> (confirmed: bool)
    ensures
        confirmed == confirms_delete(input@),
{
    let n = input.unicode_len();
    if n < 6 || n > 8 {
        return false;
    }
    let word = input.get_char(0) == 'D' && input.get_char(1) == 'E' && input.get_char(2) == 'L'
        && input.get_char(3) == 'E' && input.get_char(4) == 'T' && input.get_char(5) == 'E';
    if !word {
        assert(!confirms_delete(input@)) by {
            if confirms_delete(input@) {
                assert(input@.subrange(0, 6) =~= delete_word());
            }
        }
        return false;
    }
    assert(input@.subrange(0, 6) =~= delete_word());
    let r = if n == 6 {
        true
    } else if n == 7 {
        input.get_char(6) == '\n'
    } else {
        input.get_char(6) == '\r' && input.get_char(7) == '\n'
    };
    proof {
        if n == 6 {
            assert(input@ =~= delete_word());
        } else if n == 7 {
            if r {
                assert(input@ =~= delete_word().push('\n'));
            } else {
                assert(input@[6] != delete_word().push('\n')[6]);
            }
        } else {
            if r {
                assert(input@ =~= delete_word().push('\r').push('\n'));
            } else {
                assert(input@[6] != delete_word().push('\r').push('\n')[6] || input@[7]
                    != delete_word().push('\r').push('\n')[7]);
            }
        }
    }
    r
}

/// Deletion goes ahead only when standard input is an interactive terminal
/// and the line read there confirms it; piped or redirected input, and a
/// line that could not be read, remove nothing.
pub fn deletion_confirmed(stdin_is_terminal: bool, answer: Option<&str>) -> (confirmed: bool)
    ensures
        confirmed == (stdin_is_terminal && (answer matches Some(a) && confirms_delete(a@))),
{
    if !stdin_is_terminal {
        return false;
    }
    match answer {
        None => false,
        Some(a) => is_delete_confirmation(a),
    }
}

/// `-h`.
pub open spec fn short_help() -> Seq<u8> {
    seq![0x2du8, 0x68u8]
}

fn is_short_help(a: &[u8]) -> (r: bool)
    ensures
        r == (a@ == short_help()),
{
    let lit: [u8; 2] = [0x2d, 0x68];
    assert(lit@ =~= short_help());
    bytes_eq(a, lit.as_slice())
}

/// `--help`.
pub open spec fn long_help() -> Seq<u8> {
    seq![0x2du8, 0x2du8, 0x68u8, 0x65u8, 0x6cu8, 0x70u8]
}

fn is_long_help(a: &[u8]) -> (r: bool)
    ensures
        r == (a@ == long_help()),
{
    let lit: [u8; 6] = [0x2d, 0x2d, 0x68, 0x65, 0x6c, 0x70];
    assert(lit@ =~= long_help());
    bytes_eq(a, lit.as_slice())
}

/// `--version`.
pub open spec fn version_flag() -> Seq<u8> {
    seq![0x2du8, 0x2du8, 0x76u8, 0x65u8, 0x72u8, 0x73u8, 0x69u8, 0x6fu8, 0x6eu8]
}

fn is_version_flag(a: &[u8]) -> (r: bool)
    ensures
        r == (a@ == version_flag()),
{
    let lit: [u8; 9] = [0x2d, 0x2d, 0x76, 0x65, 0x72, 0x73, 0x69, 0x6f, 0x6e];
    assert(lit@ =~= version_flag());
    bytes_eq(a, lit.as_slice())
}

/// `zip`.
pub open spec fn zip_word() -> Seq<u8> {
    seq![0x7au8, 0x69u8, 0x70u8]
}

fn is_zip_word(a: &[u8]) -> (r: bool)
    ensures
        r == (a@ == zip_word()),
{
    let lit: [u8; 3] = [0x7a, 0x69, 0x70];
    assert(lit@ =~= zip_word());
    bytes_eq(a, lit.as_slice())
}

/// `folder`.
pub open spec fn folder_word() -> Seq<u8> {
    seq![0x66u8, 0x6fu8, 0x6cu8, 0x64u8, 0x65u8, 0x72u8]
}

fn is_folder_word(a: &[u8]) -> (r: bool)
    ensures
        r == (a@ == folder_word()),
{
    let lit: [u8; 6] = [0x66, 0x6f, 0x6c, 0x64, 0x65, 0x72];
    assert(lit@ =~= folder_word());
    bytes_eq(a, lit.as_slice())
}

/// `repo`.
pub open spec fn repo_word() -> Seq<u8> {
    seq![0x72u8, 0x65u8, 0x70u8, 0x6fu8]
}

fn is_repo_word(a: &[u8]) -> (r: bool)
    ensures
        r == (a@ == repo_word()),
{
    let lit: [u8; 4] = [0x72, 0x65, 0x70, 0x6f];
    assert(lit@ =~= repo_word());
    bytes_eq(a, lit.as_slice())
}

/// `--check`.
pub open spec fn check_flag() -> Seq<u8> {
    seq![0x2du8, 0x2du8, 0x63u8, 0x68u8, 0x65u8, 0x63u8, 0x6bu8]
}

fn is_check_flag(a: &[u8]) -> (r: bool)
    ensures
        r == (a@ == check_flag()),
{
    let lit: [u8; 7] = [0x2d, 0x2d, 0x63, 0x68, 0x65, 0x63, 0x6b];
    assert(lit@ =~= check_flag());
    bytes_eq(a, lit.as_slice())
}

/// `--apply`.
pub open spec fn apply_flag() -> Seq<u8> {
    seq![0x2du8, 0x2du8, 0x61u8, 0x70u8, 0x70u8, 0x6cu8, 0x79u8]
}

fn is_apply_flag(a: &[u8]) -> (r: bool)
    ensures
        r == (a@ == apply_flag()),
{
    let lit: [u8; 7] = [0x2d, 0x2d, 0x61, 0x70, 0x70, 0x6c, 0x79];
    assert(lit@ =~= apply_flag());
    bytes_eq(a, lit.as_slice())
}

/// `-o`.
pub open spec fn short_output() -> Seq<u8> {
    seq![0x2du8, 0x6fu8]
}

fn is_short_output(a: &[u8]) -> (r: bool)
    ensures
        r == (a@ == short_output()),
{
    let lit: [u8; 2] = [0x2d, 0x6f];
    assert(lit@ =~= short_output());
    bytes_eq(a, lit.as_slice())
}

/// `--output`.
pub open spec fn long_output() -> Seq<u8> {
    seq![0x2du8, 0x2du8, 0x6fu8, 0x75u8, 0x74u8, 0x70u8, 0x75u8, 0x74u8]
}

fn is_long_output(a: &[u8]) -> (r: bool)
    ensures
        r == (a@ == long_output()),
{
    let lit: [u8; 8] = [0x2d, 0x2d, 0x6f, 0x75, 0x74, 0x70, 0x75, 0x74];
    assert(lit@ =~= long_output());
    bytes_eq(a, lit.as_slice())
}

/// Which help text to print.
#[derive(Debug, Clone, Copy, PartialEq, Eq, Structural)]
pub enum HelpTopic {
    /// The program's.
    Main,
    /// `zip`'s.
    Zip,
    /// `folder`'s.
    Folder,
    /// `repo`'s.
    Repo,
}

/// How `folder` runs.
#[derive(Debug, Clone, Copy, PartialEq, Eq, Structural)]
pub enum FolderMode {
    /// List what would be removed.
    Preview,
    /// Read-only check with exit status.
    Check,
    /// Remove after confirmation.
    Apply,
}

/// How `repo` runs.
#[derive(Debug, Clone, Copy, PartialEq, Eq, Structural)]
pub enum RepoMode {
    /// Remove after confirmation.
    Clean,
    /// Read-only check with exit status.
    Check,
}

/// How `zip` runs.
#[derive(Debug, Clone, PartialEq, Eq)]
pub enum ZipMode {
    /// Write a cleaned copy to `output`.
    Clean {
        /// The cleaned copy's path.
        output: Vec<u8>,
    },
    /// Read-only check with exit status.
    Check,
}

/// What the command line asks for. Paths are raw argument bytes.
#[derive(Debug, Clone, PartialEq, Eq)]
pub enum CliAction {
    /// Print a help text.
    Help(HelpTopic),
    /// Print the version.
    Version,
    /// Clean or check a ZIP archive.
    Zip {
        /// How.
        mode: ZipMode,
        /// The archive.
        input: Vec<u8>,
    },
    /// Preview, check or clean a folder.
    Folder {
        /// How.
        mode: FolderMode,
        /// The folder.
        path: Vec<u8>,
    },
    /// Clean or check a Git working tree.
    Repo {
        /// How.
        mode: RepoMode,
        /// A path inside the working tree.
        path: Vec<u8>,
    },
}

/// A [`CliAction`] with its paths as byte sequences.
pub enum Invocation {
    /// Print a help text.
    Help(HelpTopic),
    /// Print the version.
    Version,
    /// Clean the archive (first) into the output (second).
    ZipClean(Seq<u8>, Seq<u8>),
    /// Check the archive.
    ZipCheck(Seq<u8>),
    /// Work on a folder.
    Folder(FolderMode, Seq<u8>),
    /// Work on a working tree.
    Repo(RepoMode, Seq<u8>),
}

impl CliAction {
    /// This action with its paths as byte sequences.
    pub open spec fn invocation(&self) -> Invocation {
        match self {
            CliAction::Help(t) => Invocation::Help(*t),
            CliAction::Version => Invocation::Version,
            CliAction::Zip { mode, input } => match mode {
                ZipMode::Clean { output } => Invocation::ZipClean(input@, output@),
                ZipMode::Check => Invocation::ZipCheck(input@),
            },
            CliAction::Folder { mode, path } => Invocation::Folder(*mode, path@),
            CliAction::Repo { mode, path } => Invocation::Repo(*mode, path@),
        }
    }
}

/// What is wrong with a command line.
#[derive(Debug, Clone, Copy, PartialEq, Eq, Structural)]
pub enum UsageErrorKind {
    /// Something follows `--help`.
    ExtraAfterHelp,
    /// Something follows `--version`.
    ExtraAfterVersion,
    /// The command is not `zip`, `folder` or `repo` (argument: the command).
    UnknownCommand,
    /// Something follows `repo --help`.
    ExtraAfterRepoHelp,
    /// `repo` got an unknown option (argument: the option).
    UnknownRepoOption,
    /// `repo` got a second path (argument: the extra one).
    ExtraRepoArgument,
    /// `folder --check` got an option in place of a path.
    FolderCheckPathExpected,
    /// `folder --check` got a second path (argument: the extra one).
    ExtraFolderCheckArgument,
    /// `repo --check` got an option in place of a path.
    RepoCheckPathExpected,
    /// `repo --check` got a second path (argument: the extra one).
    ExtraRepoCheckArgument,
    /// `zip` got no input.
    MissingZipInput,
    /// Something follows `zip --help`.
    ExtraAfterZipHelp,
    /// `zip --check` got no input.
    ZipCheckNeedsInput,
    /// `zip --check` got an option in place of the input.
    ZipCheckInputExpected,
    /// `zip --check` got more than the input (argument: the extra one).
    ExtraZipCheckArgument,
    /// `zip` got `--output` before the input.
    OutputBeforeInput,
    /// `--output` was given twice.
    OutputGivenTwice,
    /// `--output` has no value.
    MissingOutputPath,
    /// `zip` got something other than `--output` (argument: it).
    UnexpectedZipArgument,
    /// Something follows `folder --help`.
    ExtraAfterFolderHelp,
    /// `folder --apply` got no path.
    ApplyNeedsPath,
    /// `folder --apply` got an option in place of the path.
    ApplyPathExpected,
    /// `folder --apply` got more than the path (argument: the extra one).
    ExtraApplyArgument,
    /// `folder` got an unknown option (argument: the option).
    UnknownFolderOption,
    /// `folder` got a second path, or a path before `--apply`.
    ExtraFolderArgument,
}

/// A command-line error and the argument it names (empty when none).
#[derive(Debug, Clone, PartialEq, Eq)]
pub struct UsageError {
    /// What is wrong.
    pub kind: UsageErrorKind,
    /// The offending argument.
    pub argument: Vec<u8>,
}

/// An argument that looks like an option.
pub open spec fn is_option_like(a: Seq<u8>) -> bool {
    a.len() > 0 && a[0] == 0x2du8
}

/// `-h` or `--help`.
pub open spec fn is_help(a: Seq<u8>) -> bool {
    a == short_help() || a == long_help()
}

/// `-o` or `--output`.
pub open spec fn is_output_flag(a: Seq<u8>) -> bool {
    a == short_output() || a == long_output()
}

/// A parse outcome: the invocation, or the error's kind and argument.
pub type ParseOutcome = Result<Invocation, (UsageErrorKind, Seq<u8>)>;

/// `folder --check [PATH]` and `repo --check [PATH]`: the path, by default `.`.
pub open spec fn check_path(rest: Seq<Seq<u8>>, folder: bool) -> Result<Seq<u8>, (UsageErrorKind, Seq<u8>)> {
    if rest.len() == 0 {
        Ok(seq![DOT])
    } else if is_option_like(rest[0]) {
        Err((if folder { UsageErrorKind::FolderCheckPathExpected } else { UsageErrorKind::RepoCheckPathExpected }, Seq::<u8>::empty()))
    } else if rest.len() > 1 {
        Err((if folder { UsageErrorKind::ExtraFolderCheckArgument } else { UsageErrorKind::ExtraRepoCheckArgument }, rest[1]))
    } else {
        Ok(rest[0])
    }
}

/// `repo [PATH]`, `repo --check [PATH]`, `repo --help`.
pub open spec fn parse_repo(a: Seq<Seq<u8>>) -> ParseOutcome {
    if a.len() == 0 {
        Ok(Invocation::Repo(RepoMode::Clean, seq![DOT]))
    } else if is_help(a[0]) {
        if a.len() > 1 { Err((UsageErrorKind::ExtraAfterRepoHelp, Seq::<u8>::empty())) } else { Ok(Invocation::Help(HelpTopic::Repo)) }
    } else if a[0] == check_flag() {
        match check_path(a.skip(1), false) {
            Ok(p) => Ok(Invocation::Repo(RepoMode::Check, p)),
            Err(e) => Err(e),
        }
    } else if is_option_like(a[0]) {
        Err((UsageErrorKind::UnknownRepoOption, a[0]))
    } else if a.len() > 1 {
        Err((UsageErrorKind::ExtraRepoArgument, a[1]))
    } else {
        Ok(Invocation::Repo(RepoMode::Clean, a[0]))
    }
}

/// The `--output` options after a ZIP input: the output given, if any.
pub open spec fn parse_zip_options(rest: Seq<Seq<u8>>, output: Option<Seq<u8>>) -> Result<Option<Seq<u8>>, (UsageErrorKind, Seq<u8>)>
    decreases rest.len(),
{
    if rest.len() == 0 {
        Ok(output)
    } else if is_output_flag(rest[0]) {
        if output is Some {
            Err((UsageErrorKind::OutputGivenTwice, Seq::<u8>::empty()))
        } else if rest.len() < 2 {
            Err((UsageErrorKind::MissingOutputPath, Seq::<u8>::empty()))
        } else {
            parse_zip_options(rest.skip(2), Some(rest[1]))
        }
    } else {
        Err((UsageErrorKind::UnexpectedZipArgument, rest[0]))
    }
}

/// `zip INPUT [-o OUTPUT]`, `zip --check INPUT`, `zip --help`.
pub open spec fn parse_zip(a: Seq<Seq<u8>>) -> ParseOutcome {
    if a.len() == 0 {
        Err((UsageErrorKind::MissingZipInput, Seq::<u8>::empty()))
    } else if is_help(a[0]) {
        if a.len() > 1 { Err((UsageErrorKind::ExtraAfterZipHelp, Seq::<u8>::empty())) } else { Ok(Invocation::Help(HelpTopic::Zip)) }
    } else if a[0] == check_flag() {
        if a.len() < 2 {
            Err((UsageErrorKind::ZipCheckNeedsInput, Seq::<u8>::empty()))
        } else if is_option_like(a[1]) {
            Err((UsageErrorKind::ZipCheckInputExpected, Seq::<u8>::empty()))
        } else if a.len() > 2 {
            Err((UsageErrorKind::ExtraZipCheckArgument, a[2]))
        } else {
            Ok(Invocation::ZipCheck(a[1]))
        }
    } else if is_output_flag(a[0]) {
        Err((UsageErrorKind::OutputBeforeInput, Seq::<u8>::empty()))
    } else {
        match parse_zip_options(a.skip(1), None) {
            Err(e) => Err(e),
            Ok(Some(o)) => Ok(Invocation::ZipClean(a[0], o)),
            Ok(None) => Ok(Invocation::ZipClean(a[0], default_output(a[0]))),
        }
    }
}

/// `folder [PATH]`, `folder --check [PATH]`, `folder --apply PATH`, `folder --help`.
pub open spec fn parse_folder(a: Seq<Seq<u8>>) -> ParseOutcome {
    if a.len() == 0 {
        Ok(Invocation::Folder(FolderMode::Preview, seq![DOT]))
    } else if is_help(a[0]) {
        if a.len() > 1 { Err((UsageErrorKind::ExtraAfterFolderHelp, Seq::<u8>::empty())) } else { Ok(Invocation::Help(HelpTopic::Folder)) }
    } else if a[0] == apply_flag() {
        if a.len() < 2 {
            Err((UsageErrorKind::ApplyNeedsPath, Seq::<u8>::empty()))
        } else if is_option_like(a[1]) {
            Err((UsageErrorKind::ApplyPathExpected, Seq::<u8>::empty()))
        } else if a.len() > 2 {
            Err((UsageErrorKind::ExtraApplyArgument, a[2]))
        } else {
            Ok(Invocation::Folder(FolderMode::Apply, a[1]))
        }
    } else if a[0] == check_flag() {
        match check_path(a.skip(1), true) {
            Ok(p) => Ok(Invocation::Folder(FolderMode::Check, p)),
            Err(e) => Err(e),
        }
    } else if is_option_like(a[0]) {
        Err((UsageErrorKind::UnknownFolderOption, a[0]))
    } else if a.len() > 1 {
        Err((UsageErrorKind::ExtraFolderArgument, Seq::<u8>::empty()))
    } else {
        Ok(Invocation::Folder(FolderMode::Preview, a[0]))
    }
}

/// The whole command line, without the program name.
pub open spec fn parse_command_line(args: Seq<Seq<u8>>) -> ParseOutcome {
    if args.len() == 0 {
        Ok(Invocation::Help(HelpTopic::Main))
    } else if is_help(args[0]) {
        if args.len() > 1 { Err((UsageErrorKind::ExtraAfterHelp, Seq::<u8>::empty())) } else { Ok(Invocation::Help(HelpTopic::Main)) }
    } else if args[0] == version_flag() {
        if args.len() > 1 { Err((UsageErrorKind::ExtraAfterVersion, Seq::<u8>::empty())) } else { Ok(Invocation::Version) }
    } else if args[0] == zip_word() {
        parse_zip(args.skip(1))
    } else if args[0] == folder_word() {
        parse_folder(args.skip(1))
    } else if args[0] == repo_word() {
        parse_repo(args.skip(1))
    } else {
        Err((UsageErrorKind::UnknownCommand, args[0]))
    }
}


fn usage(kind: UsageErrorKind, argument: Vec<u8>) -> (e: UsageError)
    ensures
        e.kind == kind,
        e.argument@ == argument@,
{
    UsageError { kind, argument }
}

fn dot_path() -> (p: Vec<u8>)
    ensures
        p@ == seq![DOT],
{
    let p = vec![DOT];
    assert(p@ =~= seq![DOT]);
    p
}

fn option_like(a: &Vec<u8>) -> (r: bool)
    ensures
        r == is_option_like(a@),
{
    a.len() > 0 && a[0] == 0x2d
}

fn copy_arg(a: &Vec<u8>) -> (r: Vec<u8>)
    ensures
        r@ == a@,
{
    vstd::slice::slice_to_vec(a.as_slice())
}

/// The outcome of parsing matches `expected`.
pub open spec fn parsed_as(r: Result<CliAction, UsageError>, expected: ParseOutcome) -> bool {
    match expected {
        Ok(inv) => r matches Ok(a) && a.invocation() == inv,
        Err((k, arg)) => r matches Err(e) && e.kind == k && e.argument@ == arg,
    }
}

fn check_path_exec(args: &Vec<Vec<u8>>, start: usize, folder: bool) -> (r: Result<Vec<u8>, UsageError>)
    requires
        start <= args.len(),
    ensures
        match check_path(byte_seqs(args@).skip(start as int), folder) {
            Ok(p) => r matches Ok(q) && q@ == p,
            Err((k, arg)) => r matches Err(e) && e.kind == k && e.argument@ == arg,
        },
{
    let ghost rest = byte_seqs(args@).skip(start as int);
    if start == args.len() {
        return Ok(dot_path());
    }
    assert(rest[0] == args@[start as int]@);
    if option_like(&args[start]) {
        let kind = if folder {
            UsageErrorKind::FolderCheckPathExpected
        } else {
            UsageErrorKind::RepoCheckPathExpected
        };
        return Err(usage(kind, Vec::new()));
    }
    if args.len() - start > 1 {
        assert(rest[1] == args@[start + 1]@);
        let kind = if folder {
            UsageErrorKind::ExtraFolderCheckArgument
        } else {
            UsageErrorKind::ExtraRepoCheckArgument
        };
        return Err(usage(kind, copy_arg(&args[start + 1])));
    }
    Ok(copy_arg(&args[start]))
}

fn parse_repo_exec(args: &Vec<Vec<u8>>) -> (r: Result<CliAction, UsageError>)
    requires
        args.len() >= 1,
    ensures
        parsed_as(r, parse_repo(byte_seqs(args@).skip(1))),
{
    let ghost a = byte_seqs(args@).skip(1);
    if args.len() == 1 {
        return Ok(CliAction::Repo { mode: RepoMode::Clean, path: dot_path() });
    }
    assert(a[0] == args@[1]@);
    let first = &args[1];
    if is_short_help(first.as_slice()) || is_long_help(first.as_slice()) {
        if args.len() > 2 {
            return Err(usage(UsageErrorKind::ExtraAfterRepoHelp, Vec::new()));
        }
        return Ok(CliAction::Help(HelpTopic::Repo));
    }
    if is_check_flag(first.as_slice()) {
        assert(a.skip(1) =~= byte_seqs(args@).skip(2));
        let path = check_path_exec(args, 2, false)?;
        return Ok(CliAction::Repo { mode: RepoMode::Check, path });
    }
    if option_like(first) {
        return Err(usage(UsageErrorKind::UnknownRepoOption, copy_arg(first)));
    }
    if args.len() > 2 {
        assert(a[1] == args@[2]@);
        return Err(usage(UsageErrorKind::ExtraRepoArgument, copy_arg(&args[2])));
    }
    Ok(CliAction::Repo { mode: RepoMode::Clean, path: copy_arg(first) })
}

fn parse_zip_exec(args: &Vec<Vec<u8>>) -> (r: Result<CliAction, UsageError>)
    requires
        args.len() >= 1,
        forall|i: int| 0 <= i < args.len() ==> (#[trigger] args@[i])@.len() <= isize::MAX,
    ensures
        parsed_as(r, parse_zip(byte_seqs(args@).skip(1))),
{
    let ghost all = byte_seqs(args@);
    let ghost a = all.skip(1);
    if args.len() == 1 {
        return Err(usage(UsageErrorKind::MissingZipInput, Vec::new()));
    }
    assert(a[0] == args@[1]@);
    let input = &args[1];
    if is_short_help(input.as_slice()) || is_long_help(input.as_slice()) {
        if args.len() > 2 {
            return Err(usage(UsageErrorKind::ExtraAfterZipHelp, Vec::new()));
        }
        return Ok(CliAction::Help(HelpTopic::Zip));
    }
    if is_check_flag(input.as_slice()) {
        if args.len() < 3 {
            return Err(usage(UsageErrorKind::ZipCheckNeedsInput, Vec::new()));
        }
        assert(a[1] == args@[2]@);
        if option_like(&args[2]) {
            return Err(usage(UsageErrorKind::ZipCheckInputExpected, Vec::new()));
        }
        if args.len() > 3 {
            assert(a[2] == args@[3]@);
            return Err(usage(UsageErrorKind::ExtraZipCheckArgument, copy_arg(&args[3])));
        }
        return Ok(CliAction::Zip { mode: ZipMode::Check, input: copy_arg(&args[2]) });
    }
    if is_short_output(input.as_slice()) || is_long_output(input.as_slice()) {
        return Err(usage(UsageErrorKind::OutputBeforeInput, Vec::new()));
    }
    let mut output: Option<Vec<u8>> = None;
    let mut i: usize = 2;
    assert(a.skip(1) =~= all.skip(2));
    while i < args.len()
        invariant
            2 <= i <= args.len(),
            all == byte_seqs(args@),
            a == all.skip(1),
            a.len() >= 1,
            !is_help(a[0]),
            a[0] != check_flag(),
            !is_output_flag(a[0]),
            parse_zip_options(a.skip(1), None) == parse_zip_options(
                all.skip(i as int),
                match output {
                    Some(o) => Some(o@),
                    None => None,
                },
            ),
        decreases args.len() - i,
    {
        let ghost rest = all.skip(i as int);
        assert(rest[0] == args@[i as int]@);
        let argument = &args[i];
        if is_short_output(argument.as_slice()) || is_long_output(argument.as_slice()) {
            if output.is_some() {
                return Err(usage(UsageErrorKind::OutputGivenTwice, Vec::new()));
            }
            if i + 1 >= args.len() {
                return Err(usage(UsageErrorKind::MissingOutputPath, Vec::new()));
            }
            assert(rest[1] == args@[i + 1]@);
            assert(rest.skip(2) =~= all.skip(i + 2));
            output = Some(copy_arg(&args[i + 1]));
            i = i + 2;
        } else {
            return Err(usage(UsageErrorKind::UnexpectedZipArgument, copy_arg(argument)));
        }
    }
    assert(all.skip(i as int).len() == 0);
    let output = match output {
        Some(o) => o,
        None => default_output_path(input.as_slice()),
    };
    Ok(CliAction::Zip { mode: ZipMode::Clean { output }, input: copy_arg(input) })
}

fn parse_folder_exec(args: &Vec<Vec<u8>>) -> (r: Result<CliAction, UsageError>)
    requires
        args.len() >= 1,
    ensures
        parsed_as(r, parse_folder(byte_seqs(args@).skip(1))),
{
    let ghost a = byte_seqs(args@).skip(1);
    if args.len() == 1 {
        return Ok(CliAction::Folder { mode: FolderMode::Preview, path: dot_path() });
    }
    assert(a[0] == args@[1]@);
    let first = &args[1];
    if is_short_help(first.as_slice()) || is_long_help(first.as_slice()) {
        if args.len() > 2 {
            return Err(usage(UsageErrorKind::ExtraAfterFolderHelp, Vec::new()));
        }
        return Ok(CliAction::Help(HelpTopic::Folder));
    }
    if is_apply_flag(first.as_slice()) {
        if args.len() < 3 {
            return Err(usage(UsageErrorKind::ApplyNeedsPath, Vec::new()));
        }
        assert(a[1] == args@[2]@);
        if option_like(&args[2]) {
            return Err(usage(UsageErrorKind::ApplyPathExpected, Vec::new()));
        }
        if args.len() > 3 {
            assert(a[2] == args@[3]@);
            return Err(usage(UsageErrorKind::ExtraApplyArgument, copy_arg(&args[3])));
        }
        return Ok(CliAction::Folder { mode: FolderMode::Apply, path: copy_arg(&args[2]) });
    }
    if is_check_flag(first.as_slice()) {
        assert(a.skip(1) =~= byte_seqs(args@).skip(2));
        let path = check_path_exec(args, 2, true)?;
        return Ok(CliAction::Folder { mode: FolderMode::Check, path });
    }
    if option_like(first) {
        return Err(usage(UsageErrorKind::UnknownFolderOption, copy_arg(first)));
    }
    if args.len() > 2 {
        return Err(usage(UsageErrorKind::ExtraFolderArgument, Vec::new()));
    }
    Ok(CliAction::Folder { mode: FolderMode::Preview, path: copy_arg(first) })
}

/// Parses the command line (without the program name) as [`parse_command_line`] says.
pub fn parse_args(args: &Vec<Vec<u8>>) -> (r: Result<CliAction, UsageError>)
    requires
        forall|i: int| 0 <= i < args.len() ==> (#[trigger] args@[i])@.len() <= isize::MAX,
    ensures
        parsed_as(r, parse_command_line(byte_seqs(args@))),
{
    let ghost all = byte_seqs(args@);
    if args.len() == 0 {
        return Ok(CliAction::Help(HelpTopic::Main));
    }
    assert(all[0] == args@[0]@);
    let command = &args[0];
    if is_short_help(command.as_slice()) || is_long_help(command.as_slice()) {
        if args.len() > 1 {
            return Err(usage(UsageErrorKind::ExtraAfterHelp, Vec::new()));
        }
        return Ok(CliAction::Help(HelpTopic::Main));
    }
    if is_version_flag(command.as_slice()) {
        if args.len() > 1 {
            return Err(usage(UsageErrorKind::ExtraAfterVersion, Vec::new()));
        }
        return Ok(CliAction::Version);
    }
    if is_zip_word(command.as_slice()) {
        parse_zip_exec(args)
    } else if is_folder_word(command.as_slice()) {
        parse_folder_exec(args)
    } else if is_repo_word(command.as_slice()) {
        parse_repo_exec(args)
    } else {
        Err(usage(UsageErrorKind::UnknownCommand, copy_arg(command)))
    }
}


/// In-place folder deletion is asked for in exactly one form: `folder
/// --apply PATH`, with an explicit path that is not an option.
pub proof fn law_apply_needs_an_explicit_path(args: Seq<Seq<u8>>, p: Seq<u8>)
    ensures
        parse_command_line(args) == Ok::<Invocation, (UsageErrorKind, Seq<u8>)>(
            Invocation::Folder(FolderMode::Apply, p),
        ) ==> args == seq![folder_word(), apply_flag(), p] && !is_option_like(p),
{
    if parse_command_line(args) == Ok::<Invocation, (UsageErrorKind, Seq<u8>)>(
        Invocation::Folder(FolderMode::Apply, p),
    ) {
        assert(args.len() > 0);
        assert(args[0] == folder_word());
        let a = args.skip(1);
        assert(a[0] == apply_flag());
        assert(a.len() == 2);
        assert(args =~= seq![folder_word(), apply_flag(), p]);
    }
}

/// `repo` has no apply mode: `repo --apply ...` is always refused, and a
/// path after the options never turns into one.
pub proof fn law_repo_refuses_apply(rest: Seq<Seq<u8>>)
    ensures
        parse_command_line(seq![repo_word(), apply_flag()] + rest) is Err,
{
    let args = seq![repo_word(), apply_flag()] + rest;
    assert(args[0] == repo_word());
    assert(args.skip(1)[0] == apply_flag());
}

/// The message for a command-line error of this kind about this argument.
pub open spec fn usage_text(kind: UsageErrorKind, arg: Seq<char>) -> Seq<char> {
    match kind {
        UsageErrorKind::ExtraAfterHelp => "unexpected argument after --help"@,
        UsageErrorKind::ExtraAfterVersion => "unexpected argument after --version"@,
        UsageErrorKind::UnknownCommand => "unknown command: "@ + arg,
        UsageErrorKind::ExtraAfterRepoHelp => "unexpected argument after repo --help\n\nUsage:\n  rmds repo [PATH]"@,
        UsageErrorKind::UnknownRepoOption => "unknown repo option: "@ + arg + "\n\nUsage:\n  rmds repo [PATH]"@,
        UsageErrorKind::ExtraRepoArgument => "unexpected argument: "@ + arg + "\n\nUsage:\n  rmds repo [PATH]"@,
        UsageErrorKind::FolderCheckPathExpected => "expected a path after --check\n\nUsage:\n  rmds folder --check [PATH]"@,
        UsageErrorKind::ExtraFolderCheckArgument => "unexpected argument after check path: "@ + arg + "\n\nUsage:\n  rmds folder --check [PATH]"@,
        UsageErrorKind::RepoCheckPathExpected => "expected a path after --check\n\nUsage:\n  rmds repo --check [PATH]"@,
        UsageErrorKind::ExtraRepoCheckArgument => "unexpected argument after check path: "@ + arg + "\n\nUsage:\n  rmds repo --check [PATH]"@,
        UsageErrorKind::MissingZipInput => "missing ZIP input path"@,
        UsageErrorKind::ExtraAfterZipHelp => "unexpected argument after zip --help"@,
        UsageErrorKind::ZipCheckNeedsInput => "check mode requires a ZIP input: rmds zip --check <INPUT.zip>"@,
        UsageErrorKind::ZipCheckInputExpected => "expected a ZIP input after --check\n\nUsage:\n  rmds zip --check <INPUT.zip>"@,
        UsageErrorKind::ExtraZipCheckArgument => "unexpected argument after check input: "@ + arg + "\n\nUsage:\n  rmds zip --check <INPUT.zip>"@,
        UsageErrorKind::OutputBeforeInput => "missing ZIP input path before --output"@,
        UsageErrorKind::OutputGivenTwice => "output option may only be specified once"@,
        UsageErrorKind::MissingOutputPath => "missing path after --output"@,
        UsageErrorKind::UnexpectedZipArgument => "unexpected argument: "@ + arg,
        UsageErrorKind::ExtraAfterFolderHelp => "unexpected argument after folder --help"@,
        UsageErrorKind::ApplyNeedsPath => "apply mode requires an explicit path: rmds folder --apply <PATH>"@,
        UsageErrorKind::ApplyPathExpected => "expected a path after --apply"@,
        UsageErrorKind::ExtraApplyArgument => "unexpected argument after apply path: "@ + arg,
        UsageErrorKind::UnknownFolderOption => "unknown folder option: "@ + arg,
        UsageErrorKind::ExtraFolderArgument => "unexpected argument; apply syntax is: rmds folder --apply <PATH>"@,
    }
}

impl UsageError {
    /// The message this error is shown with.
    pub fn message(&self) -> (m: String)
        ensures
            m@ == usage_text(self.kind, lossy_utf8(self.argument@)),
    {
        let arg = display_bytes(self.argument.as_slice());
        let mut s = String::new();
        match self.kind {
            UsageErrorKind::ExtraAfterHelp => {
                s.append("unexpected argument after --help");
            },
            UsageErrorKind::ExtraAfterVersion => {
                s.append("unexpected argument after --version");
            },
            UsageErrorKind::UnknownCommand => {
                s.append("unknown command: ");
                s.append(arg.as_str());
            },
            UsageErrorKind::ExtraAfterRepoHelp => {
                s.append("unexpected argument after repo --help\n\nUsage:\n  rmds repo [PATH]");
            },
            UsageErrorKind::UnknownRepoOption => {
                s.append("unknown repo option: ");
                s.append(arg.as_str());
                s.append("\n\nUsage:\n  rmds repo [PATH]");
            },
            UsageErrorKind::ExtraRepoArgument => {
                s.append("unexpected argument: ");
                s.append(arg.as_str());
                s.append("\n\nUsage:\n  rmds repo [PATH]");
            },
            UsageErrorKind::FolderCheckPathExpected => {
                s.append("expected a path after --check\n\nUsage:\n  rmds folder --check [PATH]");
            },
            UsageErrorKind::ExtraFolderCheckArgument => {
                s.append("unexpected argument after check path: ");
                s.append(arg.as_str());
                s.append("\n\nUsage:\n  rmds folder --check [PATH]");
            },
            UsageErrorKind::RepoCheckPathExpected => {
                s.append("expected a path after --check\n\nUsage:\n  rmds repo --check [PATH]");
            },
            UsageErrorKind::ExtraRepoCheckArgument => {
                s.append("unexpected argument after check path: ");
                s.append(arg.as_str());
                s.append("\n\nUsage:\n  rmds repo --check [PATH]");
            },
            UsageErrorKind::MissingZipInput => {
                s.append("missing ZIP input path");
            },
            UsageErrorKind::ExtraAfterZipHelp => {
                s.append("unexpected argument after zip --help");
            },
            UsageErrorKind::ZipCheckNeedsInput => {
                s.append("check mode requires a ZIP input: rmds zip --check <INPUT.zip>");
            },
            UsageErrorKind::ZipCheckInputExpected => {
                s.append("expected a ZIP input after --check\n\nUsage:\n  rmds zip --check <INPUT.zip>");
            },
            UsageErrorKind::ExtraZipCheckArgument => {
                s.append("unexpected argument after check input: ");
                s.append(arg.as_str());
                s.append("\n\nUsage:\n  rmds zip --check <INPUT.zip>");
            },
            UsageErrorKind::OutputBeforeInput => {
                s.append("missing ZIP input path before --output");
            },
            UsageErrorKind::OutputGivenTwice => {
                s.append("output option may only be specified once");
            },
            UsageErrorKind::MissingOutputPath => {
                s.append("missing path after --output");
            },
            UsageErrorKind::UnexpectedZipArgument => {
                s.append("unexpected argument: ");
                s.append(arg.as_str());
            },
            UsageErrorKind::ExtraAfterFolderHelp => {
                s.append("unexpected argument after folder --help");
            },
            UsageErrorKind::ApplyNeedsPath => {
                s.append("apply mode requires an explicit path: rmds folder --apply <PATH>");
            },
            UsageErrorKind::ApplyPathExpected => {
                s.append("expected a path after --apply");
            },
            UsageErrorKind::ExtraApplyArgument => {
                s.append("unexpected argument after apply path: ");
                s.append(arg.as_str());
            },
            UsageErrorKind::UnknownFolderOption => {
                s.append("unknown folder option: ");
                s.append(arg.as_str());
            },
            UsageErrorKind::ExtraFolderArgument => {
                s.append("unexpected argument; apply syntax is: rmds folder --apply <PATH>");
            },
        }
        s
    }
}

/// `-o` and `--output` are the same option: after `zip` and an input path
/// that is not an option, either one followed by a path asks to clean the
/// input into that path.
pub proof fn law_short_and_long_output_agree(input: Seq<u8>, output: Seq<u8>)
    requires
        !(input.len() > 0 && input[0] == 0x2du8),
    ensures
        parse_command_line(seq![seq![0x7au8, 0x69u8, 0x70u8], input, seq![0x2du8, 0x6fu8], output])
            == Ok::<Invocation, (UsageErrorKind, Seq<u8>)>(Invocation::ZipClean(input, output)),
        parse_command_line(
            seq![
                seq![0x7au8, 0x69u8, 0x70u8],
                input,
                seq![0x2du8, 0x2du8, 0x6fu8, 0x75u8, 0x74u8, 0x70u8, 0x75u8, 0x74u8],
                output,
            ],
        ) == Ok::<Invocation, (UsageErrorKind, Seq<u8>)>(Invocation::ZipClean(input, output)),
{
    let z = seq![0x7au8, 0x69u8, 0x70u8];
    let short = seq![0x2du8, 0x6fu8];
    let long = seq![0x2du8, 0x2du8, 0x6fu8, 0x75u8, 0x74u8, 0x70u8, 0x75u8, 0x74u8];
    assert(z =~= zip_word());
    assert(short =~= short_output());
    assert(long =~= long_output());
    assert(!is_help(input) && input != check_flag() && !is_output_flag(input)) by {
        if input.len() > 0 {
            assert(input[0] != short_help()[0]);
            assert(input[0] != long_help()[0]);
            assert(input[0] != check_flag()[0]);
            assert(input[0] != short_output()[0]);
            assert(input[0] != long_output()[0]);
        }
    }
    assert(z != version_flag()) by {
        assert(z[0] != version_flag()[0]);
    }
    assert(!is_help(z)) by {
        assert(z[0] != short_help()[0]);
        assert(z[0] != long_help()[0]);
    }
    let a1 = seq![z, input, short, output];
    let a2 = seq![z, input, long, output];
    assert(a1.skip(1) =~= seq![input, short, output]);
    assert(a2.skip(1) =~= seq![input, long, output]);
    assert(seq![input, short, output].skip(1) =~= seq![short, output]);
    assert(seq![input, long, output].skip(1) =~= seq![long, output]);
    assert(seq![short, output].skip(2) =~= Seq::<Seq<u8>>::empty());
    assert(seq![long, output].skip(2) =~= Seq::<Seq<u8>>::empty());
    assert(parse_zip_options(Seq::<Seq<u8>>::empty(), Some(output)) == Ok::<
        Option<Seq<u8>>,
        (UsageErrorKind, Seq<u8>),
    >(Some(output)));
}

} // verus!

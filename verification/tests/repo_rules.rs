use rmds::folder_cleaner::{CandidateType, CleanupStep};
use rmds::metadata::MetadataKind;
use rmds::observation::{EntryType, IoFailure, IoKind};
use rmds::repo_cleaner::{
    git_path_key, git_path_set, needs_boundary, needs_tree_search, git_single_line, BoundarySearch, DiscoveryEvent,
    DiscoveryRequest, GitPathState, GitQuery, RepoCandidateObservation, RepoCleanup,
    RepoDiscovery, RepoEntryObservation, RepoErrorKind, RepoGitStatus, RepoLayout, RepoScan,
    RepoScanner, TreeEntry,
};

fn failure(kind: IoKind) -> IoFailure {
    IoFailure { kind, detail: "host says no".to_string() }
}

fn answer(text: &str) -> DiscoveryEvent {
    DiscoveryEvent::Answered(Ok(text.as_bytes().to_vec()))
}

/// Drives a discovery of `target` with scripted observations.
fn discover(target: &[u8], cdup: &str) -> Result<RepoLayout, rmds::repo_cleaner::RepoError> {
    let mut d = RepoDiscovery::start(target);
    loop {
        let event = match d.request() {
            DiscoveryRequest::Inspect(p) => {
                let resolved = if p == b"project/src" { b"/w/project/src".to_vec() } else { p.clone() };
                DiscoveryEvent::Inspected(Ok(EntryType::Directory), Ok(resolved))
            }
            DiscoveryRequest::AskGit(_, GitQuery::IsBare) => answer("false\n"),
            DiscoveryRequest::AskGit(_, GitQuery::IsInsideWorkTree) => answer("true\n"),
            DiscoveryRequest::AskGit(dir, GitQuery::ShowCdup) => {
                if dir == b"/w/project" { answer("\n") } else { answer(&format!("{cdup}\n")) }
            }
            DiscoveryRequest::AskGit(_, GitQuery::AbsoluteGitDir) => answer("/w/project/.git\n"),
            DiscoveryRequest::AskGit(_, GitQuery::GitCommonDir) => answer("/w/project/.git\r\n"),
            DiscoveryRequest::Resolve(p) => {
                let resolved = if p == b"/w/project/src/.." { b"/w/project".to_vec() } else { p.clone() };
                DiscoveryEvent::Resolved(Ok(resolved))
            }
            DiscoveryRequest::Done => break,
        };
        d.advance(event);
    }
    d.outcome().unwrap()
}

#[test]
fn discovery_resolves_the_working_tree_root_from_a_subdirectory() {
    let layout = discover(b"project/src", "..").unwrap();
    assert_eq!(layout.root, b"/w/project".to_vec());
    assert_eq!(layout.git_dir, b"/w/project/.git".to_vec());
    assert_eq!(layout.git_common_dir, b"/w/project/.git".to_vec());
}

#[test]
fn discovery_refuses_an_invalid_cdup() {
    let e = discover(b"project/src", "../sub").unwrap_err();
    assert_eq!(e.kind, RepoErrorKind::InvalidCdup);
}

#[test]
fn discovery_refuses_bare_repositories_and_plain_folders() {
    let mut d = RepoDiscovery::start(b"bare.git");
    d.advance(DiscoveryEvent::Inspected(Ok(EntryType::Directory), Ok(b"/w/bare.git".to_vec())));
    d.advance(answer("true\n"));
    let e = d.outcome().unwrap().unwrap_err();
    assert_eq!(e.kind, RepoErrorKind::BareRepository);
    assert_eq!(e.path, b"/w/bare.git".to_vec());

    let mut d = RepoDiscovery::start(b"ordinary");
    d.advance(DiscoveryEvent::Inspected(Ok(EntryType::Directory), Ok(b"/w/ordinary".to_vec())));
    d.advance(DiscoveryEvent::Answered(Err(rmds::repo_cleaner::RepoError::new(
        RepoErrorKind::GitCommandFailed,
        b"/w/ordinary".to_vec(),
        "fatal: not a git repository".to_string(),
    ))));
    assert_eq!(d.outcome().unwrap().unwrap_err().kind, RepoErrorKind::GitCommandFailed);

    let mut d = RepoDiscovery::start(b"x");
    d.advance(DiscoveryEvent::Inspected(Ok(EntryType::Directory), Ok(b"/w/x".to_vec())));
    d.advance(answer("maybe\n"));
    assert_eq!(d.outcome().unwrap().unwrap_err().kind, RepoErrorKind::InvalidBareStatus);
}

#[test]
fn invalid_non_repository_and_symlink_targets_are_rejected() {
    let mut d = RepoDiscovery::start(b"missing");
    d.advance(DiscoveryEvent::Inspected(Err(failure(IoKind::NotFound)), Err(failure(IoKind::Other))));
    assert_eq!(d.outcome().unwrap().unwrap_err().kind, RepoErrorKind::TargetNotFound);
    let mut d = RepoDiscovery::start(b"file.txt");
    d.advance(DiscoveryEvent::Inspected(Ok(EntryType::File), Err(failure(IoKind::Other))));
    assert_eq!(d.outcome().unwrap().unwrap_err().kind, RepoErrorKind::NotADirectory);
    let mut d = RepoDiscovery::start(b"project-link");
    d.advance(DiscoveryEvent::Inspected(Ok(EntryType::Symlink), Err(failure(IoKind::Other))));
    assert_eq!(d.outcome().unwrap().unwrap_err().kind, RepoErrorKind::SymlinkTarget);
    let mut d = RepoDiscovery::start(b"/");
    d.advance(DiscoveryEvent::Inspected(Ok(EntryType::Directory), Ok(b"/".to_vec())));
    assert_eq!(d.outcome().unwrap().unwrap_err().kind, RepoErrorKind::FilesystemRoot);
}

#[test]
fn git_one_line_answers_lose_only_their_line_ending() {
    assert_eq!(git_single_line(b"true\n").unwrap(), b"true".to_vec());
    assert_eq!(git_single_line(b"true\r\n").unwrap(), b"true".to_vec());
    assert_eq!(git_single_line(b"true").unwrap(), b"true".to_vec());
    assert_eq!(git_single_line(b"").unwrap(), Vec::<u8>::new());
    assert_eq!(git_single_line(b"a\nb\n").unwrap_err().kind, RepoErrorKind::InvalidSingleLine);
    assert_eq!(git_single_line(b"a\r").unwrap_err().kind, RepoErrorKind::InvalidSingleLine);
    assert_eq!(git_single_line(b"a\0\n").unwrap_err().kind, RepoErrorKind::InvalidSingleLine);
}

#[test]
fn git_path_lists_are_split_on_nul_and_checked() {
    let v = git_path_set(b"a/b\0dir/\0\0c").unwrap();
    assert_eq!(v, vec![b"a/b".to_vec(), b"dir".to_vec(), b"c".to_vec()]);
    assert!(git_path_set(b"").unwrap().is_empty());
    assert_eq!(git_path_set(b"ok\0/abs").unwrap_err().kind, RepoErrorKind::UnsafePathRecord);
    assert_eq!(git_path_set(b"a/../b").unwrap_err().kind, RepoErrorKind::UnsafePathComponent);
    assert_eq!(git_path_set(b"a//b").unwrap_err().kind, RepoErrorKind::UnsafePathComponent);
    assert_eq!(git_path_set(b"/").unwrap_err().kind, RepoErrorKind::UnsafePathRecord);
}

#[test]
fn git_keys_join_plain_names_only() {
    assert_eq!(git_path_key(b"a/b/.DS_Store").unwrap(), b"a/b/.DS_Store".to_vec());
    assert_eq!(git_path_key(b"a//b/").unwrap(), b"a/b".to_vec());
    let e = git_path_key(b"a/../b").unwrap_err();
    assert_eq!(e.kind, RepoErrorKind::UnsafeRelativeComponent);
    assert_eq!(e.path, b"a/../b".to_vec());
    assert_eq!(git_path_key(b"/abs").unwrap_err().kind, RepoErrorKind::UnsafeRelativeComponent);
    assert_eq!(git_path_key(b"./x").unwrap_err().kind, RepoErrorKind::UnsafeRelativeComponent);
    assert_eq!(git_path_key(b".git/x").unwrap_err().kind, RepoErrorKind::InsideGit);
    let e = git_path_key(b"").unwrap_err();
    assert_eq!(e.kind, RepoErrorKind::RepositoryRoot);
    assert!(e.path.is_empty());
}

fn state() -> GitPathState {
    GitPathState::new(
        vec![b"tracked/.DS_Store".to_vec(), b"docs/._manual.pdf".to_vec(), b"__MACOSX/tracked".to_vec()],
        vec![b"docs/._manual.pdf".to_vec()],
        vec![],
        vec![b".DS_Store".to_vec(), b"__MACOSX/other".to_vec()],
        vec![b"images/._logo.png".to_vec(), b"__MACOSX/ignored".to_vec()],
    )
}

#[test]
fn git_states_are_classified() {
    let s = state();
    assert_eq!(s.classify(b"tracked/.DS_Store", CandidateType::RegularFile), RepoGitStatus::TrackedUnchanged);
    assert_eq!(s.classify(b"docs/._manual.pdf", CandidateType::RegularFile), RepoGitStatus::TrackedModified);
    assert_eq!(s.classify(b".DS_Store", CandidateType::RegularFile), RepoGitStatus::Untracked);
    assert_eq!(s.classify(b"images/._logo.png", CandidateType::Symlink), RepoGitStatus::Ignored);
    assert_eq!(s.classify(b"new/._x", CandidateType::RegularFile), RepoGitStatus::Untracked);
    assert_eq!(s.classify(b"__MACOSX", CandidateType::Directory), RepoGitStatus::Mixed);
    assert_eq!(s.classify(b"docs", CandidateType::Directory), RepoGitStatus::TrackedModified);
    assert_eq!(s.classify(b"doc", CandidateType::Directory), RepoGitStatus::Untracked);
    assert_eq!(s.classify(b"images", CandidateType::Directory), RepoGitStatus::Ignored);
    assert_eq!(RepoGitStatus::TrackedModified.label(), "tracked, modified");
    assert_eq!(RepoGitStatus::TrackedUnchanged.label(), "tracked");
    assert_eq!(RepoGitStatus::Mixed.label(), "mixed");
}

fn layout() -> RepoLayout {
    RepoLayout {
        root: b"/w/project".to_vec(),
        git_dir: b"/w/project/.git".to_vec(),
        git_common_dir: b"/w/project/.git".to_vec(),
    }
}

fn obs(name: &str, t: EntryType) -> RepoEntryObservation {
    RepoEntryObservation {
        name: name.as_bytes().to_vec(),
        entry_type: Ok(t),
        boundary: Ok(false),
        tree_boundary: Ok(false),
    }
}

fn repo_scan() -> RepoScan {
    let mut scanner = RepoScanner::start(layout());
    while let Some(dir) = scanner.next_directory() {
        let listed = scanner
            .enter(&dir, Ok(EntryType::Directory), Ok(dir.path().to_vec()), Ok(false))
            .unwrap();
        assert!(listed);
        let entries: Vec<RepoEntryObservation> = if dir.is_root() {
            let mut nested = obs("vendor", EntryType::Directory);
            nested.boundary = Ok(true);
            let mut guarded = obs("__MACOSX", EntryType::Directory);
            guarded.tree_boundary = Ok(false);
            vec![
                obs(".git", EntryType::Directory),
                obs(".DS_Store", EntryType::File),
                nested,
                guarded,
                obs("src", EntryType::Directory),
                obs("README.md", EntryType::File),
            ]
        } else {
            vec![obs("._item", EntryType::Symlink), obs("main.rs", EntryType::File)]
        };
        for e in entries {
            scanner.visit_entry(&dir, Ok(e)).unwrap();
        }
    }
    scanner.finish(&state())
}

#[test]
fn working_tree_scan_skips_git_and_nested_repositories() {
    let scan = repo_scan();
    let rels: Vec<Vec<u8>> = scan.candidates().iter().map(|c| c.relative_path().to_vec()).collect();
    assert_eq!(rels, vec![b".DS_Store".to_vec(), b"__MACOSX".to_vec(), b"src/._item".to_vec()]);
    assert_eq!(scan.candidates()[0].git_status(), RepoGitStatus::Untracked);
    assert_eq!(scan.candidates()[1].git_status(), RepoGitStatus::Mixed);
    assert_eq!(scan.candidates()[2].candidate_type(), CandidateType::Symlink);
    assert_eq!(scan.candidates()[2].metadata_kind(), MetadataKind::AppleDouble);
    assert!(scan.candidates()[1].display_as_directory());
    assert_eq!(scan.root(), b"/w/project");
    assert_eq!(scan.git_dir(), b"/w/project/.git");
    assert_eq!(scan.git_common_dir(), b"/w/project/.git");
    assert!(!scan.is_empty());
}

#[test]
fn a_git_boundary_anywhere_inside_macosx_preserves_the_entire_tree() {
    let mut scanner = RepoScanner::start(layout());
    let dir = scanner.next_directory().unwrap();
    let mut guarded = obs("__MACOSX", EntryType::Directory);
    guarded.tree_boundary = Ok(true);
    scanner.visit_entry(&dir, Ok(guarded)).unwrap();
    assert!(scanner.next_directory().is_none());
    assert!(scanner.finish(&state()).is_empty());
}

#[test]
fn boundary_search_descends_real_directories_only() {
    let mut search = BoundarySearch::start(b"/w/p/__MACOSX");
    let dir = search.next_directory().unwrap();
    let found = search
        .visit_entry(&dir, Ok(TreeEntry { name: b"vendor".to_vec(), entry_type: Ok(EntryType::Directory) }))
        .unwrap();
    assert!(!found);
    let linked = search
        .visit_entry(&dir, Ok(TreeEntry { name: b"link".to_vec(), entry_type: Ok(EntryType::Symlink) }))
        .unwrap();
    assert!(!linked);
    let next = search.next_directory().unwrap();
    assert_eq!(next, b"/w/p/__MACOSX/vendor".to_vec());
    let found = search
        .visit_entry(&next, Ok(TreeEntry { name: b".git".to_vec(), entry_type: Err(failure(IoKind::Other)) }))
        .unwrap();
    assert!(found);
    assert!(search.next_directory().is_none());
}

fn clean(parents: usize, own: EntryType) -> RepoCandidateObservation {
    RepoCandidateObservation {
        parent_types: vec![Ok(EntryType::Directory); parents],
        parent_boundaries: vec![Ok(false); parents],
        parent_canonical: Ok(b"/w/project".to_vec()),
        own_type: Ok(own),
        tree_boundary: Ok(false),
    }
}

#[test]
fn repo_cleanup_rejects_a_changed_layout() {
    let mut other = layout();
    other.git_common_dir = b"/w/main/.git".to_vec();
    let e = RepoCleanup::begin(repo_scan(), Ok(other)).err().unwrap();
    assert_eq!(e.error().kind, RepoErrorKind::LayoutChanged);
    assert!(e.removed().is_empty());
}

#[test]
fn repo_cleanup_checks_all_then_removes_in_order() {
    let mut cleanup = RepoCleanup::begin(repo_scan(), Ok(layout())).unwrap();
    let types = [EntryType::File, EntryType::Directory, EntryType::Symlink];
    loop {
        match cleanup.step() {
            CleanupStep::Verify(i) | CleanupStep::Recheck(i) => {
                let probe = cleanup.probe();
                cleanup.record_check(&clean(probe.parents.len(), types[i])).unwrap();
            }
            CleanupStep::Remove(_) => cleanup.record_removal(Ok(())).unwrap(),
            CleanupStep::Finished => break,
        }
    }
    let report = cleanup.finish();
    assert_eq!(report.removed, vec![b".DS_Store".to_vec(), b"__MACOSX".to_vec(), b"src/._item".to_vec()]);
}

#[test]
fn revalidation_rejects_a_new_nested_boundary_inside_macosx() {
    let mut cleanup = RepoCleanup::begin(repo_scan(), Ok(layout())).unwrap();
    cleanup.record_check(&clean(0, EntryType::File)).unwrap();
    let mut o = clean(0, EntryType::Directory);
    o.tree_boundary = Ok(true);
    let e = cleanup.record_check(&o).unwrap_err();
    assert_eq!(e.error().kind, RepoErrorKind::NestedBoundaryInCandidate);
    assert_eq!(e.error().path, b"__MACOSX".to_vec());
    assert!(e.error().message().contains("nested repository boundary"));
    assert!(e.removed().is_empty());
}

#[test]
fn revalidation_rejects_a_parent_replaced_by_a_symlink_or_a_repository() {
    let mut cleanup = RepoCleanup::begin(repo_scan(), Ok(layout())).unwrap();
    cleanup.record_check(&clean(0, EntryType::File)).unwrap();
    cleanup.record_check(&clean(0, EntryType::Directory)).unwrap();
    let probe = cleanup.probe();
    assert_eq!(probe.parents, vec![b"/w/project/src".to_vec()]);
    let mut o = clean(1, EntryType::Symlink);
    o.parent_boundaries = vec![Ok(true)];
    let e = cleanup.record_check(&o).unwrap_err();
    assert_eq!(e.error().kind, RepoErrorKind::NestedBoundaryAppeared);
    assert_eq!(e.error().path, b"/w/project/src".to_vec());
}

#[test]
fn partial_failure_reports_items_removed_before_the_error() {
    let mut cleanup = RepoCleanup::begin(repo_scan(), Ok(layout())).unwrap();
    let types = [EntryType::File, EntryType::Directory, EntryType::Symlink];
    for i in 0..3 {
        cleanup.record_check(&clean(if i == 2 { 1 } else { 0 }, types[i])).unwrap();
    }
    cleanup.record_check(&clean(0, EntryType::File)).unwrap();
    cleanup.record_removal(Ok(())).unwrap();
    cleanup.record_check(&clean(0, EntryType::Directory)).unwrap();
    let e = cleanup.record_removal(Err(failure(IoKind::Other))).unwrap_err();
    assert_eq!(e.error().kind, RepoErrorKind::RemoveFailed);
    assert_eq!(e.removed(), &[b".DS_Store".to_vec()][..]);
}

#[test]
fn repo_errors_read_as_the_program_states_them() {
    let e = git_path_key(b".git/x").unwrap_err();
    assert_eq!(e.message(), "refusing a path inside .git: .git/x");
    let e = git_single_line(b"a\nb").unwrap_err();
    assert_eq!(e.message(), "Git returned an invalid single-line response");
    let e = rmds::repo_cleaner::RepoError::new(
        RepoErrorKind::GitCommandFailed,
        b"/w/p".to_vec(),
        "fatal: not a git repository".to_string(),
    );
    assert_eq!(e.message(), "Git command failed in /w/p:\nfatal: not a git repository");
}

#[test]
fn a_candidate_touching_a_git_directory_is_never_removed() {
    let odd = RepoLayout {
        root: b"/w/project".to_vec(),
        git_dir: b"/w/project/src".to_vec(),
        git_common_dir: b"/w/project/.git".to_vec(),
    };
    let mut scanner = RepoScanner::start(odd.clone());
    let root = scanner.next_directory().unwrap();
    scanner.visit_entry(&root, Ok(obs("src", EntryType::Directory))).unwrap();
    let src = scanner.next_directory().unwrap();
    scanner.visit_entry(&src, Ok(obs("._item", EntryType::File))).unwrap();
    let scan = scanner.finish(&state());
    let mut cleanup = RepoCleanup::begin(scan, Ok(odd)).unwrap();
    let e = cleanup.record_check(&clean(1, EntryType::File)).unwrap_err();
    assert_eq!(e.error().kind, RepoErrorKind::GitInternalPath);
    assert_eq!(e.error().path, b"/w/project/src/._item".to_vec());
}

#[test]
fn only_directories_are_probed_for_git_and_only_macosx_trees_are_searched() {
    let dir: Result<EntryType, IoFailure> = Ok(EntryType::Directory);
    let file: Result<EntryType, IoFailure> = Ok(EntryType::File);
    assert!(needs_boundary(b"src", &dir));
    assert!(needs_boundary(b"__MACOSX", &dir));
    assert!(!needs_boundary(b".git", &dir));
    assert!(!needs_boundary(b"src", &file));
    assert!(!needs_boundary(b"a/b", &dir));
    assert!(!needs_boundary(b"src", &Err(failure(IoKind::Other))));
    assert!(needs_tree_search(b"__MACOSX", &dir, &Ok(false)));
    assert!(!needs_tree_search(b"__MACOSX", &dir, &Ok(true)));
    assert!(!needs_tree_search(b"__MACOSX", &dir, &Err(failure(IoKind::Other))));
    assert!(!needs_tree_search(b"src", &dir, &Ok(false)));
    assert!(!needs_tree_search(b"__MACOSX", &file, &Ok(false)));
}

#[test]
fn repeated_git_paths_change_no_status() {
    let repeated = GitPathState::new(
        vec![b"a/.DS_Store".to_vec(), b"a/.DS_Store".to_vec()],
        vec![b"a/.DS_Store".to_vec()],
        vec![b"a/.DS_Store".to_vec()],
        vec![b"b/x".to_vec(), b"b/x".to_vec()],
        vec![],
    );
    let once = GitPathState::new(
        vec![b"a/.DS_Store".to_vec()],
        vec![b"a/.DS_Store".to_vec()],
        vec![],
        vec![b"b/x".to_vec()],
        vec![],
    );
    for (key, t) in [
        (&b"a/.DS_Store"[..], CandidateType::RegularFile),
        (&b"a"[..], CandidateType::Directory),
        (&b"b"[..], CandidateType::Directory),
        (&b"c"[..], CandidateType::Directory),
    ] {
        assert_eq!(repeated.classify(key, t), once.classify(key, t));
    }
    assert_eq!(repeated.classify(b"a/.DS_Store", CandidateType::RegularFile), RepoGitStatus::TrackedModified);
}

use rmds::folder_cleaner::{
    check_candidate, check_root, classify_entry, CandidateObservation, CandidateType,
    CleanupStep, DirectoryReport, EntryFailure, EntryOutcome, FolderCleanup, FolderErrorKind,
    FolderScan, FolderScanner, ListedEntry,
};
use rmds::metadata::MetadataKind;
use rmds::observation::{EntryType, IoFailure, IoKind};
use rmds::observation::EntryType::{Directory, File};

fn failure(kind: IoKind) -> IoFailure {
    IoFailure { kind, detail: "host says no".to_string() }
}

fn entry(name: &str, t: EntryType) -> ListedEntry {
    ListedEntry { name: name.as_bytes().to_vec(), entry_type: t }
}

fn listing(dir: &[u8], entries: Vec<ListedEntry>) -> DirectoryReport {
    DirectoryReport {
        own_type: Ok(EntryType::Directory),
        canonical: Ok(dir.to_vec()),
        entries: Ok(entries),
        failure: None,
    }
}

/// Runs a scan of `/work/project` over a simulated tree: each directory's
/// listing is looked up by path.
fn scan_tree(tree: &[(&str, Vec<(&str, EntryType)>)]) -> FolderScan {
    let mut scanner = FolderScanner::start(
        b"project",
        Ok(EntryType::Directory),
        Ok(b"/work/project".to_vec()),
    )
    .unwrap();
    while let Some(dir) = scanner.next_directory() {
        let path = String::from_utf8(dir.path().to_vec()).unwrap();
        let entries = tree
            .iter()
            .find(|(p, _)| *p == path)
            .map(|(_, es)| es.iter().map(|(n, t)| entry(n, *t)).collect())
            .unwrap_or_default();
        scanner.visit(listing(dir.path(), entries)).unwrap();
    }
    scanner.finish()
}

fn relatives(scan: &FolderScan) -> Vec<String> {
    scan.candidates()
        .iter()
        .map(|c| String::from_utf8(c.relative_path().to_vec()).unwrap())
        .collect()
}

#[test]
fn scan_finds_only_supported_metadata_in_sorted_order() {
    let tree = vec![
        (
            "/work/project",
            vec![
                (".DS_Store", File),
                ("._photo.jpg", File),
                ("nested", Directory),
                ("__MACOSX", Directory),
                ("named", Directory),
                ("README.md", File),
                (".gitignore", File),
                ("DS_Store.txt", File),
                (".DS_Store.backup", File),
                ("foo._bar", File),
                ("__MACOSX-file", File),
            ],
        ),
        ("/work/project/nested", vec![(".DS_Store", File), ("__MACOSX", Directory)]),
        ("/work/project/named", vec![(".DS_Store", Directory), ("._cache", Directory)]),
        ("/work/project/named/.DS_Store", vec![("._inside", File)]),
        ("/work/project/named/._cache", vec![(".DS_Store", File)]),
    ];
    let scan = scan_tree(&tree);
    assert_eq!(scan.root(), b"/work/project");
    assert_eq!(
        relatives(&scan),
        vec![
            ".DS_Store",
            "._photo.jpg",
            "__MACOSX",
            "named/.DS_Store/._inside",
            "named/._cache/.DS_Store",
            "nested/.DS_Store",
            "nested/__MACOSX",
        ]
    );
    let macosx = &scan.candidates()[2];
    assert_eq!(macosx.metadata_kind(), MetadataKind::MacosxDirectory);
    assert_eq!(macosx.candidate_type(), CandidateType::Directory);
    assert!(macosx.display_as_directory());
    assert_eq!(macosx.path(), b"/work/project/__MACOSX");
}

#[test]
fn symlinks_are_candidates_by_name_and_never_followed() {
    assert_eq!(
        classify_entry(b"._external", EntryType::Symlink),
        EntryOutcome::Candidate(MetadataKind::AppleDouble, CandidateType::Symlink)
    );
    assert_eq!(
        classify_entry(b"__MACOSX", EntryType::Symlink),
        EntryOutcome::Candidate(MetadataKind::MacosxDirectory, CandidateType::Symlink)
    );
    assert_eq!(classify_entry(b"linked-directory", EntryType::Symlink), EntryOutcome::Skip);
    assert_eq!(classify_entry(b"__MACOSX", EntryType::File), EntryOutcome::Skip);
    assert_eq!(classify_entry(b".DS_Store", EntryType::Other), EntryOutcome::Skip);
    assert_eq!(classify_entry(b"src", EntryType::Directory), EntryOutcome::Descend);
}

#[test]
fn invalid_targets_are_rejected() {
    let e = FolderScanner::start(b"missing", Err(failure(IoKind::NotFound)), Err(failure(IoKind::Other)))
        .err()
        .unwrap();
    assert_eq!(e.kind, FolderErrorKind::TargetNotFound);
    assert_eq!(e.path, b"missing".to_vec());
    assert!(e.message().contains("not found"));
    let e = FolderScanner::start(b"file.txt", Ok(EntryType::File), Err(failure(IoKind::Other)))
        .err()
        .unwrap();
    assert_eq!(e.kind, FolderErrorKind::NotADirectory);
    assert!(e.message().contains("not a directory"));
    let e = FolderScanner::start(b"root-link", Ok(EntryType::Symlink), Err(failure(IoKind::Other)))
        .err()
        .unwrap();
    assert_eq!(e.kind, FolderErrorKind::SymlinkRoot);
}

#[test]
fn filesystem_root_is_rejected() {
    let e = FolderScanner::start(b"/", Ok(EntryType::Directory), Ok(b"/".to_vec())).err().unwrap();
    assert_eq!(e.kind, FolderErrorKind::FilesystemRoot);
    assert!(e.message().contains("filesystem root"));
}

#[test]
fn scan_errors_name_the_directory_or_entry() {
    let mut scanner =
        FolderScanner::start(b"p", Ok(EntryType::Directory), Ok(b"/w/p".to_vec())).unwrap();
    let dir = scanner.next_directory().unwrap();
    let report = DirectoryReport {
        own_type: Ok(EntryType::Directory),
        canonical: Ok(b"/w/p".to_vec()),
        entries: Ok(vec![entry(".DS_Store", EntryType::File)]),
        failure: Some(EntryFailure::Inspect(b"blocked".to_vec(), failure(IoKind::Other))),
    };
    let e = scanner.visit(report).unwrap_err();
    assert_eq!(e.kind, FolderErrorKind::CannotInspectEntry);
    assert_eq!(e.path, b"/w/p/blocked".to_vec());

    let mut scanner =
        FolderScanner::start(b"p", Ok(EntryType::Directory), Ok(b"/w/p".to_vec())).unwrap();
    let dir = scanner.next_directory().unwrap();
    let escaped = DirectoryReport {
        own_type: Ok(EntryType::Directory),
        canonical: Ok(b"/elsewhere".to_vec()),
        entries: Ok(vec![]),
        failure: None,
    };
    assert_eq!(scanner.visit(escaped).unwrap_err().kind, FolderErrorKind::DirectoryEscaped);
}

fn clean_observation(parents: usize, own: EntryType) -> CandidateObservation {
    CandidateObservation {
        parent_types: vec![Ok(EntryType::Directory); parents],
        parent_canonical: Ok(b"/work/project".to_vec()),
        own_type: Ok(own),
    }
}

fn two_candidate_scan() -> FolderScan {
    scan_tree(&[
        ("/work/project", vec![(".DS_Store", File), ("assets", Directory)]),
        ("/work/project/assets", vec![("._logo.png", File), ("logo.png", File)]),
    ])
}

#[test]
fn apply_checks_everything_before_removing_and_reports_the_plan() {
    let scan = two_candidate_scan();
    assert_eq!(relatives(&scan), vec![".DS_Store", "assets/._logo.png"]);
    let mut cleanup =
        FolderCleanup::begin(scan, Ok(EntryType::Directory), Ok(b"/work/project".to_vec())).unwrap();
    let mut removals = Vec::new();
    loop {
        match cleanup.step() {
            CleanupStep::Verify(_) | CleanupStep::Recheck(_) => {
                let probe = cleanup.probe();
                let obs = clean_observation(probe.parents.len(), EntryType::File);
                cleanup.record_check(&obs).unwrap();
            }
            CleanupStep::Remove(i) => {
                assert_eq!(removals.len(), i);
                removals.push(cleanup.current().path().to_vec());
                cleanup.record_removal(Ok(())).unwrap();
            }
            CleanupStep::Finished => break,
        }
    }
    let report = cleanup.finish();
    assert_eq!(report.removed, vec![b".DS_Store".to_vec(), b"assets/._logo.png".to_vec()]);
    assert_eq!(
        removals,
        vec![b"/work/project/.DS_Store".to_vec(), b"/work/project/assets/._logo.png".to_vec()]
    );
}

#[test]
fn apply_preflight_rejects_a_candidate_that_changed_type() {
    let mut cleanup = FolderCleanup::begin(
        two_candidate_scan(),
        Ok(EntryType::Directory),
        Ok(b"/work/project".to_vec()),
    )
    .unwrap();
    assert_eq!(cleanup.step(), CleanupStep::Verify(0));
    let obs = clean_observation(0, EntryType::Directory);
    let e = cleanup.record_check(&obs).unwrap_err();
    assert_eq!(e.error().kind, FolderErrorKind::CandidateChangedType);
    assert_eq!(e.error().path, b".DS_Store".to_vec());
    assert!(e.removed().is_empty());
}

#[test]
fn apply_preflight_rejects_a_missing_candidate_before_deleting_anything() {
    let mut cleanup = FolderCleanup::begin(
        two_candidate_scan(),
        Ok(EntryType::Directory),
        Ok(b"/work/project".to_vec()),
    )
    .unwrap();
    cleanup.record_check(&clean_observation(0, EntryType::File)).unwrap();
    assert_eq!(cleanup.step(), CleanupStep::Verify(1));
    let probe = cleanup.probe();
    assert_eq!(probe.parents, vec![b"/work/project/assets".to_vec()]);
    assert_eq!(probe.parent, b"/work/project/assets".to_vec());
    let mut obs = clean_observation(1, EntryType::File);
    obs.own_type = Err(failure(IoKind::NotFound));
    let e = cleanup.record_check(&obs).unwrap_err();
    assert_eq!(e.error().kind, FolderErrorKind::CandidateChangedOrDisappeared);
    assert!(e.removed().is_empty());
}

#[test]
fn apply_rejects_a_parent_replaced_with_a_symlink() {
    let scan = two_candidate_scan();
    let root = scan.root().to_vec();
    let candidate = scan.candidates()[1].clone();
    let mut obs = clean_observation(1, EntryType::File);
    obs.parent_types = vec![Ok(EntryType::Symlink)];
    let e = check_candidate(&root, &candidate, &obs).unwrap_err();
    assert_eq!(e.kind, FolderErrorKind::ParentChanged);
    assert_eq!(e.path, b"/work/project/assets".to_vec());
    let mut obs = clean_observation(1, EntryType::File);
    obs.parent_canonical = Ok(b"/outside".to_vec());
    assert_eq!(check_candidate(&root, &candidate, &obs).unwrap_err().kind, FolderErrorKind::ParentEscaped);
}

#[test]
fn partial_apply_error_reports_items_already_removed() {
    let mut cleanup = FolderCleanup::begin(
        two_candidate_scan(),
        Ok(EntryType::Directory),
        Ok(b"/work/project".to_vec()),
    )
    .unwrap();
    cleanup.record_check(&clean_observation(0, EntryType::File)).unwrap();
    cleanup.record_check(&clean_observation(1, EntryType::File)).unwrap();
    assert_eq!(cleanup.step(), CleanupStep::Recheck(0));
    cleanup.record_check(&clean_observation(0, EntryType::File)).unwrap();
    cleanup.record_removal(Ok(())).unwrap();
    cleanup.record_check(&clean_observation(1, EntryType::File)).unwrap();
    assert_eq!(cleanup.step(), CleanupStep::Remove(1));
    let e = cleanup.record_removal(Err(failure(IoKind::Other))).unwrap_err();
    assert_eq!(e.error().kind, FolderErrorKind::RemoveFailed);
    assert_eq!(e.error().path, b"assets/._logo.png".to_vec());
    assert_eq!(e.removed(), &[b".DS_Store".to_vec()][..]);
}

#[test]
fn a_changed_root_stops_the_cleanup() {
    let e = FolderCleanup::begin(two_candidate_scan(), Ok(EntryType::Symlink), Ok(b"/x".to_vec()))
        .err()
        .unwrap();
    assert_eq!(e.error().kind, FolderErrorKind::RootChanged);
    assert!(check_root(b"/work/project", Ok(EntryType::Directory), Ok(b"/work/project/".to_vec())).is_ok());
    assert_eq!(
        check_root(b"/work/project", Ok(EntryType::Directory), Ok(b"/work/other".to_vec()))
            .unwrap_err()
            .kind,
        FolderErrorKind::RootChanged
    );
}

#[test]
fn an_empty_scan_finishes_at_once() {
    let scan = scan_tree(&[("/work/project", vec![("keep.txt", EntryType::File)])]);
    assert!(scan.is_empty());
    let cleanup =
        FolderCleanup::begin(scan, Ok(EntryType::Directory), Ok(b"/work/project".to_vec())).unwrap();
    assert_eq!(cleanup.step(), CleanupStep::Finished);
    assert!(cleanup.finish().removed.is_empty());
}

#[test]
fn folder_errors_read_as_the_program_states_them() {
    let e = FolderScanner::start(b"missing", Err(failure(IoKind::NotFound)), Err(failure(IoKind::Other)))
        .err()
        .unwrap();
    assert_eq!(e.message(), "directory not found:\nmissing");
    let mut cleanup = FolderCleanup::begin(
        two_candidate_scan(),
        Ok(EntryType::Directory),
        Ok(b"/work/project".to_vec()),
    )
    .unwrap();
    let e = cleanup.record_check(&clean_observation(0, EntryType::Directory)).unwrap_err();
    assert!(e.error().message().contains("changed type"));
    let e = rmds::folder_cleaner::FolderError::new(
        FolderErrorKind::RemoveFailed,
        b"a/\xff".to_vec(),
        "denied".to_string(),
    );
    assert_eq!(e.message(), "failed to remove metadata:\na/\u{fffd}\n\nReason:\ndenied");
}

#[test]
fn scan_order_does_not_depend_on_listing_order() {
    let forward = vec![
        ("/work/project", vec![("b", Directory), (".DS_Store", File), ("a", Directory)]),
        ("/work/project/a", vec![("._x", File), (".DS_Store", File)]),
        ("/work/project/b", vec![("__MACOSX", Directory)]),
    ];
    let backward: Vec<(&str, Vec<(&str, EntryType)>)> = forward
        .iter()
        .map(|(p, es)| (*p, es.iter().rev().cloned().collect()))
        .collect();
    assert_eq!(scan_tree(&forward), scan_tree(&backward));
    let one = relatives(&scan_tree(&forward));
    let two = relatives(&scan_tree(&backward));
    assert_eq!(one, two);
    assert_eq!(one, vec![".DS_Store", "a/.DS_Store", "a/._x", "b/__MACOSX"]);
}

#[test]
fn scans_of_one_tree_walked_in_any_order_agree() {
    let forward = vec![
        ("/work/project", vec![(".DS_Store", File), ("a", Directory), ("b", Directory)]),
        ("/work/project/a", vec![("._x", File), ("__MACOSX", Directory)]),
        ("/work/project/b", vec![(".DS_Store", File)]),
    ];
    let backward = vec![
        ("/work/project", vec![("b", Directory), ("a", Directory), (".DS_Store", File)]),
        ("/work/project/a", vec![("__MACOSX", Directory), ("._x", File)]),
        ("/work/project/b", vec![(".DS_Store", File)]),
    ];
    let first = scan_tree(&forward);
    let second = scan_tree(&backward);
    assert_eq!(first, second);
    assert_eq!(relatives(&first), vec![".DS_Store", "a/._x", "a/__MACOSX", "b/.DS_Store"]);
    for c in first.candidates() {
        let mut joined = first.root().to_vec();
        joined.push(b'/');
        joined.extend_from_slice(c.relative_path());
        assert_eq!(c.path(), joined.as_slice());
    }
}

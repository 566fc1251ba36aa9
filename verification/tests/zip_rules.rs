use rmds::observation::{EntryType, IoFailure, IoKind};
use rmds::zip_cleaner::{
    check_structure, check_symlink_entry, default_output_path, output_parent, publish_error,
    symlink_target, validate_entry_name, validate_input_output, CleanErrorKind, EntryAction,
    EntryCheck, EntryHeader, UnsafeEntryName, ZipCleaning, VERIFY_BUFFER_SIZE,
};

fn header(name: &str) -> EntryHeader {
    EntryHeader {
        raw_name: name.as_bytes().to_vec(),
        display_name: name.to_string(),
        encrypted: false,
        symlink: false,
    }
}

fn failure(kind: IoKind) -> IoFailure {
    IoFailure { kind, detail: "host says no".to_string() }
}

#[test]
fn derives_default_output_name() {
    assert_eq!(
        default_output_path(b"somewhere/archive.zip"),
        b"somewhere/archive-clean.zip".to_vec()
    );
    assert_eq!(default_output_path(b"archive"), b"archive-clean.zip".to_vec());
}

#[test]
fn zip_cleaner_rejects_suspicious_archive_paths() {
    for name in [
        &b"../file"[..],
        &b"foo/../../file"[..],
        &b"/absolute"[..],
        &b"C:\\file"[..],
        &b"foo\\bar"[..],
        &b"foo//bar"[..],
        &b"foo\0bar"[..],
    ] {
        assert!(validate_entry_name(name).is_err(), "{name:?}");
    }
}

#[test]
fn accepts_zip_paths_and_unicode_bytes() {
    for name in [&b"foo/bar.txt"[..], &b"empty/"[..], "照片/台北.jpg".as_bytes()] {
        assert_eq!(validate_entry_name(name), Ok(()), "{name:?}");
    }
}

#[test]
fn each_unsafe_name_has_its_reason() {
    assert_eq!(validate_entry_name(b""), Err(UnsafeEntryName::Empty));
    assert_eq!(validate_entry_name(b"a\0b"), Err(UnsafeEntryName::NulByte));
    assert_eq!(validate_entry_name(b"/x"), Err(UnsafeEntryName::Absolute));
    assert_eq!(validate_entry_name(b"\\x"), Err(UnsafeEntryName::Absolute));
    assert_eq!(validate_entry_name(b"a\\b"), Err(UnsafeEntryName::Backslash));
    assert_eq!(validate_entry_name(b"a//b"), Err(UnsafeEntryName::EmptyComponent));
    assert_eq!(validate_entry_name(b"a/./b"), Err(UnsafeEntryName::Traversal));
    assert_eq!(validate_entry_name(b"a/.."), Err(UnsafeEntryName::Traversal));
    assert_eq!(validate_entry_name(b"C:x"), Err(UnsafeEntryName::DrivePrefix));
    assert_eq!(UnsafeEntryName::Traversal.reason(), "entry path contains a traversal component");
}

#[test]
fn default_output_keeps_the_directory_and_drops_the_last_extension() {
    assert_eq!(default_output_path(b"a/b.tar.zip"), b"a/b.tar-clean.zip".to_vec());
    assert_eq!(default_output_path(b".hidden"), b".hidden-clean.zip".to_vec());
    assert_eq!(default_output_path(b"/data/x.zip"), b"/data/x-clean.zip".to_vec());
}

#[test]
fn output_parent_is_the_directory_or_dot() {
    assert_eq!(output_parent(b"dir/out.zip"), b"dir".to_vec());
    assert_eq!(output_parent(b"out.zip"), b".".to_vec());
}

#[test]
fn input_and_output_are_checked_in_order() {
    let ok = Ok(EntryType::File);
    let dir = Ok(EntryType::Directory);
    let e = validate_input_output(b"d/a.zip", b"d//a.zip", ok.clone(), false, dir.clone()).unwrap_err();
    assert_eq!(e.kind, CleanErrorKind::SameInputOutput);
    let e = validate_input_output(b"a.zip", b"b.zip", Err(failure(IoKind::NotFound)), false, dir.clone())
        .unwrap_err();
    assert_eq!(e.kind, CleanErrorKind::InputNotFound);
    assert_eq!(e.subject, b"a.zip".to_vec());
    let e = validate_input_output(b"a.zip", b"b.zip", Ok(EntryType::Directory), false, dir.clone())
        .unwrap_err();
    assert_eq!(e.kind, CleanErrorKind::InputNotRegularFile);
    let e = validate_input_output(b"a.zip", b"b.zip", ok.clone(), true, dir.clone()).unwrap_err();
    assert_eq!(e.kind, CleanErrorKind::OutputExists);
    assert_eq!(e.subject, b"b.zip".to_vec());
    let e = validate_input_output(b"a.zip", b"d/b.zip", ok.clone(), false, Ok(EntryType::File))
        .unwrap_err();
    assert_eq!(e.kind, CleanErrorKind::OutputParentNotDirectory);
    assert_eq!(e.subject, b"d".to_vec());
    assert!(validate_input_output(b"a.zip", b"b.zip", ok, false, dir).is_ok());
}

#[test]
fn overlapping_archives_and_publish_collisions_are_refused() {
    assert!(check_structure(b"a.zip", Ok(false)).is_ok());
    assert_eq!(check_structure(b"a.zip", Ok(true)).unwrap_err().kind, CleanErrorKind::OverlappingEntries);
    assert_eq!(
        check_structure(b"a.zip", Err("bad".to_string())).unwrap_err().kind,
        CleanErrorKind::CannotValidateStructure
    );
    assert_eq!(publish_error(b"o.zip", failure(IoKind::AlreadyExists)).kind, CleanErrorKind::OutputExists);
    assert_eq!(publish_error(b"o.zip", failure(IoKind::Other)).kind, CleanErrorKind::CannotPublishOutput);
}

#[test]
fn cleaning_drops_metadata_copies_the_rest_and_records_what_it_left_out() {
    let mut cleaning = ZipCleaning::new(4);
    assert_eq!(cleaning.next_entry(), Some(0));
    assert_eq!(cleaning.plan_entry(&header("project/README.md"), EntryCheck::Intact).unwrap(), EntryAction::RawCopy);
    assert_eq!(cleaning.plan_entry(&header("project/.DS_Store"), EntryCheck::Intact).unwrap(), EntryAction::Drop);
    let mut link = header("project/link");
    link.symlink = true;
    assert_eq!(cleaning.plan_entry(&link, EntryCheck::Intact).unwrap(), EntryAction::CopySymlink);
    assert_eq!(cleaning.plan_entry(&header("__MACOSX/._a"), EntryCheck::Intact).unwrap(), EntryAction::Drop);
    assert_eq!(cleaning.next_entry(), None);
    let removed: Vec<String> = cleaning.removed_entries().clone();
    assert_eq!(removed, vec!["project/.DS_Store".to_string(), "__MACOSX/._a".to_string()]);
    let scan = cleaning.into_scan(b"in.zip".to_vec());
    assert_eq!(scan.input(), b"in.zip");
    assert_eq!(scan.candidates().len(), 2);
    assert!(!scan.is_empty());
}

#[test]
fn refused_entries_stop_the_cleaning() {
    let mut cleaning = ZipCleaning::new(3);
    let e = cleaning.plan_entry(&header("../x"), EntryCheck::Intact).unwrap_err();
    assert_eq!(e.kind, CleanErrorKind::UnsafeEntry(UnsafeEntryName::Traversal));
    assert_eq!(e.subject, b"../x".to_vec());
    let mut secret = header("secret.txt");
    secret.encrypted = true;
    assert_eq!(cleaning.plan_entry(&secret, EntryCheck::Intact).unwrap_err().kind, CleanErrorKind::EncryptedEntry);
    assert_eq!(
        cleaning.plan_entry(&header("a.txt"), EntryCheck::Corrupt("crc".to_string())).unwrap_err().kind,
        CleanErrorKind::CorruptEntry
    );
}

#[test]
fn symlink_targets_must_be_short_utf8() {
    let mut link = header("link");
    link.symlink = true;
    assert!(check_symlink_entry(&link, 10).is_ok());
    assert_eq!(
        check_symlink_entry(&link, VERIFY_BUFFER_SIZE as u64 + 1).unwrap_err().kind,
        CleanErrorKind::SymlinkTooLarge
    );
    let mut odd = link.clone();
    odd.raw_name = b"lin\xffk".to_vec();
    assert_eq!(check_symlink_entry(&odd, 10).unwrap_err().kind, CleanErrorKind::NonUtf8SymlinkName);
    assert_eq!(symlink_target(&link, b"README.md".to_vec()).unwrap(), "README.md");
    assert_eq!(
        symlink_target(&link, vec![0xff, 0xfe]).unwrap_err().kind,
        CleanErrorKind::NonUtf8SymlinkTarget
    );
    assert_eq!(
        symlink_target(&link, vec![b'a'; VERIFY_BUFFER_SIZE + 1]).unwrap_err().kind,
        CleanErrorKind::SymlinkTooLarge
    );
}

#[test]
fn zip_errors_quote_entry_names_and_show_paths() {
    let mut cleaning = ZipCleaning::new(1);
    let e = cleaning.plan_entry(&header("../x\"y"), EntryCheck::Intact).unwrap_err();
    assert_eq!(
        e.message(),
        "unsafe ZIP entry \"../x\\\"y\": entry path contains a traversal component"
    );
    let e = validate_input_output(b"in\xff.zip", b"out.zip", Err(failure(IoKind::NotFound)), false, Ok(EntryType::Directory))
        .unwrap_err();
    assert_eq!(e.message(), "file not found:\nin\u{fffd}.zip");
    let e = check_structure(b"a.zip", Ok(true)).unwrap_err();
    assert_eq!(e.message(), "unsafe ZIP structure: archive entries overlap");
}

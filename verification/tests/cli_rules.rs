use rmds::cli::{
    check_exit_code, colors_enabled, deletion_confirmed, entry_word, failure_status, folder_run_step,
    is_delete_confirmation, parse_args, repo_run_step, styled, CliAction, Color, FolderMode,
    HelpTopic, RepoMode, RunStep, UsageErrorKind, ZipMode,
};

fn args(values: &[&str]) -> Vec<Vec<u8>> {
    values.iter().map(|v| v.as_bytes().to_vec()).collect()
}

#[test]
fn parses_zip_default_and_custom_outputs() {
    let CliAction::Zip { input, mode } = parse_args(&args(&["zip", "a.zip"])).unwrap() else {
        panic!("expected zip action");
    };
    assert_eq!(input, b"a.zip".to_vec());
    assert_eq!(mode, ZipMode::Clean { output: b"a-clean.zip".to_vec() });

    let CliAction::Zip { mode, .. } =
        parse_args(&args(&["zip", "a.zip", "--output", "b.zip"])).unwrap()
    else {
        panic!("expected zip action");
    };
    assert_eq!(mode, ZipMode::Clean { output: b"b.zip".to_vec() });

    let CliAction::Zip { mode, input } = parse_args(&args(&["zip", "--check", "a.zip"])).unwrap()
    else {
        panic!("expected ZIP check action");
    };
    assert_eq!(mode, ZipMode::Check);
    assert_eq!(input, b"a.zip".to_vec());
}

#[test]
fn parses_folder_preview_default_and_path() {
    let CliAction::Folder { mode, path } = parse_args(&args(&["folder"])).unwrap() else {
        panic!("expected folder action");
    };
    assert_eq!(mode, FolderMode::Preview);
    assert_eq!(path, b".".to_vec());

    let CliAction::Folder { mode, path } = parse_args(&args(&["folder", "photos"])).unwrap()
    else {
        panic!("expected folder action");
    };
    assert_eq!(mode, FolderMode::Preview);
    assert_eq!(path, b"photos".to_vec());
}

#[test]
fn parses_folder_apply_only_in_canonical_order() {
    let CliAction::Folder { mode, path } =
        parse_args(&args(&["folder", "--apply", "photos"])).unwrap()
    else {
        panic!("expected folder action");
    };
    assert_eq!(mode, FolderMode::Apply);
    assert_eq!(path, b"photos".to_vec());

    assert!(parse_args(&args(&["folder", "--apply"])).is_err());
    assert!(parse_args(&args(&["folder", "photos", "--apply"])).is_err());
    assert!(parse_args(&args(&["folder", "--apply", "photos", "extra"])).is_err());
}

#[test]
fn parses_folder_check_default_and_path_in_canonical_order() {
    let CliAction::Folder { mode, path } = parse_args(&args(&["folder", "--check"])).unwrap()
    else {
        panic!("expected folder action");
    };
    assert_eq!(mode, FolderMode::Check);
    assert_eq!(path, b".".to_vec());

    let CliAction::Folder { mode, path } =
        parse_args(&args(&["folder", "--check", "photos"])).unwrap()
    else {
        panic!("expected folder action");
    };
    assert_eq!(mode, FolderMode::Check);
    assert_eq!(path, b"photos".to_vec());

    assert!(parse_args(&args(&["folder", "photos", "--check"])).is_err());
    assert!(parse_args(&args(&["folder", "--check", "--apply", "."])).is_err());
    assert!(parse_args(&args(&["folder", "--check", "one", "two"])).is_err());
}

#[test]
fn parses_version_without_extra_arguments() {
    assert!(matches!(parse_args(&args(&["--version"])), Ok(CliAction::Version)));
    assert!(parse_args(&args(&["--version", "extra"])).is_err());
}

#[test]
fn parses_repo_default_and_path_without_apply_mode() {
    let CliAction::Repo { mode, path } = parse_args(&args(&["repo"])).unwrap() else {
        panic!("expected repo action");
    };
    assert_eq!(mode, RepoMode::Clean);
    assert_eq!(path, b".".to_vec());

    let CliAction::Repo { mode, path } = parse_args(&args(&["repo", "project"])).unwrap() else {
        panic!("expected repo action");
    };
    assert_eq!(mode, RepoMode::Clean);
    assert_eq!(path, b"project".to_vec());

    let CliAction::Repo { mode, path } = parse_args(&args(&["repo", "--check"])).unwrap() else {
        panic!("expected repo check action");
    };
    assert_eq!(mode, RepoMode::Check);
    assert_eq!(path, b".".to_vec());

    let CliAction::Repo { mode, path } =
        parse_args(&args(&["repo", "--check", "project"])).unwrap()
    else {
        panic!("expected repo check action");
    };
    assert_eq!(mode, RepoMode::Check);
    assert_eq!(path, b"project".to_vec());

    assert!(parse_args(&args(&["repo", "--apply"])).is_err());
    assert!(parse_args(&args(&["repo", "--apply", "project"])).is_err());
    assert!(parse_args(&args(&["repo", "project", "--apply"])).is_err());
    assert!(parse_args(&args(&["repo", "one", "two"])).is_err());
    assert!(parse_args(&args(&["repo", "project", "--check"])).is_err());
    assert!(parse_args(&args(&["repo", "--check", "--apply", "."])).is_err());
    assert!(parse_args(&args(&["repo", "--check", "one", "two"])).is_err());
}

#[test]
fn confirmation_is_exact_except_for_line_ending() {
    assert!(is_delete_confirmation("DELETE"));
    assert!(is_delete_confirmation("DELETE\n"));
    assert!(is_delete_confirmation("DELETE\r\n"));
    for rejected in ["delete\n", " DELETE\n", "DELETE \n", "DELETE\r", "DELETE\n\n"] {
        assert!(!is_delete_confirmation(rejected), "{rejected:?}");
    }
}

#[test]
fn rejects_invalid_arguments() {
    assert!(parse_args(&args(&["zip"])).is_err());
    assert!(parse_args(&args(&["zip", "a.zip", "--output"])).is_err());
    assert!(parse_args(&args(&["zip", "a.zip", "extra"])).is_err());
    assert!(parse_args(&args(&["zip", "--check"])).is_err());
    assert!(parse_args(&args(&["zip", "a.zip", "--check"])).is_err());
    assert!(parse_args(&args(&["zip", "--check", "a.zip", "-o", "b.zip"])).is_err());
    assert!(parse_args(&args(&["folder", "--force", "photos"])).is_err());
}

#[test]
fn color_requires_a_terminal_and_respects_no_color() {
    assert!(colors_enabled(true, false));
    assert!(!colors_enabled(false, false));
    assert!(!colors_enabled(true, true));

    assert_eq!(styled("warning", Color::Red, false), "warning");
    assert_eq!(styled("warning", Color::Red, true), "\x1b[31mwarning\x1b[0m");
}

#[test]
fn usage_errors_name_the_offending_argument() {
    let e = parse_args(&args(&["bogus"])).unwrap_err();
    assert_eq!(e.kind, UsageErrorKind::UnknownCommand);
    assert_eq!(e.argument, b"bogus".to_vec());

    let e = parse_args(&args(&["zip", "a.zip", "extra"])).unwrap_err();
    assert_eq!(e.kind, UsageErrorKind::UnexpectedZipArgument);
    assert_eq!(e.argument, b"extra".to_vec());

    let e = parse_args(&args(&["zip", "a.zip", "--output"])).unwrap_err();
    assert_eq!(e.kind, UsageErrorKind::MissingOutputPath);

    let e = parse_args(&args(&["zip", "a.zip", "--output", "b", "--output", "c"])).unwrap_err();
    assert_eq!(e.kind, UsageErrorKind::OutputGivenTwice);

    let e = parse_args(&args(&["zip"])).unwrap_err();
    assert_eq!(e.kind, UsageErrorKind::MissingZipInput);

    let e = parse_args(&args(&["folder", "--apply"])).unwrap_err();
    assert_eq!(e.kind, UsageErrorKind::ApplyNeedsPath);

    let e = parse_args(&args(&["folder", "--force", "photos"])).unwrap_err();
    assert_eq!(e.kind, UsageErrorKind::UnknownFolderOption);
    assert_eq!(e.argument, b"--force".to_vec());

    let e = parse_args(&args(&["repo", "--apply"])).unwrap_err();
    assert_eq!(e.kind, UsageErrorKind::UnknownRepoOption);
}

#[test]
fn help_is_offered_for_each_command() {
    assert!(matches!(parse_args(&args(&[])), Ok(CliAction::Help(HelpTopic::Main))));
    assert!(matches!(parse_args(&args(&["--help"])), Ok(CliAction::Help(HelpTopic::Main))));
    assert!(matches!(parse_args(&args(&["zip", "--help"])), Ok(CliAction::Help(HelpTopic::Zip))));
    assert!(matches!(
        parse_args(&args(&["folder", "--help"])),
        Ok(CliAction::Help(HelpTopic::Folder))
    ));
    assert!(matches!(parse_args(&args(&["repo", "--help"])), Ok(CliAction::Help(HelpTopic::Repo))));
}

#[test]
fn exit_codes_and_entry_words_follow_the_count() {
    assert_eq!(check_exit_code(0), 0);
    assert_eq!(check_exit_code(1), 1);
    assert_eq!(check_exit_code(7), 1);
    assert_eq!(entry_word(1), "entry");
    assert_eq!(entry_word(0), "entries");
    assert_eq!(entry_word(2), "entries");
}

#[test]
fn usage_errors_read_as_the_program_states_them() {
    let e = parse_args(&args(&["bogus"])).unwrap_err();
    assert_eq!(e.message(), "unknown command: bogus");
    let e = parse_args(&args(&["repo", "--apply"])).unwrap_err();
    assert_eq!(e.message(), "unknown repo option: --apply\n\nUsage:\n  rmds repo [PATH]");
    let e = parse_args(&vec![b"zip".to_vec(), b"a.zip".to_vec(), b"x\xff".to_vec()]).unwrap_err();
    assert_eq!(e.message(), "unexpected argument: x\u{fffd}");
}

#[test]
fn check_syntax_is_canonical() {
    for arguments in [
        &["folder", ".", "--check"][..],
        &["repo", ".", "--check"][..],
        &["zip", "archive.zip", "--check"][..],
        &["folder", "--check", "one", "two"][..],
        &["repo", "--check", "one", "two"][..],
        &["zip", "--check"][..],
        &["zip", "--check", "archive.zip", "extra.zip"][..],
        &["folder", "--check", "--apply", "."][..],
        &["repo", "--check", "--apply", "."][..],
        &["zip", "--check", "archive.zip", "-o", "output.zip"][..],
    ] {
        assert!(parse_args(&args(arguments)).is_err(), "{arguments:?}");
    }
    for arguments in [&["--help"][..], &["folder", "--help"][..], &["repo", "--help"][..], &["zip", "--help"][..]] {
        assert!(matches!(parse_args(&args(arguments)), Ok(CliAction::Help(_))), "{arguments:?}");
    }
}

#[test]
fn apply_requires_an_explicit_path_in_canonical_order() {
    let missing = parse_args(&args(&["folder", "--apply"])).unwrap_err();
    assert!(missing.message().contains("apply mode requires an explicit path"));
    assert!(parse_args(&args(&["folder", ".", "--apply"])).is_err());
}

#[test]
fn repo_apply_syntax_and_extra_paths_are_refused() {
    for arguments in [
        &["repo", "--apply"][..],
        &["repo", "--apply", "."][..],
        &["repo", ".", "--apply"][..],
        &["repo", "one", "two"][..],
        &["repo", "--unknown"][..],
    ] {
        let e = parse_args(&args(arguments)).unwrap_err();
        assert!(e.message().contains("rmds repo [PATH]"), "{arguments:?}");
    }
}

#[test]
fn checks_and_previews_never_offer_removal() {
    assert_eq!(folder_run_step(FolderMode::Check, 0), RunStep::ReportCheck(0));
    assert_eq!(folder_run_step(FolderMode::Check, 3), RunStep::ReportCheck(1));
    assert_eq!(folder_run_step(FolderMode::Preview, 0), RunStep::NothingFound);
    assert_eq!(folder_run_step(FolderMode::Preview, 2), RunStep::Preview);
    assert_eq!(folder_run_step(FolderMode::Apply, 0), RunStep::NothingFound);
    assert_eq!(folder_run_step(FolderMode::Apply, 2), RunStep::ConfirmAndRemove);
    assert_eq!(repo_run_step(RepoMode::Check, 1), RunStep::ReportCheck(1));
    assert_eq!(repo_run_step(RepoMode::Clean, 0), RunStep::NothingFound);
    assert_eq!(repo_run_step(RepoMode::Clean, 1), RunStep::ConfirmAndRemove);
    assert_eq!(failure_status(true), 2);
    assert_eq!(failure_status(false), 1);
}

#[test]
fn deletion_needs_an_interactive_terminal_and_the_exact_word() {
    assert!(deletion_confirmed(true, Some("DELETE\n")));
    assert!(deletion_confirmed(true, Some("DELETE")));
    assert!(!deletion_confirmed(false, Some("DELETE\n")));
    assert!(!deletion_confirmed(true, None));
    assert!(!deletion_confirmed(true, Some("delete\n")));
    assert!(!deletion_confirmed(true, Some(" DELETE\n")));
}

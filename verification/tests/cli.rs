use fig2json::cli::{
    check_target_options, choose_mode, classify_entry, ArchiveRun, CliError, EntryKind, Mode,
    Outcome, Step,
};
use fig2json::schema::NodeId;

#[test]
fn rejects_invalid_node_id_before_reading_input() {
    // `--node not-an-id` is refused by the id parser, and the error explains
    // the expected id form.
    let err = "not-an-id".parse::<NodeId>().unwrap_err();
    assert!(
        err.contains("sessionID:localID"),
        "error should explain the expected id form; got: {err}"
    );
}

#[test]
fn rejects_raw_combined_with_node() {
    let err = check_target_options(true, true).unwrap_err();
    assert_eq!(err, CliError::RawWithNode);
    let message = err.message();
    assert!(
        message.contains("--raw cannot be combined with --node"),
        "error should explain the --raw/--node conflict; got: {message}"
    );
}

#[test]
fn raw_or_node_alone_is_accepted() {
    assert_eq!(check_target_options(true, false), Ok(()));
    assert_eq!(check_target_options(false, true), Ok(()));
    assert_eq!(check_target_options(false, false), Ok(()));
}

#[test]
fn single_file_mode_ignores_extract_dir_and_output() {
    assert_eq!(choose_mode(false, false, false), Ok(Mode::Single));
    assert_eq!(choose_mode(false, true, true), Ok(Mode::Single));
}

#[test]
fn zip_requires_extract_dir() {
    let err = choose_mode(true, false, false).unwrap_err();
    assert_eq!(err, CliError::MissingExtractDir);
    assert_eq!(err.message(), "ZIP files require an extraction directory as second argument");
    // The missing directory is reported before the output flag.
    assert_eq!(choose_mode(true, false, true), Err(CliError::MissingExtractDir));
}

#[test]
fn zip_refuses_output_flag() {
    let err = choose_mode(true, true, true).unwrap_err();
    assert_eq!(err, CliError::OutputWithExtractDir);
    assert_eq!(
        err.message(),
        "Cannot use -o/--output flag with extraction directory (ZIP mode)"
    );
    assert_eq!(choose_mode(true, true, false), Ok(Mode::Archive));
}

#[test]
fn archive_without_fig_files_is_refused() {
    let err = ArchiveRun::start(0, None).err().unwrap();
    assert_eq!(err, CliError::NoFigFiles);
    assert_eq!(err.message(), "No .fig files found in ZIP archive");
}

#[test]
fn archive_run_without_target_converts_every_file() {
    let mut run = ArchiveRun::start(2, None).ok().unwrap();
    assert_eq!(run.record(Outcome::Converted), Step::Write);
    assert_eq!(run.record(Outcome::Converted), Step::Write);
    assert_eq!(run.converted(), 2);
    assert_eq!(run.finish().unwrap(), "Done! Converted 2 file(s)");
}

#[test]
fn archive_run_without_target_stops_on_missing_node() {
    let mut run = ArchiveRun::start(3, None).ok().unwrap();
    assert_eq!(run.record(Outcome::NodeNotFound), Step::Abort);
}

#[test]
fn archive_run_stops_on_failure() {
    let mut run = ArchiveRun::start(3, Some(NodeId { session_id: 1, local_id: 2 })).ok().unwrap();
    assert_eq!(run.record(Outcome::Failed), Step::Abort);
}

#[test]
fn archive_run_with_target_skips_files_without_the_node() {
    let target = NodeId { session_id: 1, local_id: 2 };
    let mut run = ArchiveRun::start(12, Some(target)).ok().unwrap();
    assert_eq!(run.record(Outcome::NodeNotFound), Step::Skip);
    assert_eq!(run.record(Outcome::Converted), Step::Write);
    for _ in 0..10 {
        assert_eq!(run.record(Outcome::NodeNotFound), Step::Skip);
    }
    assert_eq!(
        run.finish().unwrap(),
        "Done! Converted 1 file(s); skipped 11 without the node"
    );
}

#[test]
fn archive_run_with_target_in_every_file_reports_no_skips() {
    let target = NodeId { session_id: 1, local_id: 2 };
    let mut run = ArchiveRun::start(1, Some(target)).ok().unwrap();
    assert_eq!(run.record(Outcome::Converted), Step::Write);
    assert_eq!(run.finish().unwrap(), "Done! Converted 1 file(s)");
}

#[test]
fn archive_run_fails_when_no_file_holds_the_target() {
    let target = NodeId { session_id: 6886, local_id: 48774 };
    let mut run = ArchiveRun::start(2, Some(target)).ok().unwrap();
    assert_eq!(run.record(Outcome::NodeNotFound), Step::Skip);
    assert_eq!(run.record(Outcome::NodeNotFound), Step::Skip);
    let err = run.finish().unwrap_err();
    assert_eq!(err, CliError::NodeNotInArchive(target));
    assert_eq!(err.message(), "node 6886:48774 not found in any .fig in the archive");
}

#[test]
fn directories_are_searched_and_only_fig_files_collected() {
    assert_eq!(classify_entry(true, Some("fig")), EntryKind::Search);
    assert_eq!(classify_entry(true, None), EntryKind::Search);
    assert_eq!(classify_entry(false, Some("fig")), EntryKind::Collect);
    assert_eq!(classify_entry(false, Some("FIG")), EntryKind::Ignore);
    assert_eq!(classify_entry(false, Some("figma")), EntryKind::Ignore);
    assert_eq!(classify_entry(false, Some("json")), EntryKind::Ignore);
    assert_eq!(classify_entry(false, None), EntryKind::Ignore);
}

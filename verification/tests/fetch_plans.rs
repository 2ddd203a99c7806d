//! Fetch planning and the idempotence of the pipeline's removals: presence
//! of an artifact short-circuits the expensive step, and removing what is
//! already absent is success.

use cook::error::CookError;
use cook::pipeline::{
    cmd_tool, exit_status_result, fetch_plan, removal_result, Cmd, FsState, RemovalOutcome,
};
use cook::source::Source;

fn empty_state() -> FsState {
    FsState {
        source_dir: false,
        source_tar: false,
        build_dir: false,
        stage_dir: false,
        stage_tar: false,
    }
}

#[test]
fn fresh_git_fetch_clones() {
    let src = Source::VersionControl {
        url: "git://example.com/repo.git".to_string(),
        branch: Some("dev".to_string()),
    };
    let plan = fetch_plan(&src, &empty_state());
    assert_eq!(
        plan,
        vec![Cmd::GitClone {
            url: "git://example.com/repo.git".to_string(),
            branch: Some("dev".to_string()),
        }]
    );
}

#[test]
fn refetch_git_reconciles_in_place() {
    // Second fetch with source/ present: no clone, exactly the four
    // reconciliation commands, in order.
    let src = Source::VersionControl {
        url: "git://example.com/repo.git".to_string(),
        branch: None,
    };
    let st = FsState { source_dir: true, ..empty_state() };
    let plan = fetch_plan(&src, &st);
    assert_eq!(
        plan,
        vec![
            Cmd::GitSetUrl { url: "git://example.com/repo.git".to_string() },
            Cmd::GitFetch,
            Cmd::GitSubmoduleSync,
            Cmd::GitSubmoduleUpdate,
        ]
    );
}

#[test]
fn fresh_archive_fetch_downloads_and_extracts() {
    let src = Source::Archive { url: "https://example.com/x.tar.gz".to_string() };
    let plan = fetch_plan(&src, &empty_state());
    assert_eq!(
        plan,
        vec![
            Cmd::Download { url: "https://example.com/x.tar.gz".to_string() },
            Cmd::CreateSourceDir,
            Cmd::ExtractSource,
        ]
    );
}

#[test]
fn refetch_archive_is_fully_skipped() {
    // Second fetch with source/ and source.tar present: nothing runs.
    let src = Source::Archive { url: "https://example.com/x.tar.gz".to_string() };
    let st = FsState { source_dir: true, source_tar: true, ..empty_state() };
    assert_eq!(fetch_plan(&src, &st), vec![]);
}

#[test]
fn archive_with_tar_present_only_extracts() {
    let src = Source::Archive { url: "https://example.com/x.tar.gz".to_string() };
    let st = FsState { source_tar: true, ..empty_state() };
    assert_eq!(fetch_plan(&src, &st), vec![Cmd::CreateSourceDir, Cmd::ExtractSource]);
}

#[test]
fn archive_with_dir_present_only_downloads() {
    let src = Source::Archive { url: "https://example.com/x.tar.gz".to_string() };
    let st = FsState { source_dir: true, ..empty_state() };
    assert_eq!(
        fetch_plan(&src, &st),
        vec![Cmd::Download { url: "https://example.com/x.tar.gz".to_string() }]
    );
}

#[test]
fn removing_the_absent_is_success() {
    // The second run of any removal finds its target gone and succeeds.
    assert_eq!(removal_result(&RemovalOutcome::AlreadyAbsent), Ok(()));
    assert_eq!(removal_result(&RemovalOutcome::Removed), Ok(()));
}

#[test]
fn failed_removal_is_io_error() {
    let r = removal_result(&RemovalOutcome::Failed("permission denied".to_string()));
    assert_eq!(r, Err(CookError::IO("permission denied".to_string())));
}

#[test]
fn exit_status_judgment() {
    assert_eq!(exit_status_result("git", Some(0)), Ok(()));
    // A process ended by a signal reports no code and passes.
    assert_eq!(exit_status_result("git", None), Ok(()));
    assert_eq!(
        exit_status_result("git", Some(128)),
        Err(CookError::NonZero("git".to_string(), 128))
    );
    assert_eq!(
        exit_status_result("tar", Some(2)),
        Err(CookError::NonZero("tar".to_string(), 2))
    );
}

#[test]
fn command_tool_names() {
    assert_eq!(cmd_tool(&Cmd::GitFetch), "git");
    assert_eq!(
        cmd_tool(&Cmd::GitClone { url: "u".to_string(), branch: None }),
        "git"
    );
    assert_eq!(cmd_tool(&Cmd::Download { url: "u".to_string() }), "download");
    assert_eq!(cmd_tool(&Cmd::ExtractSource), "tar");
    assert_eq!(cmd_tool(&Cmd::CreateSourceDir), "mkdir");
}

//! The pipeline's filesystem state machine.
//!
//! The pipeline stage a working directory is in is not recorded anywhere: it
//! is inferred from which artifacts exist.  The invariant table, stage by
//! stage — the artifact whose presence denotes completion:
//!
//! | operation | artifact                              |
//! |-----------|---------------------------------------|
//! | fetch     | `source/` (and `source.tar` for archive sources) |
//! | prepare   | `build/` (created by the recipe itself) |
//! | stage     | `stage/`                              |
//! | tar       | `stage.tar`                           |
//!
//! This module plans, from a [`FsState`], the external commands each
//! operation runs, judges their exit statuses and the outcomes of removals,
//! and proves the idempotence rules that govern repeated invocations.

use vstd::prelude::*;

verus! {

use vstd::string::StrSliceExecFns;
use crate::error::{CookError, CookErrorView};
use crate::source::{Source, SourceView};

/// Which pipeline artifacts currently exist.
#[derive(Debug, Clone, Copy, PartialEq, Eq, Structural)]
pub struct FsState {
    /// The `source/` working tree.
    pub source_dir: bool,
    /// The downloaded `source.tar` archive.
    pub source_tar: bool,
    /// The `build/` tree.
    pub build_dir: bool,
    /// The `stage/` install tree.
    pub stage_dir: bool,
    /// The final `stage.tar` artifact.
    pub stage_tar: bool,
}

/// One external command a fetch runs.  Paths are fixed by the pipeline
/// layout: downloads land in `source.tar`, extraction fills `source/` with
/// the first path component of every entry stripped.
#[derive(Debug, Clone, PartialEq, Eq)]
pub enum Cmd {
    /// Recursive clone of `url` into `source/`, on `branch` if given.
    GitClone { url: String, branch: Option<String> },
    /// Repoint the `origin` remote of `source/` at `url`.
    GitSetUrl { url: String },
    /// Fetch updates from `origin` in `source/`.
    GitFetch,
    /// Recursively sync submodule URLs in `source/`.
    GitSubmoduleSync,
    /// Recursively initialize and update submodules in `source/`.
    GitSubmoduleUpdate,
    /// Download `url` to `source.tar`.
    Download { url: String },
    /// Create the `source/` directory.
    CreateSourceDir,
    /// Extract `source.tar` into `source/`, stripping one leading path
    /// component.
    ExtractSource,
}

/// The mathematical image of a [`Cmd`].
pub enum CmdView {
    GitClone { url: Seq<char>, branch: Option<Seq<char>> },
    GitSetUrl { url: Seq<char> },
    GitFetch,
    GitSubmoduleSync,
    GitSubmoduleUpdate,
    Download { url: Seq<char> },
    CreateSourceDir,
    ExtractSource,
}

impl View for Cmd {
    type V = CmdView;

    open spec fn view(&self) -> CmdView {
        match self {
            Cmd::GitClone { url, branch } => CmdView::GitClone {
                url: url@,
                branch: branch.deep_view(),
            },
            Cmd::GitSetUrl { url } => CmdView::GitSetUrl { url: url@ },
            Cmd::GitFetch => CmdView::GitFetch,
            Cmd::GitSubmoduleSync => CmdView::GitSubmoduleSync,
            Cmd::GitSubmoduleUpdate => CmdView::GitSubmoduleUpdate,
            Cmd::Download { url } => CmdView::Download { url: url@ },
            Cmd::CreateSourceDir => CmdView::CreateSourceDir,
            Cmd::ExtractSource => CmdView::ExtractSource,
        }
    }
}

impl DeepView for Cmd {
    type V = CmdView;

    open spec fn deep_view(&self) -> CmdView {
        self.view()
    }
}

/// The commands `fetch` runs on a source, given which artifacts exist.
///
/// A version-control source is cloned when `source/` is absent; when it is
/// present it is reconciled in place by exactly four commands: repoint the
/// remote, fetch, sync submodules, update submodules.  An archive source is
/// downloaded only when `source.tar` is absent and extracted only when
/// `source/` is absent — presence of the artifact short-circuits the
/// expensive step.
pub open spec fn fetch_plan_spec(src: SourceView, st: FsState) -> Seq<CmdView> {
    match src {
        SourceView::VersionControl { url, branch } => if !st.source_dir {
            seq![CmdView::GitClone { url, branch }]
        } else {
            seq![
                CmdView::GitSetUrl { url },
                CmdView::GitFetch,
                CmdView::GitSubmoduleSync,
                CmdView::GitSubmoduleUpdate,
            ]
        },
        SourceView::Archive { url } => {
            let download: Seq<CmdView> = if !st.source_tar {
                seq![CmdView::Download { url }]
            } else {
                Seq::empty()
            };
            let extract: Seq<CmdView> = if !st.source_dir {
                seq![CmdView::CreateSourceDir, CmdView::ExtractSource]
            } else {
                Seq::empty()
            };
            download + extract
        },
    }
}

/// Plans a fetch: exactly the commands of [`fetch_plan_spec`], in order.
/// The driver runs them first to last and aborts on the first failure.
pub fn fetch_plan(src: &Source, st: &FsState) -> (r: Vec<Cmd>)
    ensures
        r.deep_view() == fetch_plan_spec(src@, *st),
{
    let mut r: Vec<Cmd> = Vec::new();
    match src {
        Source::VersionControl { url, branch } => {
            if !st.source_dir {
                r.push(Cmd::GitClone { url: url.clone(), branch: branch.clone() });
            } else {
                r.push(Cmd::GitSetUrl { url: url.clone() });
                r.push(Cmd::GitFetch);
                r.push(Cmd::GitSubmoduleSync);
                r.push(Cmd::GitSubmoduleUpdate);
            }
        },
        Source::Archive { url } => {
            if !st.source_tar {
                r.push(Cmd::Download { url: url.clone() });
            }
            if !st.source_dir {
                r.push(Cmd::CreateSourceDir);
                r.push(Cmd::ExtractSource);
            }
        },
    }
    assert(r.deep_view() =~= fetch_plan_spec(src@, *st));
    r
}

/// The name a non-zero exit of a command is reported under.
pub open spec fn cmd_tool_spec(c: CmdView) -> Seq<char> {
    match c {
        CmdView::GitClone { .. } => "git"@,
        CmdView::GitSetUrl { .. } => "git"@,
        CmdView::GitFetch => "git"@,
        CmdView::GitSubmoduleSync => "git"@,
        CmdView::GitSubmoduleUpdate => "git"@,
        CmdView::Download { .. } => "download"@,
        CmdView::CreateSourceDir => "mkdir"@,
        CmdView::ExtractSource => "tar"@,
    }
}

/// The name a non-zero exit of this command is reported under.
pub fn cmd_tool(c: &Cmd) -> (r: String)
    ensures
        r@ == cmd_tool_spec(c@),
{
    match c {
        Cmd::GitClone { .. } => "git".to_owned(),
        Cmd::GitSetUrl { .. } => "git".to_owned(),
        Cmd::GitFetch => "git".to_owned(),
        Cmd::GitSubmoduleSync => "git".to_owned(),
        Cmd::GitSubmoduleUpdate => "git".to_owned(),
        Cmd::Download { .. } => "download".to_owned(),
        Cmd::CreateSourceDir => "mkdir".to_owned(),
        Cmd::ExtractSource => "tar".to_owned(),
    }
}

/// Judges the exit of a synchronous external tool.  `status` is the exit
/// code the process reported, `None` when it was ended by a signal; a run
/// without a code counts as success, any non-zero code is
/// `NonZero(tool, code)`.
pub fn exit_status_result(tool: &str, status: Option<i32>) -> (r: Result<(), CookError>)
    ensures
        match r {
            Ok(_) => status is None || status == Some(0i32),
            Err(e) => {
                &&& status matches Some(c) && c != 0
                &&& status matches Some(c) ==> e@ == CookErrorView::NonZero(tool@, c as int)
            },
        },
{
    match status {
        Some(c) => {
            if c != 0 {
                Err(CookError::NonZero(tool.to_owned(), c))
            } else {
                Ok(())
            }
        },
        None => Ok(()),
    }
}

/// What the driver saw when it removed a pipeline artifact.
#[derive(Debug, Clone, PartialEq, Eq)]
pub enum RemovalOutcome {
    /// The artifact existed and was removed.
    Removed,
    /// There was nothing to remove.
    AlreadyAbsent,
    /// The removal failed for another reason, with this message.
    Failed(String),
}

/// The mathematical image of a [`RemovalOutcome`].
pub enum RemovalOutcomeView {
    Removed,
    AlreadyAbsent,
    Failed(Seq<char>),
}

impl View for RemovalOutcome {
    type V = RemovalOutcomeView;

    open spec fn view(&self) -> RemovalOutcomeView {
        match self {
            RemovalOutcome::Removed => RemovalOutcomeView::Removed,
            RemovalOutcome::AlreadyAbsent => RemovalOutcomeView::AlreadyAbsent,
            RemovalOutcome::Failed(m) => RemovalOutcomeView::Failed(m@),
        }
    }
}

/// The error, if any, a removal outcome amounts to: removing something
/// already absent is success, everything else but a clean removal is an I/O
/// failure.
pub open spec fn removal_error(o: RemovalOutcomeView) -> Option<CookErrorView> {
    match o {
        RemovalOutcomeView::Removed => None,
        RemovalOutcomeView::AlreadyAbsent => None,
        RemovalOutcomeView::Failed(m) => Some(CookErrorView::IO(m)),
    }
}

/// Judges a removal outcome, exactly as [`removal_error`] says.
pub fn removal_result(o: &RemovalOutcome) -> (r: Result<(), CookError>)
    ensures
        match r {
            Ok(_) => removal_error(o@) is None,
            Err(e) => removal_error(o@) == Some(e@),
        },
{
    match o {
        RemovalOutcome::Removed => Ok(()),
        RemovalOutcome::AlreadyAbsent => Ok(()),
        RemovalOutcome::Failed(m) => Err(CookError::IO(m.clone())),
    }
}

/// The state left by a successful `fetch`: `source/` exists, and for an
/// archive source `source.tar` does too.
pub open spec fn after_fetch(src: SourceView, st: FsState) -> FsState {
    match src {
        SourceView::VersionControl { .. } => FsState { source_dir: true, ..st },
        SourceView::Archive { .. } => FsState { source_dir: true, source_tar: true, ..st },
    }
}

/// The state left by a successful `unfetch`.
pub open spec fn after_unfetch(st: FsState) -> FsState {
    FsState { source_dir: false, source_tar: false, ..st }
}

/// The state left by a successful `unprepare`.
pub open spec fn after_unprepare(st: FsState) -> FsState {
    FsState { build_dir: false, ..st }
}

/// The state left by a successful `unstage`.
pub open spec fn after_unstage(st: FsState) -> FsState {
    FsState { stage_dir: false, ..st }
}

/// The state left by a successful `untar`.
pub open spec fn after_untar(st: FsState) -> FsState {
    FsState { stage_tar: false, ..st }
}

/// An outcome the filesystem can report for the removal of an artifact whose
/// presence is `present`: when the artifact is absent, the only honest
/// non-failing report is `AlreadyAbsent`, and an absent artifact gives the
/// removal nothing to fail on.
pub open spec fn removal_reflects(present: bool, o: RemovalOutcomeView) -> bool {
    !present ==> o is AlreadyAbsent
}

/// Law (idempotence of the removals): a second `unfetch` run right after a
/// successful first one finds both of its targets gone, and removing what is
/// already absent never fails.
pub proof fn lemma_unfetch_twice_never_fails(
    st: FsState,
    dir: RemovalOutcomeView,
    tar: RemovalOutcomeView,
)
    requires
        removal_reflects(after_unfetch(st).source_dir, dir),
        removal_reflects(after_unfetch(st).source_tar, tar),
    ensures
        removal_error(dir) is None,
        removal_error(tar) is None,
        after_unfetch(after_unfetch(st)) == after_unfetch(st),
{
}

/// Law (idempotence of the removals): the same for `unprepare` and `build/`.
pub proof fn lemma_unprepare_twice_never_fails(st: FsState, build: RemovalOutcomeView)
    requires
        removal_reflects(after_unprepare(st).build_dir, build),
    ensures
        removal_error(build) is None,
        after_unprepare(after_unprepare(st)) == after_unprepare(st),
{
}

/// Law (idempotence of the removals): the same for `unstage` and `stage/`.
pub proof fn lemma_unstage_twice_never_fails(st: FsState, stage: RemovalOutcomeView)
    requires
        removal_reflects(after_unstage(st).stage_dir, stage),
    ensures
        removal_error(stage) is None,
        after_unstage(after_unstage(st)) == after_unstage(st),
{
}

/// Law (idempotence of the removals): the same for `untar` and `stage.tar`.
pub proof fn lemma_untar_twice_never_fails(st: FsState, tar: RemovalOutcomeView)
    requires
        removal_reflects(after_untar(st).stage_tar, tar),
    ensures
        removal_error(tar) is None,
        after_untar(after_untar(st)) == after_untar(st),
{
}

/// Law (idempotence of `fetch`): in the state a successful fetch leaves, a
/// second fetch clones and downloads nothing.  An archive fetch is skipped
/// wholly; a version-control fetch runs exactly the four reconciliation
/// commands.
pub proof fn lemma_fetch_idempotent(src: SourceView, st: FsState)
    ensures
        src is Archive ==> fetch_plan_spec(src, after_fetch(src, st)) == Seq::<CmdView>::empty(),
        src matches SourceView::VersionControl { url, branch } ==> fetch_plan_spec(
            src,
            after_fetch(src, st),
        ) == seq![
            CmdView::GitSetUrl { url },
            CmdView::GitFetch,
            CmdView::GitSubmoduleSync,
            CmdView::GitSubmoduleUpdate,
        ],
        forall|i: int|
            0 <= i < fetch_plan_spec(src, after_fetch(src, st)).len() ==> {
                let c = #[trigger] fetch_plan_spec(src, after_fetch(src, st))[i];
                !(c is GitClone) && !(c is Download)
            },
{
    if src is Archive {
        assert(fetch_plan_spec(src, after_fetch(src, st)) =~= Seq::<CmdView>::empty());
    }
}

} // verus!

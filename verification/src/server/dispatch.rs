//! Running an operation: the decisions between one piece of outside work and the
//! next.
//!
//! A call starts with a first step. Whoever runs the call does what the step says
//! and hands back what came of it, and [`Stage::next`] says how the call goes on. A
//! call ends with an answer or with a refusal.
use vstd::prelude::*;

use crate::edit;
use crate::edit::applier;
use crate::edit::applier::{resolve_path, FileDiffView, FileStepView, Tree};
use crate::edit::{
    AppliedEdit, EditApplier, FileDiff, FileEditView, FileOperationView, FileStep, WorkspaceEdit,
    WorkspaceEditView,
};
use crate::error::{Error, ErrorView};
use crate::json;
use crate::json::wire;
use crate::json::{Items, Json, JsonView, Members};
use crate::language::Language;
use crate::locate::Probed;
use crate::operation::{OperationOutcome, OutcomeView, Target, TargetView};
use crate::path;
use crate::path::PathBuf;
use crate::project::{Project, ProjectView};
use crate::server::error;
use crate::server::error::{into_mcp, McpError, McpErrorView};
use crate::server::workspace;
use crate::server::workspace::{
    ensure_same_repo, file_to_check, find_at, read_for_validation, reject_edits_outside,
    validate_expectation, working_copy_root_containing, RepoFacts,
};
use crate::text;
use crate::text::same_text;
use crate::vcs;
use crate::vcs::{Revision, RevisionView};

verus! {

// ---------------------------------------------------------------------------
// What a call wants
// ---------------------------------------------------------------------------

/// What a call wants done.
#[derive(Debug)]
pub struct Job<H> {
    /// The project to act on.
    pub project: Project,
    /// The operation to run.
    pub operation: H,
    /// The language whose provider runs it.
    pub language: Language,
    /// Where to act.
    pub target: Target,
    /// The parameters that are the operation's own.
    pub params: Json,
    /// Whether nothing is to be written.
    pub dry_run: bool,
    /// What the call expects to stand at its target, if it says so.
    pub expected: Option<String>,
}

/// What a [`Job`] says.
pub struct JobView<H> {
    pub project: ProjectView,
    pub operation: H,
    pub language: Language,
    pub target: TargetView,
    pub params: JsonView,
    pub dry_run: bool,
    pub expected: Option<Seq<char>>,
}

impl<H> View for Job<H> {
    type V = JobView<H>;

    open spec fn view(&self) -> JobView<H> {
        JobView {
            project: self.project@,
            operation: self.operation,
            language: self.language,
            target: self.target@,
            params: self.params@,
            dry_run: self.dry_run,
            expected: text::optional(self.expected),
        }
    }
}

/// How far a call has come.
#[derive(Debug)]
pub enum Stage<H> {
    /// The repository around the target is being looked for.
    FindRepository {
        /// What the call wants.
        job: Job<H>,
    },
    /// The repositories of the working copy and the project are being identified.
    Identify {
        /// What the call wants.
        job: Job<H>,
        /// The working copy.
        workspace: PathBuf,
    },
    /// The file of the target is being read.
    ReadTarget {
        /// What the call wants.
        job: Job<H>,
        /// The working copy.
        workspace: PathBuf,
    },
    /// What the call expects is not there; the revision is being looked up.
    DetectRevision {
        /// What the call wants.
        job: Job<H>,
        /// The working copy.
        workspace: PathBuf,
        /// The file of the target.
        content: String,
    },
    /// A session is being opened.
    OpenSession {
        /// What the call wants.
        job: Job<H>,
        /// The working copy.
        workspace: PathBuf,
    },
    /// The working copy is being laid over the session's checkout.
    Overlay {
        /// What the call wants.
        job: Job<H>,
        /// The working copy.
        workspace: PathBuf,
        /// The session's checkout, if it has one.
        session_root: Option<PathBuf>,
    },
    /// The operation runs.
    Run {
        /// The working copy.
        workspace: PathBuf,
        /// The session's checkout, if it has one.
        session_root: Option<PathBuf>,
        /// Whether the working copy is the session's checkout.
        on_base: bool,
        /// Whether nothing is to be written.
        dry_run: bool,
    },
    /// The session's own view is being restored.
    Restore {
        /// The working copy.
        workspace: PathBuf,
        /// The session's checkout, if it has one.
        session_root: Option<PathBuf>,
        /// Whether the working copy is the session's checkout.
        on_base: bool,
        /// Whether nothing is to be written.
        dry_run: bool,
        /// What came of the operation.
        outcome: Result<OperationOutcome, Error>,
    },
    /// The files that the edit changes are being read.
    ReadSources {
        /// The working copy.
        workspace: PathBuf,
        /// Whether the working copy is the session's checkout.
        on_base: bool,
        /// Whether nothing is to be written.
        dry_run: bool,
        /// The edit.
        edit: WorkspaceEdit,
    },
    /// The edit is being applied.
    Perform {
        /// Whether the working copy is the session's checkout.
        on_base: bool,
        /// What there is to report.
        applied: AppliedEdit,
        /// The diffs of the edit.
        diffs: Vec<FileDiff>,
    },
    /// The session is being told of the changes.
    Sync {
        /// What there is to report.
        applied: AppliedEdit,
        /// The diffs of the edit.
        diffs: Vec<FileDiff>,
    },
    /// The call has ended.
    Over,
}

/// What a [`Stage`] says.
pub enum StageView<H> {
    FindRepository { job: JobView<H> },
    Identify { job: JobView<H>, workspace: Seq<char> },
    ReadTarget { job: JobView<H>, workspace: Seq<char> },
    DetectRevision { job: JobView<H>, workspace: Seq<char>, content: Seq<char> },
    OpenSession { job: JobView<H>, workspace: Seq<char> },
    Overlay { job: JobView<H>, workspace: Seq<char>, session_root: Option<Seq<char>> },
    Run {
        workspace: Seq<char>,
        session_root: Option<Seq<char>>,
        on_base: bool,
        dry_run: bool,
    },
    Restore {
        workspace: Seq<char>,
        session_root: Option<Seq<char>>,
        on_base: bool,
        dry_run: bool,
        outcome: Result<OutcomeView, ErrorView>,
    },
    ReadSources { workspace: Seq<char>, on_base: bool, dry_run: bool, edit: WorkspaceEditView },
    Perform { on_base: bool, changed: Seq<Seq<char>>, diffs: Seq<FileDiffView> },
    Sync { changed: Seq<Seq<char>>, diffs: Seq<FileDiffView> },
    Over,
}

/// What an outcome says, or why there is none.
pub open spec fn outcome_view(outcome: Result<OperationOutcome, Error>) -> Result<
    OutcomeView,
    ErrorView,
> {
    match outcome {
        Ok(o) => Ok(o@),
        Err(e) => Err(e@),
    }
}

impl<H> View for Stage<H> {
    type V = StageView<H>;

    open spec fn view(&self) -> StageView<H> {
        match self {
            Stage::FindRepository { job } => StageView::FindRepository { job: job@ },
            Stage::Identify { job, workspace } => StageView::Identify {
                job: job@,
                workspace: workspace@,
            },
            Stage::ReadTarget { job, workspace } => StageView::ReadTarget {
                job: job@,
                workspace: workspace@,
            },
            Stage::DetectRevision { job, workspace, content } => StageView::DetectRevision {
                job: job@,
                workspace: workspace@,
                content: content@,
            },
            Stage::OpenSession { job, workspace } => StageView::OpenSession {
                job: job@,
                workspace: workspace@,
            },
            Stage::Overlay { job, workspace, session_root } => StageView::Overlay {
                job: job@,
                workspace: workspace@,
                session_root: path::optional(*session_root),
            },
            Stage::Run { workspace, session_root, on_base, dry_run } => StageView::Run {
                workspace: workspace@,
                session_root: path::optional(*session_root),
                on_base: *on_base,
                dry_run: *dry_run,
            },
            Stage::Restore { workspace, session_root, on_base, dry_run, outcome } => {
                StageView::Restore {
                    workspace: workspace@,
                    session_root: path::optional(*session_root),
                    on_base: *on_base,
                    dry_run: *dry_run,
                    outcome: outcome_view(*outcome),
                }
            },
            Stage::ReadSources { workspace, on_base, dry_run, edit } => StageView::ReadSources {
                workspace: workspace@,
                on_base: *on_base,
                dry_run: *dry_run,
                edit: edit@,
            },
            Stage::Perform { on_base, applied, diffs } => StageView::Perform {
                on_base: *on_base,
                changed: path::texts(applied.changed_files@),
                diffs: diff_views(diffs@),
            },
            Stage::Sync { applied, diffs } => StageView::Sync {
                changed: path::texts(applied.changed_files@),
                diffs: diff_views(diffs@),
            },
            Stage::Over => StageView::Over,
        }
    }
}

/// What is to be done next.
#[derive(Debug)]
pub enum Step<H> {
    /// Find out which of these directories have an entry `.git` or `.jj`.
    FindRepository {
        /// The directories, the nearest first.
        dirs: Vec<PathBuf>,
    },
    /// Identify the repositories of a working copy and of a project.
    Identify {
        /// The working copy.
        workspace: PathBuf,
        /// The root of the project.
        project_root: PathBuf,
    },
    /// Read a file.
    ReadTarget {
        /// The file.
        file: PathBuf,
    },
    /// Look up the revision of a working copy.
    DetectRevision {
        /// The working copy.
        workspace: PathBuf,
    },
    /// Open a session of a project, and hold it for this call.
    OpenSession {
        /// The language of its provider.
        language: Language,
        /// The project.
        project: Project,
    },
    /// Lay a working copy over the checkout of the session.
    Overlay {
        /// The working copy.
        workspace: PathBuf,
    },
    /// Run an operation.
    Run {
        /// The operation.
        operation: H,
        /// Where it is to act.
        target: Target,
        /// Its parameters.
        params: Json,
    },
    /// Restore the session's own view.
    Restore,
    /// Read files.
    ReadSources {
        /// The files.
        paths: Vec<PathBuf>,
    },
    /// Apply an edit.
    Perform {
        /// What applies it, in order.
        steps: Vec<FileStep>,
    },
    /// Tell the session which files have changed.
    Sync {
        /// The files.
        changed: Vec<PathBuf>,
    },
    /// Answer the call.
    Answer(Json),
    /// Refuse the call.
    Refuse(McpError),
}

/// What a [`Step`] says.
pub enum StepView<H> {
    FindRepository { dirs: Seq<Seq<char>> },
    Identify { workspace: Seq<char>, project_root: Seq<char> },
    ReadTarget { file: Seq<char> },
    DetectRevision { workspace: Seq<char> },
    OpenSession { language: Language, project: ProjectView },
    Overlay { workspace: Seq<char> },
    Run { operation: H, target: TargetView, params: JsonView },
    Restore,
    ReadSources { paths: Seq<Seq<char>> },
    Perform { steps: Seq<FileStepView> },
    Sync { changed: Seq<Seq<char>> },
    Answer(JsonView),
    Refuse(McpErrorView),
}

impl<H> View for Step<H> {
    type V = StepView<H>;

    open spec fn view(&self) -> StepView<H> {
        match self {
            Step::FindRepository { dirs } => StepView::FindRepository { dirs: path::texts(dirs@) },
            Step::Identify { workspace, project_root } => StepView::Identify {
                workspace: workspace@,
                project_root: project_root@,
            },
            Step::ReadTarget { file } => StepView::ReadTarget { file: file@ },
            Step::DetectRevision { workspace } => StepView::DetectRevision { workspace: workspace@ },
            Step::OpenSession { language, project } => StepView::OpenSession {
                language: *language,
                project: project@,
            },
            Step::Overlay { workspace } => StepView::Overlay { workspace: workspace@ },
            Step::Run { operation, target, params } => StepView::Run {
                operation: *operation,
                target: target@,
                params: params@,
            },
            Step::Restore => StepView::Restore,
            Step::ReadSources { paths } => StepView::ReadSources { paths: path::texts(paths@) },
            Step::Perform { steps } => StepView::Perform {
                steps: steps@.map_values(|s: FileStep| s@),
            },
            Step::Sync { changed } => StepView::Sync { changed: path::texts(changed@) },
            Step::Answer(value) => StepView::Answer(value@),
            Step::Refuse(e) => StepView::Refuse(e@),
        }
    }
}

/// What came of a step.
#[derive(Debug)]
pub enum Event {
    /// Which directories have an entry `.git` or `.jj`.
    Probed(Vec<Probed>),
    /// What is known of the repositories.
    Repositories(RepoFacts),
    /// The content of the file, or why it cannot be read.
    Content(Result<String, String>),
    /// The revision, if there is one.
    Revision(Option<Revision>),
    /// The session is open.
    Session {
        /// Its checkout, if it has one.
        root: Option<PathBuf>,
    },
    /// The operation has run.
    Outcome(OperationOutcome),
    /// The contents of the files, or why they cannot be read.
    Sources(Vec<Result<String, String>>),
    /// The step is done.
    Done,
    /// The step failed.
    Failed(Error),
}

/// What an [`Event`] says.
pub enum EventView {
    Probed(Seq<Probed>),
    Repositories(RepoFacts),
    Content(Result<Seq<char>, Seq<char>>),
    Revision(Option<RevisionView>),
    Session { root: Option<Seq<char>> },
    Outcome(OutcomeView),
    Sources(Seq<Result<Seq<char>, Seq<char>>>),
    Done,
    Failed(ErrorView),
}

impl View for Event {
    type V = EventView;

    open spec fn view(&self) -> EventView {
        match self {
            Event::Probed(dirs) => EventView::Probed(dirs@),
            Event::Repositories(facts) => EventView::Repositories(*facts),
            Event::Content(content) => EventView::Content(applier::source_view(*content)),
            Event::Revision(revision) => EventView::Revision(vcs::optional(*revision)),
            Event::Session { root } => EventView::Session { root: path::optional(*root) },
            Event::Outcome(outcome) => EventView::Outcome(outcome@),
            Event::Sources(sources) => EventView::Sources(applier::source_views(sources@)),
            Event::Done => EventView::Done,
            Event::Failed(e) => EventView::Failed(e@),
        }
    }
}

// ---------------------------------------------------------------------------
// Answers
// ---------------------------------------------------------------------------

/// A diff in an answer.
pub open spec fn diff_json(d: FileDiffView) -> JsonView {
    JsonView::Object(
        json::no_members().push(("path"@, JsonView::Text(d.path))).push(
            ("diff"@, JsonView::Text(d.diff)),
        ),
    )
}

/// Diffs in an answer.
pub open spec fn diffs_json(diffs: Seq<FileDiffView>) -> JsonView {
    JsonView::Array(diffs.map_values(|d: FileDiffView| diff_json(d)))
}

/// The answer to a preview.
pub open spec fn preview_json(diffs: Seq<FileDiffView>) -> JsonView {
    JsonView::Object(
        json::no_members().push(("dry_run"@, JsonView::Bool(true))).push(
            ("files"@, diffs_json(diffs)),
        ),
    )
}

/// The answer to an edit that has been applied: what has changed, and the diffs.
pub open spec fn applied_json(changed: Seq<Seq<char>>, diffs: Seq<FileDiffView>) -> JsonView {
    JsonView::Object(
        json::no_members().push(("dry_run"@, JsonView::Bool(false))).push(
            (
                "applied"@,
                JsonView::Object(
                    json::no_members().push(
                        (
                            "changed_files"@,
                            JsonView::Array(
                                changed.map_values(|p: Seq<char>| JsonView::Text(p)),
                            ),
                        ),
                    ),
                ),
            ),
        ).push(("files"@, diffs_json(diffs))),
    )
}

/// What a list of diffs says.
pub open spec fn diff_views(diffs: Seq<FileDiff>) -> Seq<FileDiffView> {
    diffs.map_values(|d: FileDiff| d@)
}

/// Diffs in an answer.
fn diffs_value(diffs: &Vec<FileDiff>) -> (r: Json)
    ensures
        r@ == diffs_json(diff_views(diffs@)),
{
    let ghost want = diffs@.map_values(|d: FileDiff| d@).map_values(
        |d: FileDiffView| diff_json(d),
    );
    let mut out = Items::new();
    let mut i: usize = 0;
    assert(want.take(0) =~= json::no_items());
    while i < diffs.len()
        invariant
            i <= diffs@.len(),
            want == diffs@.map_values(|d: FileDiff| d@).map_values(|d: FileDiffView| diff_json(d)),
            out@ == want.take(i as int),
        decreases diffs@.len() - i,
    {
        let one = Members::new().with("path", Json::text(diffs[i].path.as_str())).with(
            "diff",
            Json::text(diffs[i].diff.as_str()),
        ).done();
        assert(want[i as int] == diff_json(diffs@[i as int]@));
        out = out.with(one);
        assert(want.take(i + 1) =~= want.take(i as int).push(want[i as int]));
        i += 1;
    }
    assert(want.take(i as int) =~= want);
    out.done()
}

/// The answer to a preview.
fn preview_value(diffs: &Vec<FileDiff>) -> (r: Json)
    ensures
        r@ == preview_json(diff_views(diffs@)),
{
    Members::new().with("dry_run", Json::Bool(true)).with("files", diffs_value(diffs)).done()
}

/// The answer to an edit that has been applied.
fn applied_value(applied: &AppliedEdit, diffs: &Vec<FileDiff>) -> (r: Json)
    ensures
        r@ == applied_json(path::texts(applied.changed_files@), diff_views(diffs@)),
{
    let files = &applied.changed_files;
    let ghost want = path::texts(files@).map_values(|p: Seq<char>| JsonView::Text(p));
    let mut out = Items::new();
    let mut i: usize = 0;
    assert(want.take(0) =~= json::no_items());
    while i < files.len()
        invariant
            i <= files@.len(),
            want == path::texts(files@).map_values(|p: Seq<char>| JsonView::Text(p)),
            out@ == want.take(i as int),
        decreases files@.len() - i,
    {
        assert(want[i as int] == JsonView::Text(files@[i as int]@));
        out = out.with(Json::text(files[i].as_str()));
        assert(want.take(i + 1) =~= want.take(i as int).push(want[i as int]));
        i += 1;
    }
    assert(want.take(i as int) =~= want);
    Members::new().with("dry_run", Json::Bool(false)).with(
        "applied",
        Members::new().with("changed_files", out.done()).done(),
    ).with("files", diffs_value(diffs)).done()
}

// ---------------------------------------------------------------------------
// Going on
// ---------------------------------------------------------------------------

/// A stage and what is to be done in it.
pub type At<H> = (StageView<H>, StepView<H>);

/// A call that has been refused.
pub open spec fn refused<H>(e: McpErrorView) -> At<H> {
    (StageView::Over, StepView::Refuse(e))
}

/// A call that has been answered.
pub open spec fn answered<H>(value: JsonView) -> At<H> {
    (StageView::Over, StepView::Answer(value))
}

/// The call once its working copy is known.
pub open spec fn located<H>(job: JobView<H>, workspace: Seq<char>) -> At<H> {
    (
        StageView::Identify { job, workspace },
        StepView::Identify { workspace, project_root: job.project.root },
    )
}

/// The call once nothing speaks against it.
pub open spec fn opening<H>(job: JobView<H>, workspace: Seq<char>) -> At<H> {
    (
        StageView::OpenSession { job, workspace },
        StepView::OpenSession { language: job.language, project: job.project },
    )
}

/// The call once its working copy is known to belong to the project: what it
/// expects at its target is looked at first.
pub open spec fn identified<H>(job: JobView<H>, workspace: Seq<char>) -> At<H> {
    match (job.expected, workspace::checked_file(job.target, workspace)) {
        (Some(_), Some(file)) => (
            StageView::ReadTarget { job, workspace },
            StepView::ReadTarget { file },
        ),
        _ => opening(job, workspace),
    }
}

/// The call once the session shows its working copy.
pub open spec fn running<H>(
    job: JobView<H>,
    workspace: Seq<char>,
    session_root: Option<Seq<char>>,
    on_base: bool,
) -> At<H> {
    (
        StageView::Run { workspace, session_root, on_base, dry_run: job.dry_run },
        StepView::Run { operation: job.operation, target: job.target, params: job.params },
    )
}

/// Whether a working copy is the checkout of a session.
pub open spec fn is_base(session_root: Option<Seq<char>>, workspace: Seq<char>) -> bool {
    session_root matches Some(root) && path::components(root) == path::components(workspace)
}

/// The edit of a session moved to the working copy.
pub open spec fn moved_edit(
    edit: WorkspaceEditView,
    session_root: Option<Seq<char>>,
    workspace: Seq<char>,
) -> WorkspaceEditView {
    match session_root {
        Some(root) => edit::retargeted(edit, root, workspace),
        None => edit,
    }
}

/// The files that an edit changes, seen from the working copy.
pub open spec fn edited_files(edit: WorkspaceEditView, workspace: Seq<char>) -> Seq<Seq<char>> {
    edit.files.map_values(|f: FileEditView| applier::resolved(f.path, workspace))
}

/// The call once the session's own view is restored.
pub open spec fn restored<H>(
    workspace: Seq<char>,
    session_root: Option<Seq<char>>,
    on_base: bool,
    dry_run: bool,
    outcome: Result<OutcomeView, ErrorView>,
) -> At<H> {
    match outcome {
        Err(e) => refused(error::answer_to(e)),
        Ok(OutcomeView::Query(value)) => answered(value),
        Ok(OutcomeView::Edit(edit)) => {
            let edit = moved_edit(edit, session_root, workspace);
            if workspace::edit_inside(edit, workspace) {
                (
                    StageView::ReadSources { workspace, on_base, dry_run, edit },
                    StepView::ReadSources { paths: edited_files(edit, workspace) },
                )
            } else {
                refused(workspace::edits_outside())
            }
        },
    }
}

/// The call once the files that it changes have been read.
pub open spec fn sources_read<H>(
    workspace: Seq<char>,
    on_base: bool,
    dry_run: bool,
    edit: WorkspaceEditView,
    sources: Seq<Result<Seq<char>, Seq<char>>>,
) -> At<H> {
    match applier::rewrites_of(edit.files, edit.encoding, workspace, sources) {
        Err(e) => refused(error::answer_to(e)),
        Ok(updated) => if dry_run {
            answered(preview_json(applier::diffs_of(edit, workspace, sources, updated)))
        } else {
            let plan = applier::plan_of(edit, workspace, sources, updated);
            (
                StageView::Perform {
                    on_base,
                    changed: plan.changed_files,
                    diffs: applier::diffs_of(edit, workspace, sources, updated),
                },
                StepView::Perform { steps: plan.steps },
            )
        },
    }
}

/// The call once its edit is applied: a session is told of changes to its own
/// checkout.
pub open spec fn performed<H>(
    on_base: bool,
    changed: Seq<Seq<char>>,
    diffs: Seq<FileDiffView>,
) -> At<H> {
    if on_base {
        (StageView::Sync { changed, diffs }, StepView::Sync { changed })
    } else {
        answered(applied_json(changed, diffs))
    }
}

/// What an event out of order is answered.
pub open spec fn out_of_order() -> McpErrorView {
    McpErrorView::Internal("unexpected event"@)
}

/// How a call goes on. While the operation runs, whatever happens is followed by
/// the restoration of the session's own view.
pub open spec fn next_of<H>(stage: StageView<H>, event: EventView) -> At<H> {
    match (stage, event) {
        (StageView::FindRepository { job }, EventView::Probed(dirs)) => located(
            job,
            workspace::nearest_working_copy(dirs, job.project.root),
        ),
        (StageView::Identify { job, workspace }, EventView::Repositories(facts)) => {
            if workspace::same_repository(facts, workspace, job.project.root) {
                identified(job, workspace)
            } else {
                refused(workspace::foreign_workspace(workspace))
            }
        },
        (StageView::ReadTarget { job, workspace }, EventView::Content(Ok(content))) => {
            if workspace::found_at(content, job.target) == job.expected {
                opening(job, workspace)
            } else {
                (
                    StageView::DetectRevision { job, workspace, content },
                    StepView::DetectRevision { workspace },
                )
            }
        },
        (StageView::ReadTarget { job, workspace }, EventView::Content(Err(why))) => {
            match workspace::checked_file(job.target, workspace) {
                Some(file) => refused(workspace::unreadable(file, why)),
                None => refused(out_of_order()),
            }
        },
        (
            StageView::DetectRevision { job, workspace, content },
            EventView::Revision(revision),
        ) => match workspace::unmet(job.expected, job.target, workspace, Ok(content), revision) {
            Some(e) => refused(e),
            None => opening(job, workspace),
        },
        (StageView::OpenSession { job, workspace }, EventView::Session { root }) => {
            if is_base(root, workspace) {
                running(job, workspace, root, true)
            } else {
                (
                    StageView::Overlay { job, workspace, session_root: root },
                    StepView::Overlay { workspace },
                )
            }
        },
        (StageView::Overlay { job, workspace, session_root }, EventView::Done) => running(
            job,
            workspace,
            session_root,
            false,
        ),
        (StageView::Run { workspace, session_root, on_base, dry_run }, event) => (
            StageView::Restore {
                workspace,
                session_root,
                on_base,
                dry_run,
                outcome: match event {
                    EventView::Outcome(outcome) => Ok(outcome),
                    EventView::Failed(e) => Err(e),
                    _ => Err(ErrorView::Backend("unexpected event"@)),
                },
            },
            StepView::Restore,
        ),
        (
            StageView::Restore { workspace, session_root, on_base, dry_run, outcome },
            EventView::Done,
        ) => restored(workspace, session_root, on_base, dry_run, outcome),
        (
            StageView::ReadSources { workspace, on_base, dry_run, edit },
            EventView::Sources(sources),
        ) => if sources.len() == edit.files.len() {
            sources_read(workspace, on_base, dry_run, edit, sources)
        } else {
            refused(out_of_order())
        },
        (StageView::Perform { on_base, changed, diffs }, EventView::Done) => performed(
            on_base,
            changed,
            diffs,
        ),
        (StageView::Sync { changed, diffs }, EventView::Done) => answered(
            applied_json(changed, diffs),
        ),
        (_, EventView::Failed(e)) => refused(error::answer_to(e)),
        _ => refused(out_of_order()),
    }
}

/// A call that has been refused.
fn refuse<H>(e: McpError) -> (r: (Stage<H>, Step<H>))
    ensures
        (r.0@, r.1@) == refused::<H>(e@),
{
    (Stage::Over, Step::Refuse(e))
}

/// The call once its working copy is known.
fn locate_job<H>(job: Job<H>, workspace: PathBuf) -> (r: (Stage<H>, Step<H>))
    ensures
        (r.0@, r.1@) == located(job@, workspace@),
{
    let step = Step::Identify {
        workspace: workspace.clone(),
        project_root: job.project.root.clone(),
    };
    (Stage::Identify { job, workspace }, step)
}

/// The call once nothing speaks against it.
fn open_job<H>(job: Job<H>, workspace: PathBuf) -> (r: (Stage<H>, Step<H>))
    ensures
        (r.0@, r.1@) == opening(job@, workspace@),
{
    let step = Step::OpenSession { language: job.language, project: job.project.copy() };
    (Stage::OpenSession { job, workspace }, step)
}

/// The call once its working copy is known to belong to the project.
fn identify_job<H>(job: Job<H>, workspace: PathBuf) -> (r: (Stage<H>, Step<H>))
    ensures
        (r.0@, r.1@) == identified(job@, workspace@),
{
    if job.expected.is_some() {
        if let Some(file) = file_to_check(&job.target, &workspace) {
            return (Stage::ReadTarget { job, workspace }, Step::ReadTarget { file });
        }
    }
    open_job(job, workspace)
}

/// The call once the file of its target has been read.
fn check_job<H>(job: Job<H>, workspace: PathBuf, content: Result<String, String>) -> (r: (
    Stage<H>,
    Step<H>,
))
    ensures
        (r.0@, r.1@) == next_of(
            StageView::ReadTarget { job: job@, workspace: workspace@ },
            EventView::Content(applier::source_view(content)),
        ),
{
    match content {
        Ok(content) => {
            let found = find_at(content.as_str(), &job.target);
            let as_expected = match (&found, &job.expected) {
                (Some(a), Some(b)) => same_text(a.as_str(), b.as_str()),
                (None, None) => true,
                _ => false,
            };
            if as_expected {
                open_job(job, workspace)
            } else {
                let step = Step::DetectRevision { workspace: workspace.clone() };
                (Stage::DetectRevision { job, workspace, content }, step)
            }
        },
        Err(why) => match file_to_check(&job.target, &workspace) {
            Some(file) => refuse(read_for_validation(&file, why.as_str())),
            None => refuse(McpError::Internal("unexpected event".to_owned())),
        },
    }
}

/// The call once the session shows its working copy.
fn run_job<H>(
    job: Job<H>,
    workspace: PathBuf,
    session_root: Option<PathBuf>,
    on_base: bool,
) -> (r: (Stage<H>, Step<H>))
    ensures
        (r.0@, r.1@) == running(job@, workspace@, path::optional(session_root), on_base),
{
    (
        Stage::Run { workspace, session_root, on_base, dry_run: job.dry_run },
        Step::Run { operation: job.operation, target: job.target, params: job.params },
    )
}

/// The call once its session is open.
fn overlay_job<H>(job: Job<H>, workspace: PathBuf, root: Option<PathBuf>) -> (r: (
    Stage<H>,
    Step<H>,
))
    ensures
        (r.0@, r.1@) == next_of(
            StageView::OpenSession { job: job@, workspace: workspace@ },
            EventView::Session { root: path::optional(root) },
        ),
{
    let on_base = match &root {
        Some(root) => *root == workspace,
        None => false,
    };
    if on_base {
        run_job(job, workspace, root, true)
    } else {
        let step = Step::Overlay { workspace: workspace.clone() };
        (Stage::Overlay { job, workspace, session_root: root }, step)
    }
}

/// The files that an edit changes, seen from the working copy.
fn files_to_read(edit: &WorkspaceEdit, workspace: &PathBuf) -> (r: Vec<PathBuf>)
    ensures
        path::texts(r@) == edited_files(edit@, workspace@),
{
    let mut out: Vec<PathBuf> = Vec::new();
    let mut i: usize = 0;
    while i < edit.files.len()
        invariant
            i <= edit.files@.len(),
            out@.len() == i,
            forall|j: int|
                0 <= j < i ==> out@[j]@ == applier::resolved(edit@.files[j].path, workspace@),
        decreases edit.files@.len() - i,
    {
        assert(edit@.files[i as int] == edit.files@[i as int]@);
        out.push(resolve_path(&edit.files[i].path, workspace));
        i += 1;
    }
    assert(path::texts(out@) =~= edited_files(edit@, workspace@));
    out
}

/// The call once the session's own view is restored.
fn finish_run<H>(
    workspace: PathBuf,
    session_root: Option<PathBuf>,
    on_base: bool,
    dry_run: bool,
    outcome: Result<OperationOutcome, Error>,
) -> (r: (Stage<H>, Step<H>))
    ensures
        (r.0@, r.1@) == restored::<H>(
            workspace@,
            path::optional(session_root),
            on_base,
            dry_run,
            outcome_view(outcome),
        ),
{
    match outcome {
        Err(e) => refuse(into_mcp(&e)),
        Ok(OperationOutcome::Query(value)) => (Stage::Over, Step::Answer(value)),
        Ok(OperationOutcome::Edit(edit)) => {
            let mut edit = edit;
            if let Some(root) = &session_root {
                edit.retarget(root, &workspace);
            }
            match reject_edits_outside(&edit, &workspace) {
                Ok(()) => {
                    let paths = files_to_read(&edit, &workspace);
                    (
                        Stage::ReadSources { workspace, on_base, dry_run, edit },
                        Step::ReadSources { paths },
                    )
                },
                Err(e) => refuse(e),
            }
        },
    }
}

/// The call once the files that it changes have been read.
fn use_sources<H>(
    workspace: PathBuf,
    on_base: bool,
    dry_run: bool,
    edit: WorkspaceEdit,
    sources: Vec<Result<String, String>>,
) -> (r: (Stage<H>, Step<H>))
    requires
        sources@.len() == edit.files@.len(),
    ensures
        (r.0@, r.1@) == sources_read::<H>(
            workspace@,
            on_base,
            dry_run,
            edit@,
            applier::source_views(sources@),
        ),
{
    if dry_run {
        match EditApplier::preview(&edit, &workspace, &sources) {
            Ok(diffs) => (Stage::Over, Step::Answer(preview_value(&diffs))),
            Err(e) => refuse(into_mcp(&e)),
        }
    } else {
        match EditApplier::apply(&edit, &workspace, &sources) {
            Ok(plan) => match EditApplier::preview(&edit, &workspace, &sources) {
                Ok(diffs) => (
                    Stage::Perform { on_base, applied: plan.applied, diffs },
                    Step::Perform { steps: plan.steps },
                ),
                Err(e) => refuse(into_mcp(&e)),
            },
            Err(e) => refuse(into_mcp(&e)),
        }
    }
}

/// The paths of a list.
fn copy_paths(paths: &Vec<PathBuf>) -> (r: Vec<PathBuf>)
    ensures
        path::texts(r@) == path::texts(paths@),
{
    let mut out: Vec<PathBuf> = Vec::new();
    let mut i: usize = 0;
    while i < paths.len()
        invariant
            i <= paths@.len(),
            out@.len() == i,
            forall|j: int| 0 <= j < i ==> out@[j]@ == paths@[j]@,
        decreases paths@.len() - i,
    {
        out.push(paths[i].clone());
        i += 1;
    }
    assert(path::texts(out@) =~= path::texts(paths@));
    out
}

impl<H> Stage<H> {
    /// Goes on with what came of the last step.
    pub fn next(self, event: Event) -> (r: (Stage<H>, Step<H>))
        ensures
            (r.0@, r.1@) == next_of(self@, event@),
    {
        match (self, event) {
            (Stage::FindRepository { job }, Event::Probed(dirs)) => {
                let workspace = working_copy_root_containing(&dirs, &job.project.root);
                locate_job(job, workspace)
            },
            (Stage::Identify { job, workspace }, Event::Repositories(facts)) => {
                match ensure_same_repo(&facts, &workspace, &job.project.root) {
                    Ok(()) => identify_job(job, workspace),
                    Err(e) => refuse(e),
                }
            },
            (Stage::ReadTarget { job, workspace }, Event::Content(content)) => check_job(
                job,
                workspace,
                content,
            ),
            (Stage::DetectRevision { job, workspace, content }, Event::Revision(revision)) => {
                match validate_expectation(
                    &job.expected,
                    &job.target,
                    &workspace,
                    &Ok(content),
                    &revision,
                ) {
                    Err(e) => refuse(e),
                    Ok(()) => open_job(job, workspace),
                }
            },
            (Stage::OpenSession { job, workspace }, Event::Session { root }) => overlay_job(
                job,
                workspace,
                root,
            ),
            (Stage::Overlay { job, workspace, session_root }, Event::Done) => run_job(
                job,
                workspace,
                session_root,
                false,
            ),
            (Stage::Run { workspace, session_root, on_base, dry_run }, event) => {
                let outcome = match event {
                    Event::Outcome(outcome) => Ok(outcome),
                    Event::Failed(e) => Err(e),
                    _ => Err(Error::Backend("unexpected event".to_owned())),
                };
                (
                    Stage::Restore { workspace, session_root, on_base, dry_run, outcome },
                    Step::Restore,
                )
            },
            (
                Stage::Restore { workspace, session_root, on_base, dry_run, outcome },
                Event::Done,
            ) => finish_run(workspace, session_root, on_base, dry_run, outcome),
            (
                Stage::ReadSources { workspace, on_base, dry_run, edit },
                Event::Sources(sources),
            ) => {
                if sources.len() == edit.files.len() {
                    use_sources(workspace, on_base, dry_run, edit, sources)
                } else {
                    refuse(McpError::Internal("unexpected event".to_owned()))
                }
            },
            (Stage::Perform { on_base, applied, diffs }, Event::Done) => {
                if on_base {
                    let changed = copy_paths(&applied.changed_files);
                    (Stage::Sync { applied, diffs }, Step::Sync { changed })
                } else {
                    (Stage::Over, Step::Answer(applied_value(&applied, &diffs)))
                }
            },
            (Stage::Sync { applied, diffs }, Event::Done) => {
                (Stage::Over, Step::Answer(applied_value(&applied, &diffs)))
            },
            (_, Event::Failed(e)) => refuse(into_mcp(&e)),
            _ => refuse(McpError::Internal("unexpected event".to_owned())),
        }
    }
}

// ---------------------------------------------------------------------------
// Laws
// ---------------------------------------------------------------------------

/// The steps of a call, given what came of each of them in turn.
pub open spec fn steps_of<H>(at: At<H>, events: Seq<EventView>) -> Seq<StepView<H>>
    decreases events.len(),
{
    if events.len() == 0 {
        seq![at.1]
    } else {
        seq![at.1] + steps_of(next_of(at.0, events[0]), events.skip(1))
    }
}

/// Whether a call may come to write.
pub open spec fn may_write<H>(stage: StageView<H>) -> bool {
    match stage {
        StageView::FindRepository { job } => !job.dry_run,
        StageView::Identify { job, .. } => !job.dry_run,
        StageView::ReadTarget { job, .. } => !job.dry_run,
        StageView::DetectRevision { job, .. } => !job.dry_run,
        StageView::OpenSession { job, .. } => !job.dry_run,
        StageView::Overlay { job, .. } => !job.dry_run,
        StageView::Run { dry_run, .. } => !dry_run,
        StageView::Restore { dry_run, .. } => !dry_run,
        StageView::ReadSources { dry_run, .. } => !dry_run,
        StageView::Perform { .. } => true,
        StageView::Sync { .. } => true,
        StageView::Over => false,
    }
}

/// A call that may not write stays one.
proof fn lemma_preview_stays<H>(stage: StageView<H>, event: EventView)
    requires
        !may_write(stage),
    ensures
        !may_write(next_of(stage, event).0),
        !(next_of(stage, event).1 is Perform),
{
}

/// A preview never writes: no step of the call applies an edit, whatever comes of
/// its steps.
pub proof fn previews_never_write<H>(at: At<H>, events: Seq<EventView>, i: int)
    requires
        !may_write(at.0),
        !(at.1 is Perform),
        0 <= i < steps_of(at, events).len(),
    ensures
        !(steps_of(at, events)[i] is Perform),
    decreases events.len(),
{
    if events.len() > 0 && i > 0 {
        lemma_preview_stays(at.0, events[0]);
        let after = next_of(at.0, events[0]);
        assert(steps_of(at, events)[i] == steps_of(after, events.skip(1))[i - 1]);
        previews_never_write(after, events.skip(1), i - 1);
    }
}

/// A query is answered with its result, and nothing is written: once it has run,
/// the session's view is restored and the call ends.
pub proof fn queries_never_write<H>(stage: StageView<H>, value: JsonView)
    requires
        stage is Run,
    ensures
        ({
            let after = next_of(stage, EventView::Outcome(OutcomeView::Query(value)));
            after.1 is Restore && next_of(after.0, EventView::Done) == answered::<H>(value)
        }),
{
}

/// Whether an operation is run exactly in the stage that is for it.
pub open spec fn runs_in_its_stage<H>(at: At<H>) -> bool {
    at.1 is Run ==> at.0 is Run
}

/// Whatever comes of an operation, the session's own view is restored right behind
/// it.
pub proof fn every_run_is_restored<H>(at: At<H>, events: Seq<EventView>, i: int)
    requires
        runs_in_its_stage(at),
        0 <= i < steps_of(at, events).len() - 1,
        steps_of(at, events)[i] is Run,
    ensures
        steps_of(at, events)[i + 1] is Restore,
    decreases events.len(),
{
    if events.len() > 0 {
        let after = next_of(at.0, events[0]);
        let rest = steps_of(after, events.skip(1));
        assert(runs_in_its_stage(after));
        assert(steps_of(at, events)[i + 1] == rest[i]);
        if i == 0 {
            assert(rest[0] == after.1);
        } else {
            assert(steps_of(at, events)[i] == rest[i - 1]);
            every_run_is_restored(after, events.skip(1), i - 1);
        }
    }
}

/// Whether the working copy of a stage is `workspace`, and its edit, if it has one,
/// lies in it. Behind the edit there is no other.
pub open spec fn confined<H>(stage: StageView<H>, workspace: Seq<char>) -> bool {
    match stage {
        StageView::FindRepository { .. } => false,
        StageView::Identify { workspace: ws, .. } => ws == workspace,
        StageView::ReadTarget { workspace: ws, .. } => ws == workspace,
        StageView::DetectRevision { workspace: ws, .. } => ws == workspace,
        StageView::OpenSession { workspace: ws, .. } => ws == workspace,
        StageView::Overlay { workspace: ws, .. } => ws == workspace,
        StageView::Run { workspace: ws, .. } => ws == workspace,
        StageView::Restore { workspace: ws, .. } => ws == workspace,
        StageView::ReadSources { workspace: ws, edit, .. } => ws == workspace
            && workspace::edit_inside(edit, workspace),
        StageView::Perform { .. } => true,
        StageView::Sync { .. } => true,
        StageView::Over => true,
    }
}

/// Whether a step changes no file outside a working copy.
pub open spec fn writes_inside<H>(step: StepView<H>, workspace: Seq<char>) -> bool {
    step matches StepView::Perform { steps } ==> forall|k: int|
        0 <= k < steps.len() ==> workspace::step_under(#[trigger] steps[k], workspace)
}

/// A confined call stays confined.
proof fn lemma_confined_stays<H>(stage: StageView<H>, event: EventView, workspace: Seq<char>)
    requires
        confined(stage, workspace),
    ensures
        confined(next_of(stage, event).0, workspace),
        writes_inside(next_of(stage, event).1, workspace),
{
    if let StageView::ReadSources { workspace: ws, on_base, dry_run, edit } = stage {
        if let EventView::Sources(sources) = event {
            if sources.len() == edit.files.len() {
                if let Ok(updated) = applier::rewrites_of(edit.files, edit.encoding, ws, sources) {
                    let steps = applier::plan_of(edit, ws, sources, updated).steps;
                    assert forall|k: int| 0 <= k < steps.len() implies workspace::step_under(
                        #[trigger] steps[k],
                        workspace,
                    ) by {
                        workspace::accepted_edits_stay_in_the_workspace(
                            edit,
                            workspace,
                            sources,
                            updated,
                            k,
                        );
                    }
                }
            }
        }
    }
}

/// A call writes into its working copy and nowhere else, whatever comes of its
/// steps.
pub proof fn writes_stay_in_the_workspace<H>(
    at: At<H>,
    workspace: Seq<char>,
    events: Seq<EventView>,
    i: int,
)
    requires
        confined(at.0, workspace),
        writes_inside(at.1, workspace),
        0 <= i < steps_of(at, events).len(),
    ensures
        writes_inside(steps_of(at, events)[i], workspace),
    decreases events.len(),
{
    if events.len() > 0 && i > 0 {
        lemma_confined_stays(at.0, events[0], workspace);
        let after = next_of(at.0, events[0]);
        assert(steps_of(at, events)[i] == steps_of(after, events.skip(1))[i - 1]);
        writes_stay_in_the_workspace(after, workspace, events.skip(1), i - 1);
    }
}

/// A session is opened only for a working copy of the project, and only where what
/// the call expects stands at its target.
pub proof fn sessions_open_for_sound_calls<H>(stage: StageView<H>, event: EventView)
    ensures
        next_of(stage, event).1 is OpenSession ==> match (stage, event) {
            (
                StageView::Identify { job, workspace },
                EventView::Repositories(facts),
            ) => workspace::same_repository(facts, workspace, job.project.root) && (
            job.expected is None || workspace::checked_file(job.target, workspace) is None),
            (
                StageView::ReadTarget { job, workspace },
                EventView::Content(Ok(content)),
            ) => workspace::found_at(content, job.target) == job.expected,
            (
                StageView::DetectRevision { job, workspace, content },
                EventView::Revision(revision),
            ) => workspace::unmet(
                job.expected,
                job.target,
                workspace,
                Ok(content),
                revision,
            ) is None,
            _ => false,
        },
{
}

/// An edit is applied as a whole or not at all: where one of its files cannot be
/// read or rewritten, the call is refused and nothing is written.
pub proof fn edits_are_applied_as_a_whole<H>(stage: StageView<H>, event: EventView)
    ensures
        next_of(stage, event).1 is Perform ==> match (stage, event) {
            (
                StageView::ReadSources { workspace, edit, .. },
                EventView::Sources(sources),
            ) => applier::rewrites_of(edit.files, edit.encoding, workspace, sources) is Ok,
            _ => false,
        },
{
}

/// A session is told of changes only where they are changes to its own checkout.
pub proof fn sync_is_for_the_base<H>(stage: StageView<H>, event: EventView)
    ensures
        next_of(stage, event).1 is Sync ==> (stage matches StageView::Perform { on_base, .. }
            && on_base && event is Done),
{
}

/// How far a call has come, given what came of its steps in turn.
pub open spec fn reached<H>(at: At<H>, events: Seq<EventView>) -> At<H>
    decreases events.len(),
{
    if events.len() == 0 {
        at
    } else {
        reached(next_of(at.0, events[0]), events.skip(1))
    }
}

/// A job that is the same but writes.
pub open spec fn writing_job<H>(job: JobView<H>) -> JobView<H> {
    JobView { dry_run: false, ..job }
}

/// The same stage of a call that is the same but writes.
pub open spec fn writing<H>(stage: StageView<H>) -> StageView<H> {
    match stage {
        StageView::FindRepository { job } => StageView::FindRepository { job: writing_job(job) },
        StageView::Identify { job, workspace } => StageView::Identify {
            job: writing_job(job),
            workspace,
        },
        StageView::ReadTarget { job, workspace } => StageView::ReadTarget {
            job: writing_job(job),
            workspace,
        },
        StageView::DetectRevision { job, workspace, content } => StageView::DetectRevision {
            job: writing_job(job),
            workspace,
            content,
        },
        StageView::OpenSession { job, workspace } => StageView::OpenSession {
            job: writing_job(job),
            workspace,
        },
        StageView::Overlay { job, workspace, session_root } => StageView::Overlay {
            job: writing_job(job),
            workspace,
            session_root,
        },
        StageView::Run { workspace, session_root, on_base, .. } => StageView::Run {
            workspace,
            session_root,
            on_base,
            dry_run: false,
        },
        StageView::Restore { workspace, session_root, on_base, outcome, .. } => {
            StageView::Restore { workspace, session_root, on_base, dry_run: false, outcome }
        },
        StageView::ReadSources { workspace, on_base, edit, .. } => StageView::ReadSources {
            workspace,
            on_base,
            dry_run: false,
            edit,
        },
        other => other,
    }
}

/// Whether an event ends the reading of the files that an edit changes.
pub open spec fn sources_come<H>(stage: StageView<H>, event: EventView) -> bool {
    stage is ReadSources && event is Sources
}

/// Up to the files that its edit changes, a call that writes goes the way of its
/// preview.
pub proof fn lemma_same_way<H>(stage: StageView<H>, event: EventView)
    requires
        !sources_come(stage, event),
    ensures
        next_of(writing(stage), event) == (
            writing(next_of(stage, event).0),
            next_of(stage, event).1,
        ),
{
}

/// As long as a preview has not ended, the call that is the same but writes has
/// come as far, by the same steps.
pub proof fn writing_goes_the_way_of_the_preview<H>(at: At<H>, events: Seq<EventView>)
    requires
        !may_write(at.0),
        !(reached(at, events).0 is Over),
    ensures
        reached((writing(at.0), at.1), events) == (
            writing(reached(at, events).0),
            reached(at, events).1,
        ),
        !may_write(reached(at, events).0),
    decreases events.len(),
{
    if events.len() > 0 {
        let after = next_of(at.0, events[0]);
        lemma_preview_stays(at.0, events[0]);
        if sources_come(at.0, events[0]) {
            lemma_over_stays(after, events.skip(1));
        } else {
            lemma_same_way(at.0, events[0]);
        }
        writing_goes_the_way_of_the_preview(after, events.skip(1));
    }
}

/// A call that has ended stays so.
proof fn lemma_over_stays<H>(at: At<H>, events: Seq<EventView>)
    requires
        at.0 is Over,
    ensures
        reached(at, events).0 is Over,
    decreases events.len(),
{
    if events.len() > 0 {
        lemma_over_stays(next_of(at.0, events[0]), events.skip(1));
    }
}

/// Whether every file that is written is shown: under the name that it is reported
/// by, as a diff from its text to the text that is written.
pub open spec fn writes_are_shown(
    steps: Seq<FileStepView>,
    diffs: Seq<FileDiffView>,
    edit: WorkspaceEditView,
    workspace: Seq<char>,
    sources: Seq<Result<Seq<char>, Seq<char>>>,
) -> bool {
    forall|k: int|
        0 <= k < steps.len() && (#[trigger] steps[k]) is Write ==> exists|i: int|
            0 <= i < edit.files.len() && (#[trigger] diffs[i]) == (FileDiffView {
                path: applier::relativized(edit.files[i].path, workspace),
                diff: applier::diff_of(
                    sources[i]->Ok_0,
                    steps[k]->Write_text,
                    applier::relativized(edit.files[i].path, workspace),
                ),
            }) && steps[k]->Write_path == applier::resolved(edit.files[i].path, workspace)
}

/// Whether a call that writes does what its preview shows, and tells it: it applies
/// the edit whose diffs are shown, each text that it writes is in one of them, and it
/// answers with the same diffs.
pub open spec fn does_what_is_shown<H>(
    preview: At<H>,
    write: At<H>,
    edit: WorkspaceEditView,
    workspace: Seq<char>,
    sources: Seq<Result<Seq<char>, Seq<char>>>,
) -> bool {
    match (preview.1, write) {
        (
            StepView::Answer(shown),
            (StageView::Perform { on_base, changed, diffs }, StepView::Perform { steps }),
        ) => {
            let done = next_of(write.0, EventView::Done);
            &&& shown == preview_json(diffs)
            &&& applier::rewrites_of(edit.files, edit.encoding, workspace, sources) matches Ok(
                updated,
            ) && {
                let plan = applier::plan_of(edit, workspace, sources, updated);
                &&& diffs == applier::diffs_of(edit, workspace, sources, updated)
                &&& steps == plan.steps
                &&& changed == plan.changed_files
            }
            &&& writes_are_shown(steps, diffs, edit, workspace, sources)
            &&& if on_base {
                &&& done.1 == StepView::<H>::Sync { changed }
                &&& next_of(done.0, EventView::Done) == answered::<H>(applied_json(changed, diffs))
            } else {
                done == answered::<H>(applied_json(changed, diffs))
            }
        },
        (StepView::Refuse(_), _) => write == preview,
        _ => false,
    }
}

/// Once the files have been read, a call that writes does what its preview shows,
/// or both are refused alike.
pub proof fn writing_does_what_the_preview_shows<H>(
    stage: StageView<H>,
    sources: Seq<Result<Seq<char>, Seq<char>>>,
)
    requires
        stage is ReadSources,
        !may_write(stage),
    ensures
        does_what_is_shown(
            next_of(stage, EventView::Sources(sources)),
            next_of(writing(stage), EventView::Sources(sources)),
            stage->ReadSources_edit,
            stage->ReadSources_workspace,
            sources,
        ),
{
    let edit = stage->ReadSources_edit;
    let workspace = stage->ReadSources_workspace;
    if sources.len() == edit.files.len() {
        if let Ok(updated) = applier::rewrites_of(edit.files, edit.encoding, workspace, sources) {
            let steps = applier::plan_of(edit, workspace, sources, updated).steps;
            let diffs = applier::diffs_of(edit, workspace, sources, updated);
            assert forall|k: int|
                0 <= k < steps.len() && (#[trigger] steps[k]) is Write implies exists|i: int|
                0 <= i < edit.files.len() && (#[trigger] diffs[i]) == (FileDiffView {
                    path: applier::relativized(edit.files[i].path, workspace),
                    diff: applier::diff_of(
                        sources[i]->Ok_0,
                        steps[k]->Write_text,
                        applier::relativized(edit.files[i].path, workspace),
                    ),
                }) && steps[k]->Write_path == applier::resolved(
                    edit.files[i].path,
                    workspace,
                ) by {
                applier::preview_shows_what_is_written(edit, workspace, sources, updated, k);
            }
        }
    }
}

/// The answers to previews and to edits that have been applied can be sent, whatever
/// the paths and the diffs in them are.
pub proof fn answers_can_be_sent(changed: Seq<Seq<char>>, diffs: Seq<FileDiffView>)
    ensures
        wire::sendable(preview_json(diffs)),
        wire::sendable(applied_json(changed, diffs)),
{
    reveal_with_fuel(wire::read_back, 4);
    reveal_strlit("$serde_json::private::");
    reveal_strlit("dry_run");
    reveal_strlit("files");
    reveal_strlit("path");
    reveal_strlit("diff");
    reveal_strlit("applied");
    reveal_strlit("changed_files");
    assert("path"@[0] != "diff"@[0]);
    assert("dry_run"@[0] != "files"@[0]);
    assert("dry_run"@[0] != "applied"@[0]);
    assert("applied"@[0] != "files"@[0]);
    let depth = wire::MAX_DEPTH as nat;
    assert forall|d: FileDiffView| #[trigger] wire::read_back(
        diff_json(d),
        (depth - 2) as nat,
    ) by {}
    assert(wire::read_back(diffs_json(diffs), (depth - 1) as nat));
}

/// The tree once the steps of a call have been done.
pub open spec fn tree_after<H>(tree: Tree, steps: Seq<StepView<H>>) -> Tree
    decreases steps.len(),
{
    if steps.len() == 0 {
        tree
    } else {
        let before = tree_after(tree, steps.drop_last());
        match steps.last() {
            StepView::Perform { steps } => applier::after_steps(before, steps),
            _ => before,
        }
    }
}

/// One event more takes a call one step further.
proof fn lemma_one_more<H>(at: At<H>, events: Seq<EventView>, event: EventView)
    ensures
        reached(at, events.push(event)) == next_of(reached(at, events).0, event),
        steps_of(at, events.push(event)) == steps_of(at, events).push(
            reached(at, events.push(event)).1,
        ),
    decreases events.len(),
{
    let more = events.push(event);
    if events.len() == 0 {
        assert(more.skip(1) =~= events);
        assert(reached(next_of(at.0, event), events) == next_of(at.0, event));
        assert(steps_of(next_of(at.0, event), events) =~= seq![next_of(at.0, event).1]);
        assert(steps_of(at, more) =~= steps_of(at, events).push(next_of(at.0, event).1));
    } else {
        let after = next_of(at.0, events[0]);
        assert(more.skip(1) =~= events.skip(1).push(event));
        lemma_one_more(after, events.skip(1), event);
        assert(steps_of(at, more) =~= steps_of(at, events).push(reached(at, more).1));
    }
}

/// One step more is done in the tree that the others have left.
proof fn lemma_one_step_more<H>(tree: Tree, steps: Seq<StepView<H>>, step: StepView<H>)
    ensures
        tree_after(tree, steps.push(step)) == match step {
            StepView::Perform { steps: done } => applier::after_steps(
                tree_after(tree, steps),
                done,
            ),
            _ => tree_after(tree, steps),
        },
{
    assert(steps.push(step).drop_last() =~= steps);
}

/// Steps of which none applies an edit leave the tree alone.
proof fn lemma_nothing_applied<H>(tree: Tree, steps: Seq<StepView<H>>)
    requires
        forall|i: int| 0 <= i < steps.len() ==> !((#[trigger] steps[i]) is Perform),
    ensures
        tree_after(tree, steps) == tree,
    decreases steps.len(),
{
    if steps.len() > 0 {
        let front = steps.drop_last();
        assert forall|i: int| 0 <= i < front.len() implies !((#[trigger] front[i]) is Perform) by {
            assert(front[i] == steps[i]);
        }
        lemma_nothing_applied(tree, front);
        assert(!(steps[steps.len() - 1] is Perform));
    }
}

/// A preview leaves every file as it was, whatever comes of its steps.
pub proof fn previews_change_no_file<H>(at: At<H>, events: Seq<EventView>, tree: Tree)
    requires
        !may_write(at.0),
        !(at.1 is Perform),
    ensures
        tree_after(tree, steps_of(at, events)) == tree,
{
    let steps = steps_of(at, events);
    assert forall|i: int| 0 <= i < steps.len() implies !((#[trigger] steps[i]) is Perform) by {
        previews_never_write(at, events, i);
    }
    lemma_nothing_applied(tree, steps);
}

/// As long as a preview has not ended, the call that is the same but writes takes
/// the same steps.
proof fn lemma_same_steps<H>(at: At<H>, events: Seq<EventView>)
    requires
        !may_write(at.0),
        !(reached(at, events).0 is Over),
    ensures
        steps_of((writing(at.0), at.1), events) == steps_of(at, events),
    decreases events.len(),
{
    if events.len() > 0 {
        let after = next_of(at.0, events[0]);
        lemma_preview_stays(at.0, events[0]);
        if sources_come(at.0, events[0]) {
            lemma_over_stays(after, events.skip(1));
        } else {
            lemma_same_way(at.0, events[0]);
        }
        lemma_same_steps(after, events.skip(1));
    }
}

/// What came of the steps of a call that writes, once it knows the files of its
/// edit and everything is done as it asks.
pub open spec fn all_done(
    events: Seq<EventView>,
    sources: Seq<Result<Seq<char>, Seq<char>>>,
    on_base: bool,
) -> Seq<EventView> {
    let performed = events.push(EventView::Sources(sources)).push(EventView::Done);
    if on_base {
        performed.push(EventView::Done)
    } else {
        performed
    }
}

/// Whether a preview leaves every file as it was and shows the diffs of its edit,
/// while the call that is the same but writes gives every file the text that its
/// diff was made of, and tells the same diffs. Where the edit cannot be made, both
/// are refused alike and no file is changed.
pub open spec fn shows_and_writes<H>(
    preview: At<H>,
    write: At<H>,
    events: Seq<EventView>,
    sources: Seq<Result<Seq<char>, Seq<char>>>,
    tree: Tree,
) -> bool {
    match reached(preview, events).0 {
        StageView::ReadSources { workspace, on_base, edit, .. } => {
            let read = events.push(EventView::Sources(sources));
            let done = all_done(events, sources, on_base);
            &&& tree_after(tree, steps_of(preview, read)) == tree
            &&& match applier::rewrites_of(edit.files, edit.encoding, workspace, sources) {
                Err(e) => {
                    &&& reached(preview, read) == refused::<H>(error::answer_to(e))
                    &&& reached(write, read) == refused::<H>(error::answer_to(e))
                    &&& tree_after(tree, steps_of(write, read)) == tree
                },
                Ok(updated) => {
                    let diffs = applier::diffs_of(edit, workspace, sources, updated);
                    let plan = applier::plan_of(edit, workspace, sources, updated);
                    let written = applier::after_steps(
                        tree,
                        applier::write_plan(edit.files, workspace, sources, updated).steps,
                    );
                    &&& reached(preview, read) == answered::<H>(preview_json(diffs))
                    &&& reached(write, done) == answered::<H>(
                        applied_json(plan.changed_files, diffs),
                    )
                    &&& applier::rewritten_to(tree, written, edit.files, workspace, updated)
                    &&& tree_after(tree, steps_of(write, done)) == applier::after_steps(
                        written,
                        edit.file_ops.map_values(
                            |o: FileOperationView| applier::op_step(o, workspace),
                        ),
                    )
                },
            }
        },
        _ => false,
    }
}

/// A preview changes nothing, and the call that is the same but writes does what the
/// preview showed: both read the files of the edit from the same tree.
pub proof fn preview_shows_and_call_writes<H>(
    at: At<H>,
    events: Seq<EventView>,
    sources: Seq<Result<Seq<char>, Seq<char>>>,
    tree: Tree,
)
    requires
        !may_write(at.0),
        !(at.1 is Perform),
        reached(at, events).0 matches StageView::ReadSources { workspace, edit, .. }
            && sources.len() == edit.files.len() && applier::read_from(
            tree,
            edit.files,
            workspace,
            sources,
        ),
    ensures
        shows_and_writes(at, (writing(at.0), at.1), events, sources, tree),
{
    let write = (writing(at.0), at.1);
    let p = reached(at, events);
    let edit = p.0->ReadSources_edit;
    let workspace = p.0->ReadSources_workspace;
    let on_base = p.0->ReadSources_on_base;
    let event = EventView::Sources(sources);
    let read = events.push(event);
    previews_change_no_file(at, read, tree);
    previews_change_no_file(at, events, tree);
    writing_goes_the_way_of_the_preview(at, events);
    lemma_same_steps(at, events);
    lemma_one_more(at, events, event);
    lemma_one_more(write, events, event);
    lemma_one_step_more(tree, steps_of(write, events), reached(write, read).1);
    if let Ok(updated) = applier::rewrites_of(edit.files, edit.encoding, workspace, sources) {
        let performed = read.push(EventView::Done);
        applier::applying_gives_the_new_texts(edit, workspace, sources, updated, tree);
        lemma_one_more(write, read, EventView::Done);
        lemma_one_step_more(tree, steps_of(write, read), reached(write, performed).1);
        if on_base {
            lemma_one_more(write, performed, EventView::Done);
            lemma_one_step_more(
                tree,
                steps_of(write, performed),
                reached(write, performed.push(EventView::Done)).1,
            );
        }
    }
}

/// Whether a stage is one of a call that wants `job` done, up to its operation.
pub open spec fn wants<H>(stage: StageView<H>, job: JobView<H>) -> bool {
    match stage {
        StageView::FindRepository { job: j } => j == job,
        StageView::Identify { job: j, .. } => j == job,
        StageView::ReadTarget { job: j, .. } => j == job,
        StageView::DetectRevision { job: j, .. } => j == job,
        StageView::OpenSession { job: j, .. } => j == job,
        StageView::Overlay { job: j, .. } => j == job,
        _ => true,
    }
}

/// Whether a step does what `job` wants: it opens a session of its project with the
/// provider of its language, and runs its operation at its target with its
/// parameters.
pub open spec fn serves<H>(step: StepView<H>, job: JobView<H>) -> bool {
    match step {
        StepView::OpenSession { language, project } => language == job.language && project
            == job.project,
        StepView::Run { operation, target, params } => operation == job.operation && target
            == job.target && params == job.params,
        StepView::Identify { project_root, .. } => project_root == job.project.root,
        _ => true,
    }
}

/// Every step of a call does what the call wants, whatever came of those before.
pub proof fn steps_do_what_the_call_wants<H>(
    at: At<H>,
    job: JobView<H>,
    events: Seq<EventView>,
    i: int,
)
    requires
        wants(at.0, job),
        serves(at.1, job),
        0 <= i < steps_of(at, events).len(),
    ensures
        serves(steps_of(at, events)[i], job),
    decreases events.len(),
{
    if events.len() > 0 && i > 0 {
        let after = next_of(at.0, events[0]);
        assert(wants(after.0, job) && serves(after.1, job));
        assert(steps_of(at, events)[i] == steps_of(after, events.skip(1))[i - 1]);
        steps_do_what_the_call_wants(after, job, events.skip(1), i - 1);
    }
}

/// Whether two paths are one: each lies under the other.
pub open spec fn one_place(a: Seq<char>, b: Seq<char>) -> bool {
    path::under(a, b) && path::under(b, a)
}

/// A working copy is laid over the checkout of a session exactly where it is
/// another directory, or the session has no checkout; then, or at once, the
/// operation runs.
pub proof fn overlays_are_for_other_checkouts<H>(
    job: JobView<H>,
    workspace: Seq<char>,
    root: Option<Seq<char>>,
)
    ensures
        ({
            let open = StageView::OpenSession { job, workspace };
            let after = next_of(open, EventView::Session { root });
            if root matches Some(r) && one_place(r, workspace) {
                after.1 is Run && (after.0 matches StageView::Run { on_base, .. } && on_base)
            } else {
                let ran = next_of(after.0, EventView::Done);
                after.1 == StepView::<H>::Overlay { workspace } && ran.1 is Run && (ran.0
                    matches StageView::Run { on_base, .. } && !on_base)
            }
        }),
{
    if let Some(r) = root {
        let x = path::components(r);
        let y = path::components(workspace);
        if one_place(r, workspace) {
            assert(x.take(y.len() as int) =~= x);
        }
        if x == y {
            assert(x.take(y.len() as int) =~= x);
        }
    }
}

/// What is told to a call that is sound, step by step: a working copy of the project
/// in which the target is what the call expects has its session opened, and a
/// session has the operation run. Nothing else is asked.
pub proof fn sound_calls_are_run<H>(
    job: JobView<H>,
    workspace: Seq<char>,
    facts: RepoFacts,
    content: Seq<char>,
    root: Option<Seq<char>>,
)
    requires
        workspace::same_repository(facts, workspace, job.project.root),
        job.expected is None || job.target is File || job.target is Project
            || workspace::found_at(content, job.target) == job.expected,
    ensures
        ({
            let first = next_of(
                StageView::Identify { job, workspace },
                EventView::Repositories(facts),
            );
            let checked = job.expected is Some && (job.target is Position || job.target
                is Selection);
            let open = if checked {
                next_of(first.0, EventView::Content(Ok(content)))
            } else {
                first
            };
            let session = next_of(open.0, EventView::Session { root });
            let ran = if session.1 is Overlay {
                next_of(session.0, EventView::Done)
            } else {
                session
            };
            &&& checked ==> first.1 == (StepView::<H>::ReadTarget {
                file: applier::resolved(job.target.file().unwrap(), workspace),
            })
            &&& open.1 is OpenSession
            &&& ran.1 is Run
            &&& ran.0 matches StageView::Run {
                workspace: ws,
                session_root,
                on_base,
                dry_run,
            } && ws == workspace && session_root == root && dry_run == job.dry_run && on_base
                == is_base(root, workspace)
        }),
{
}

/// A working copy of another repository has its call refused, and so has one in which
/// the target is not what the call expects.
pub proof fn unsound_calls_are_refused<H>(
    job: JobView<H>,
    workspace: Seq<char>,
    facts: RepoFacts,
    content: Seq<char>,
    revision: Option<RevisionView>,
    want: Seq<char>,
)
    ensures
        !workspace::same_repository(facts, workspace, job.project.root) ==> next_of(
            StageView::Identify { job, workspace },
            EventView::Repositories(facts),
        ) == refused::<H>(workspace::foreign_workspace(workspace)),
        job.expected == Some(want) && (job.target is Position || job.target is Selection)
            && workspace::found_at(content, job.target) != Some(want) ==> ({
            let after = next_of(
                StageView::ReadTarget { job, workspace },
                EventView::Content(Ok(content)),
            );
            after.1 == (StepView::<H>::DetectRevision { workspace }) && next_of(
                after.0,
                EventView::Revision(revision),
            ) == refused::<H>(
                workspace::expectation_failed(
                    want,
                    job.target,
                    workspace,
                    workspace::found_at(content, job.target),
                    revision,
                ),
            )
        }),
{
}

/// What an operation says becomes the answer of its call. A result is answered as
/// it is. A failure is answered by its own text. An edit has every file of it read,
/// where it stands in the working copy: at the place that it has in the checkout of
/// the session.
pub proof fn outcomes_reach_the_call<H>(
    workspace: Seq<char>,
    root: Seq<char>,
    on_base: bool,
    dry_run: bool,
    outcome: Result<OutcomeView, ErrorView>,
)
    requires
        workspace.len() > 0,
        root.len() > 0,
    ensures
        ({
            let stage = StageView::<H>::Restore {
                workspace,
                session_root: Some(root),
                on_base,
                dry_run,
                outcome,
            };
            let after = next_of(stage, EventView::Done);
            match outcome {
                Ok(OutcomeView::Query(value)) => after.1 == StepView::<H>::Answer(value),
                Err(e) => after.1 == StepView::<H>::Refuse(error::answer_to(e)),
                Ok(OutcomeView::Edit(edit)) => after.1 is Refuse || (after.1
                    matches StepView::ReadSources { paths } && after.0
                    matches StageView::ReadSources {
                    workspace: ws,
                    on_base: b,
                    dry_run: d,
                    edit: moved,
                } && ws == workspace && b == on_base && d == dry_run && moved.encoding
                    == edit.encoding && moved.files.len() == edit.files.len() && paths.len()
                    == edit.files.len() && moved.file_ops.len() == edit.file_ops.len() && (forall|
                    i: int,
                |
                    0 <= i < edit.files.len() ==> (#[trigger] moved.files[i]).edits
                        == edit.files[i].edits && edit::is_moved(
                        edit.files[i].path,
                        moved.files[i].path,
                        root,
                        workspace,
                    ) && paths[i] == applier::resolved(moved.files[i].path, workspace))),
            }
        }),
        outcome matches Ok(OutcomeView::Edit(edit)) ==> (next_of(
            StageView::<H>::Restore {
                workspace,
                session_root: Some(root),
                on_base,
                dry_run,
                outcome,
            },
            EventView::Done,
        ).1 is ReadSources <==> workspace::edit_inside(
            edit::retargeted(edit, root, workspace),
            workspace,
        )),
{
    if let Ok(OutcomeView::Edit(edit)) = outcome {
        edit::retargeting_moves_every_path(edit, root, workspace);
    }
}

/// A step that fails ends its call, with the text of the failure; but while an
/// operation runs, the session's own view is restored first.
pub proof fn failures_end_the_call<H>(stage: StageView<H>, e: ErrorView)
    ensures
        stage is Run ==> ({
            let after = next_of(stage, EventView::Failed(e));
            after.1 is Restore && next_of(after.0, EventView::Done) == refused::<H>(
                error::answer_to(e),
            )
        }),
        !(stage is Run) ==> next_of(stage, EventView::Failed(e)) == refused::<H>(
            error::answer_to(e),
        ),
{
}

/// Once its edit is applied, a call is answered with what has changed; a session is
/// told of the same files first where they are files of its own checkout.
pub proof fn applied_edits_are_reported<H>(
    on_base: bool,
    changed: Seq<Seq<char>>,
    diffs: Seq<FileDiffView>,
)
    ensures
        ({
            let stage = StageView::<H>::Perform { on_base, changed, diffs };
            let after = next_of(stage, EventView::Done);
            if on_base {
                after.1 == (StepView::<H>::Sync { changed }) && next_of(after.0, EventView::Done).1
                    == StepView::<H>::Answer(applied_json(changed, diffs))
            } else {
                after.1 == StepView::<H>::Answer(applied_json(changed, diffs))
            }
        }),
{
}

/// Whether a list of values is the list of diffs: each has the path and the diff of
/// its own.
pub open spec fn shows_diffs(items: Seq<JsonView>, diffs: Seq<FileDiffView>) -> bool {
    &&& items.len() == diffs.len()
    &&& forall|i: int|
        0 <= i < diffs.len() ==> (#[trigger] items[i]).get_text("path"@) == Some(diffs[i].path)
            && items[i].get_text("diff"@) == Some(diffs[i].diff)
}

/// The answer to a preview says that it is one, and shows every diff. The answer to
/// an edit that has been applied says that it was no preview, names every file that
/// has changed, and shows every diff.
pub proof fn answers_say_what_was_done(changed: Seq<Seq<char>>, diffs: Seq<FileDiffView>)
    ensures
        preview_json(diffs).get("dry_run"@) == Some(JsonView::Bool(true)),
        preview_json(diffs).get("files"@) matches Some(JsonView::Array(items)) && shows_diffs(
            items,
            diffs,
        ),
        preview_json(diffs).get("applied"@) is None,
        applied_json(changed, diffs).get("dry_run"@) == Some(JsonView::Bool(false)),
        applied_json(changed, diffs).get("files"@) matches Some(JsonView::Array(items))
            && shows_diffs(items, diffs),
        json::inner(applied_json(changed, diffs).get("applied"@), "changed_files"@) matches Some(
            JsonView::Array(names),
        ) && names.len() == changed.len() && (forall|i: int|
            0 <= i < changed.len() ==> #[trigger] names[i] == JsonView::Text(changed[i])),
{
    broadcast use json::lemma_lookup_of_pushed;

    reveal_strlit("dry_run");
    reveal_strlit("files");
    reveal_strlit("applied");
    reveal_strlit("changed_files");
    reveal_strlit("path");
    reveal_strlit("diff");
    assert("dry_run"@.len() == 7);
    assert("files"@.len() == 5);
    assert("applied"@.len() == 7);
    assert("changed_files"@.len() == 13);
    assert("path"@.len() == 4);
    assert("diff"@.len() == 4);
    assert("dry_run"@[0] != "applied"@[0]);
    assert("path"@[0] != "diff"@[0]);
    let items = diffs.map_values(|d: FileDiffView| diff_json(d));
    assert forall|i: int| 0 <= i < diffs.len() implies (#[trigger] items[i]).get_text("path"@)
        == Some(diffs[i].path) && items[i].get_text("diff"@) == Some(diffs[i].diff) by {
        assert(items[i] == diff_json(diffs[i]));
    }
    assert(shows_diffs(items, diffs));
}

} // verus!

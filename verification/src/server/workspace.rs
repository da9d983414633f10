//! Working copies: which one a call is about, and what keeps a call inside it.
use vstd::prelude::*;

use crate::edit::applier;
use crate::edit::applier::{resolve_path, FileStepView};
use crate::edit::position;
use crate::edit::{
    identifier_at, text_in_range, FileEditView, FileOperation, FileOperationView,
    PositionEncoding, Range, WorkspaceEdit, WorkspaceEditView,
};
use crate::json::{Json, JsonView};
use crate::locate;
use crate::locate::{first_present, Probed};
use crate::operation::{Target, TargetView};
use crate::path;
use crate::path::PathBuf;
use crate::server::error::{McpError, McpErrorView};
use crate::server::ops;
use crate::server::pathmap;
use crate::server::pathmap::PathMap;
use crate::text;
use crate::text::{cat2, cat3, cat4, cat5, decimal_text, same_text};
use crate::vcs;
use crate::vcs::{Revision, RevisionView};

verus! {

// ---------------------------------------------------------------------------
// Finding the working copy
// ---------------------------------------------------------------------------

/// The target with its file, if that is absolute, as the server sees it.
pub open spec fn remapped(
    entries: Seq<(Seq<char>, Seq<char>)>,
    target: TargetView,
) -> TargetView {
    match target.file() {
        Some(f) if path::absolute(f) => target.with_file(pathmap::mapped(entries, f)),
        _ => target,
    }
}

/// Rewrites the file of a target, if that is absolute, into the file that the
/// server sees. Relative files are seen from the project root and stay.
pub fn remap_target_file(map: &PathMap, target: &mut Target)
    ensures
        final(target)@ == remapped(map@, old(target)@),
{
    let other = match target.file() {
        Some(f) => if f.is_absolute() {
            map.map(f)
        } else {
            return;
        },
        None => return,
    };
    *target = target.with_file(other);
}

/// The directories that a path lies in, the nearest first.
pub open spec fn ancestors(p: Seq<char>) -> Seq<Seq<char>>
    decreases p.len(),
    via ancestors_decreases
{
    match path::parent_of(p) {
        Some(dir) => seq![dir] + ancestors(dir),
        None => seq![],
    }
}

#[via_fn]
proof fn ancestors_decreases(p: Seq<char>) {
    if path::parent_of(p) is Some {
        path::parent_drops_last_component(p);
    }
}

/// The directories that a path lies in, the nearest first.
pub fn ancestor_dirs(file: &PathBuf) -> (r: Vec<PathBuf>)
    ensures
        path::texts(r@) == ancestors(file@),
{
    let mut out: Vec<PathBuf> = Vec::new();
    let mut next = file.parent();
    let ghost mut left = path::components(file@).len();
    proof {
        if path::parent_of(file@) is Some {
            path::parent_drops_last_component(file@);
            lemma_parent_has_component(file@);
        }
        assert(path::texts(out@) + ancestors(file@) =~= ancestors(file@));
    }
    loop
        invariant
            match next {
                Some(dir) => ancestors(file@) == path::texts(out@) + (seq![dir@] + ancestors(
                    dir@,
                )) && left == path::components(dir@).len() + 1,
                None => ancestors(file@) == path::texts(out@),
            },
        decreases (if next is Some { left } else { 0 }),
    {
        let dir = match next {
            Some(dir) => dir,
            None => return out,
        };
        let ghost before = path::texts(out@);
        proof {
            left = path::components(dir@).len();
            if path::parent_of(dir@) is Some {
                path::parent_drops_last_component(dir@);
                lemma_parent_has_component(dir@);
            }
        }
        next = dir.parent();
        out.push(dir);
        proof {
            assert(path::texts(out@) =~= before.push(dir@));
            assert(before + (seq![dir@] + ancestors(dir@)) =~= before.push(dir@) + ancestors(
                dir@,
            ));
            if next is None {
                assert(before.push(dir@) + ancestors(dir@) =~= before.push(dir@));
            }
        }
    }
}

/// A path with a parent has a component.
proof fn lemma_parent_has_component(p: Seq<char>)
    requires
        path::parent_of(p) is Some,
    ensures
        path::components(p).len() > 0,
{
    path::parent_drops_last_component(p);
    path::lemma_nonempty_has_component(p);
}

/// Where the working copy of a call is.
#[derive(Debug)]
pub enum WorkspaceSearch {
    /// Here.
    At(PathBuf),
    /// In the nearest of these directories that holds a repository, else in the
    /// project root.
    Nearest(Vec<PathBuf>),
}

/// What a [`WorkspaceSearch`] says.
pub enum WorkspaceSearchView {
    At(Seq<char>),
    Nearest(Seq<Seq<char>>),
}

impl View for WorkspaceSearch {
    type V = WorkspaceSearchView;

    open spec fn view(&self) -> WorkspaceSearchView {
        match self {
            WorkspaceSearch::At(p) => WorkspaceSearchView::At(p@),
            WorkspaceSearch::Nearest(dirs) => WorkspaceSearchView::Nearest(path::texts(dirs@)),
        }
    }
}

/// Where the working copy of a call is: the one that the call names; else the one
/// that an absolute file lies in; else the project root.
pub open spec fn workspace_search(
    args: JsonView,
    target: TargetView,
    root: Seq<char>,
    entries: Seq<(Seq<char>, Seq<char>)>,
) -> WorkspaceSearchView {
    match ops::named_workspace(args) {
        Some(ws) => WorkspaceSearchView::At(pathmap::mapped(entries, ws)),
        None => match target.file() {
            Some(file) if path::absolute(file) => WorkspaceSearchView::Nearest(ancestors(file)),
            _ => WorkspaceSearchView::At(root),
        },
    }
}

/// Where the working copy of a call is. The paths of the call are rewritten by
/// `map`.
pub fn resolve_workspace(args: &Json, target: &Target, root: &PathBuf, map: &PathMap) -> (r:
    WorkspaceSearch)
    ensures
        r@ == workspace_search(args@, target@, root@, map@),
{
    if let Some(ws) = ops::workspace(args) {
        return WorkspaceSearch::At(map.map(&ws));
    }
    if let Some(file) = target.file() {
        if file.is_absolute() {
            return WorkspaceSearch::Nearest(ancestor_dirs(file));
        }
    }
    WorkspaceSearch::At(root.clone())
}

/// The nearest directory that holds a repository, else the project root.
pub open spec fn nearest_working_copy(dirs: Seq<Probed>, root: Seq<char>) -> Seq<char> {
    match locate::first_present_path(dirs) {
        Some(dir) => dir,
        None => root,
    }
}

/// The nearest directory that holds a repository, else the project root. A
/// directory holds a repository if it has an entry `.git` or `.jj`.
pub fn working_copy_root_containing(dirs: &Vec<Probed>, root: &PathBuf) -> (r: PathBuf)
    ensures
        r@ == nearest_working_copy(dirs@, root@),
{
    match first_present(dirs) {
        Some(dir) => dir,
        None => root.clone(),
    }
}

// ---------------------------------------------------------------------------
// The repository
// ---------------------------------------------------------------------------

/// What is known of the repositories of a working copy and of a project.
#[derive(Debug)]
pub struct RepoFacts {
    /// The shared root of the repository of the working copy, if it has one.
    pub workspace: Option<PathBuf>,
    /// The shared root of the repository of the project, if it has one.
    pub project: Option<PathBuf>,
    /// The canonical path of the working copy, if there is one.
    pub workspace_canonical: Option<PathBuf>,
    /// The canonical path of the project, if there is one.
    pub project_canonical: Option<PathBuf>,
}

/// The canonical path where there is one, else the path itself.
pub open spec fn canonical_or(canonical: Option<PathBuf>, p: Seq<char>) -> Seq<char> {
    match canonical {
        Some(c) => c@,
        None => p,
    }
}

/// Whether a working copy belongs to a project: both are of one repository, or
/// neither is of any and they are one directory.
pub open spec fn same_repository(
    facts: RepoFacts,
    workspace: Seq<char>,
    project_root: Seq<char>,
) -> bool {
    match (facts.workspace, facts.project) {
        (Some(a), Some(b)) => path::components(a@) == path::components(b@),
        (None, None) => path::components(canonical_or(facts.workspace_canonical, workspace))
            == path::components(canonical_or(facts.project_canonical, project_root)),
        _ => false,
    }
}

/// What a working copy of another repository is answered.
pub open spec fn foreign_workspace(workspace: Seq<char>) -> McpErrorView {
    McpErrorView::InvalidParams(
        "workspace `"@ + workspace + "` is not a working copy of the project"@,
    )
}

/// The canonical path where there is one, else the path itself.
fn canonical(given: &Option<PathBuf>, p: &PathBuf) -> (r: PathBuf)
    ensures
        r@ == canonical_or(*given, p@),
{
    match given {
        Some(c) => c.clone(),
        None => p.clone(),
    }
}

/// Refuses a working copy that does not belong to the project.
pub fn ensure_same_repo(facts: &RepoFacts, workspace: &PathBuf, project_root: &PathBuf) -> (r:
    Result<(), McpError>)
    ensures
        r is Ok == same_repository(*facts, workspace@, project_root@),
        r matches Err(e) ==> e@ == foreign_workspace(workspace@),
{
    let same = match (&facts.workspace, &facts.project) {
        (Some(a), Some(b)) => *a == *b,
        (None, None) => canonical(&facts.workspace_canonical, workspace) == canonical(
            &facts.project_canonical,
            project_root,
        ),
        _ => false,
    };
    if same {
        Ok(())
    } else {
        Err(
            McpError::InvalidParams(
                cat3("workspace `", workspace.as_str(), "` is not a working copy of the project"),
            ),
        )
    }
}

// ---------------------------------------------------------------------------
// Expectations
// ---------------------------------------------------------------------------

/// The suffix that says where a target lies in its file.
pub open spec fn target_label(target: TargetView) -> Seq<char> {
    match target {
        TargetView::Position { position, .. } => ":"@ + text::decimal(position.line as nat) + ":"@
            + text::decimal(position.character as nat),
        TargetView::Selection { range, .. } => ":"@ + text::decimal(range.start.line as nat) + ":"@
            + text::decimal(range.start.character as nat) + "-"@ + text::decimal(
            range.end.line as nat,
        ) + ":"@ + text::decimal(range.end.character as nat),
        _ => ""@,
    }
}

/// The suffix that says where a target lies in its file.
pub fn position_label(target: &Target) -> (r: String)
    ensures
        r@ == target_label(target@),
{
    match target {
        Target::Position { position, .. } => cat4(
            ":",
            decimal_text(position.line as u64).as_str(),
            ":",
            decimal_text(position.character as u64).as_str(),
        ),
        Target::Selection { range, .. } => {
            let start = cat5(
                ":",
                decimal_text(range.start.line as u64).as_str(),
                ":",
                decimal_text(range.start.character as u64).as_str(),
                "-",
            );
            cat4(
                start.as_str(),
                decimal_text(range.end.line as u64).as_str(),
                ":",
                decimal_text(range.end.character as u64).as_str(),
            )
        },
        _ => "".to_owned(),
    }
}

/// The file that has to be read to check what a call expects: that of a position or
/// a selection, seen from the working copy. Other targets have no place to check.
pub open spec fn checked_file(target: TargetView, workspace: Seq<char>) -> Option<Seq<char>> {
    match target {
        TargetView::Position { file, .. } => Some(applier::resolved(file, workspace)),
        TargetView::Selection { file, .. } => Some(applier::resolved(file, workspace)),
        _ => None,
    }
}

/// The file that has to be read to check what a call expects.
pub fn file_to_check(target: &Target, workspace: &PathBuf) -> (r: Option<PathBuf>)
    ensures
        path::optional(r) == checked_file(target@, workspace@),
{
    match target {
        Target::Position { file, .. } => Some(resolve_path(file, workspace)),
        Target::Selection { file, .. } => Some(resolve_path(file, workspace)),
        _ => None,
    }
}

/// What a file that cannot be read is answered.
pub open spec fn unreadable(file: Seq<char>, why: Seq<char>) -> McpErrorView {
    McpErrorView::InvalidParams(
        "cannot read `"@ + file + "` to validate the target: "@ + why,
    )
}

/// What a file that cannot be read is answered.
pub fn read_for_validation(file: &PathBuf, why: &str) -> (r: McpError)
    ensures
        r@ == unreadable(file@, why@),
{
    McpError::InvalidParams(
        cat4("cannot read `", file.as_str(), "` to validate the target: ", why),
    )
}

/// What stands at a target: the identifier that a position touches, or the text
/// that is selected.
pub open spec fn found_at(content: Seq<char>, target: TargetView) -> Option<Seq<char>> {
    match target {
        TargetView::Position { position, .. } => position::identifier_of(
            content,
            position,
            PositionEncoding::Utf16,
        ),
        TargetView::Selection { range, .. } => position::covered_text(
            content,
            range,
            PositionEncoding::Utf16,
        ),
        _ => None,
    }
}

/// What stands at a target.
pub fn find_at(content: &str, target: &Target) -> (r: Option<String>)
    ensures
        text::optional(r) == found_at(content@, target@),
{
    match target {
        Target::Position { position, .. } => identifier_at(
            content,
            *position,
            PositionEncoding::Utf16,
        ),
        Target::Selection { range, .. } => text_in_range(content, *range, PositionEncoding::Utf16),
        _ => None,
    }
}

/// The word for what stands at a target.
pub open spec fn found_word(target: TargetView) -> Seq<char> {
    match target {
        TargetView::Position { .. } => "identifier"@,
        _ => "selection"@,
    }
}

/// The revision of a working copy, in brackets.
pub open spec fn revision_note(revision: Option<RevisionView>) -> Seq<char> {
    match revision {
        Some(rev) => {
            let branch = match rev.branch {
                Some(b) => ", "@ + b,
                None => ""@,
            };
            " ("@ + vcs::vcs_name(rev.vcs) + " "@ + rev.id + branch + ")"@
        },
        None => ""@,
    }
}

/// What a call is answered that expects something else at its target.
pub open spec fn expectation_failed(
    expected: Seq<char>,
    target: TargetView,
    workspace: Seq<char>,
    found: Option<Seq<char>>,
    revision: Option<RevisionView>,
) -> McpErrorView {
    let what = found_word(target);
    let file = match target.file() {
        Some(f) => f,
        None => ""@,
    };
    let saw = match found {
        Some(s) => "`"@ + s + "`"@,
        None => "no "@ + what,
    };
    McpErrorView::InvalidParams(
        ("target validation failed: expected "@ + what + " `"@ + expected + "` at "@) + (file
            + target_label(target) + ", but Henka's copy has "@ + saw
            + " there. Henka is reading `"@) + (workspace + "`"@ + revision_note(revision)
            + ". The coordinate may have been computed against a different revision or checkout — call project_status to compare, or pass the matching `workspace`."@),
    )
}

/// The revision of a working copy, in brackets.
fn note_revision(revision: &Option<Revision>) -> (r: String)
    ensures
        r@ == revision_note(vcs::optional(*revision)),
{
    match revision {
        Some(rev) => {
            let branch = match &rev.branch {
                Some(b) => cat2(", ", b.as_str()),
                None => "".to_owned(),
            };
            let front = cat4(" (", rev.vcs.as_str(), " ", rev.id.as_str());
            cat3(front.as_str(), branch.as_str(), ")")
        },
        None => "".to_owned(),
    }
}

/// What a call is answered that expects something else at its target.
pub fn mismatch(
    expected: &str,
    target: &Target,
    workspace: &PathBuf,
    found: &Option<String>,
    revision: &Option<Revision>,
) -> (r: McpError)
    ensures
        r@ == expectation_failed(
            expected@,
            target@,
            workspace@,
            text::optional(*found),
            vcs::optional(*revision),
        ),
{
    let what = match target {
        Target::Position { .. } => "identifier",
        _ => "selection",
    };
    let file = match target.file() {
        Some(f) => f.as_str().to_owned(),
        None => "".to_owned(),
    };
    let saw = match found {
        Some(s) => cat3("`", s.as_str(), "`"),
        None => cat2("no ", what),
    };
    let first = cat5("target validation failed: expected ", what, " `", expected, "` at ");
    let second = cat5(
        file.as_str(),
        position_label(target).as_str(),
        ", but Henka's copy has ",
        saw.as_str(),
        " there. Henka is reading `",
    );
    let third = cat4(
        workspace.as_str(),
        "`",
        note_revision(revision).as_str(),
        ". The coordinate may have been computed against a different revision or checkout — call project_status to compare, or pass the matching `workspace`.",
    );
    McpError::InvalidParams(cat3(first.as_str(), second.as_str(), third.as_str()))
}


/// What a call is answered whose expectation is not met: `content` is the file of
/// its target, or why that cannot be read.
pub open spec fn unmet(
    expected: Option<Seq<char>>,
    target: TargetView,
    workspace: Seq<char>,
    content: Result<Seq<char>, Seq<char>>,
    revision: Option<RevisionView>,
) -> Option<McpErrorView> {
    match (expected, checked_file(target, workspace)) {
        (Some(want), Some(file)) => match content {
            Ok(content) => if found_at(content, target) == Some(want) {
                None
            } else {
                Some(
                    expectation_failed(want, target, workspace, found_at(content, target), revision),
                )
            },
            Err(why) => Some(unreadable(file, why)),
        },
        _ => None,
    }
}

/// Refuses a call that expects something else at its target than stands there.
/// `content` is the file that [`file_to_check`] names, or why it cannot be read,
/// and `revision` is the revision of the working copy.
pub fn validate_expectation(
    expected: &Option<String>,
    target: &Target,
    workspace: &PathBuf,
    content: &Result<String, String>,
    revision: &Option<Revision>,
) -> (r: Result<(), McpError>)
    ensures
        match unmet(
            text::optional(*expected),
            target@,
            workspace@,
            applier::source_view(*content),
            vcs::optional(*revision),
        ) {
            Some(want) => r matches Err(e) && e@ == want,
            None => r is Ok,
        },
{
    let want = match expected {
        Some(want) => want,
        None => return Ok(()),
    };
    let file = match file_to_check(target, workspace) {
        Some(file) => file,
        None => return Ok(()),
    };
    let content = match content {
        Ok(content) => content,
        Err(why) => return Err(read_for_validation(&file, why.as_str())),
    };
    let found = find_at(content.as_str(), target);
    let matched = match &found {
        Some(s) => same_text(s.as_str(), want.as_str()),
        None => false,
    };
    if matched {
        Ok(())
    } else {
        Err(mismatch(want.as_str(), target, workspace, &found, revision))
    }
}

// ---------------------------------------------------------------------------
// Staying inside
// ---------------------------------------------------------------------------

/// Whether a path of an edit lies in a working copy: relative paths are seen from
/// it.
pub open spec fn inside(p: Seq<char>, workspace: Seq<char>) -> bool {
    !path::absolute(p) || path::under(p, workspace)
}

/// Whether the paths of a file operation lie in a working copy.
pub open spec fn op_inside(op: FileOperationView, workspace: Seq<char>) -> bool {
    match op {
        FileOperationView::Create { path } => inside(path, workspace),
        FileOperationView::Rename { from, to } => inside(from, workspace) && inside(to, workspace),
        FileOperationView::Delete { path } => inside(path, workspace),
    }
}

/// Whether all paths of an edit lie in a working copy.
pub open spec fn edit_inside(edit: WorkspaceEditView, workspace: Seq<char>) -> bool {
    &&& forall|i: int| 0 <= i < edit.files.len() ==> inside((#[trigger] edit.files[i]).path, workspace)
    &&& forall|i: int|
        0 <= i < edit.file_ops.len() ==> op_inside(#[trigger] edit.file_ops[i], workspace)
}

/// What an edit that leaves its working copy is answered.
pub open spec fn edits_outside() -> McpErrorView {
    McpErrorView::InvalidParams("refactoring would edit files outside the workspace"@)
}

/// Whether a path of an edit lies in a working copy.
fn is_inside(p: &PathBuf, workspace: &PathBuf) -> (r: bool)
    ensures
        r == inside(p@, workspace@),
{
    !p.is_absolute() || p.starts_with(workspace)
}

/// Refuses an edit of files outside the working copy.
pub fn reject_edits_outside(edit: &WorkspaceEdit, workspace: &PathBuf) -> (r: Result<(), McpError>)
    ensures
        r is Ok == edit_inside(edit@, workspace@),
        r matches Err(e) ==> e@ == edits_outside(),
{
    let mut ok = true;
    let mut i: usize = 0;
    while ok && i < edit.files.len()
        invariant
            i <= edit.files@.len(),
            ok ==> forall|j: int|
                0 <= j < i ==> inside((#[trigger] edit@.files[j]).path, workspace@),
            !ok ==> !edit_inside(edit@, workspace@),
        decreases edit.files@.len() - i,
    {
        assert(edit@.files[i as int] == edit.files@[i as int]@);
        if !is_inside(&edit.files[i].path, workspace) {
            ok = false;
        }
        i += 1;
    }
    let mut k: usize = 0;
    while ok && k < edit.file_ops.len()
        invariant
            k <= edit.file_ops@.len(),
            ok ==> forall|j: int|
                0 <= j < edit@.files.len() ==> inside(
                    (#[trigger] edit@.files[j]).path,
                    workspace@,
                ),
            ok ==> forall|j: int| 0 <= j < k ==> op_inside(#[trigger] edit@.file_ops[j], workspace@),
            !ok ==> !edit_inside(edit@, workspace@),
        decreases edit.file_ops@.len() - k,
    {
        assert(edit@.file_ops[k as int] == edit.file_ops@[k as int]@);
        let here = match &edit.file_ops[k] {
            FileOperation::Create { path } => is_inside(path, workspace),
            FileOperation::Rename { from, to } => is_inside(from, workspace) && is_inside(
                to,
                workspace,
            ),
            FileOperation::Delete { path } => is_inside(path, workspace),
        };
        if !here {
            ok = false;
        }
        k += 1;
    }
    if ok {
        Ok(())
    } else {
        Err(
            McpError::InvalidParams(
                "refactoring would edit files outside the workspace".to_owned(),
            ),
        )
    }
}

// ---------------------------------------------------------------------------
// Laws
// ---------------------------------------------------------------------------

/// Whether a step changes files under a directory only.
pub open spec fn step_under(step: FileStepView, dir: Seq<char>) -> bool {
    match step {
        FileStepView::Write { path, .. } => path::under(path, dir),
        FileStepView::CreateIfMissing { path, .. } => path::under(path, dir),
        FileStepView::Rename { from, to, .. } => path::under(from, dir) && path::under(to, dir),
        FileStepView::DeleteIfPresent { path } => path::under(path, dir),
    }
}

/// A path inside a working copy, seen from it, lies under it.
proof fn lemma_inside_resolves_under(p: Seq<char>, workspace: Seq<char>)
    requires
        inside(p, workspace),
    ensures
        path::under(applier::resolved(p, workspace), workspace),
{
    if workspace.len() == 0 {
        path::lemma_empty_has_no_component();
        assert(workspace =~= seq![]);
        assert(path::components(applier::resolved(p, workspace)).take(0) =~= seq![]);
    } else if !path::absolute(p) {
        path::join_appends_components(workspace, p);
        let base = path::components(workspace);
        assert((base + path::names(p)).take(base.len() as int) =~= base);
    }
}

/// The files of an edit that lies in a working copy are written under it.
proof fn lemma_writes_stay(
    files: Seq<FileEditView>,
    workspace: Seq<char>,
    sources: Seq<Result<Seq<char>, Seq<char>>>,
    updated: Seq<Seq<char>>,
)
    requires
        forall|i: int| 0 <= i < files.len() ==> inside((#[trigger] files[i]).path, workspace),
    ensures
        forall|i: int|
            0 <= i < applier::write_plan(files, workspace, sources, updated).steps.len()
                ==> step_under(
                #[trigger] applier::write_plan(files, workspace, sources, updated).steps[i],
                workspace,
            ),
    decreases files.len(),
{
    if files.len() > 0 {
        let front = files.drop_last();
        assert forall|i: int| 0 <= i < front.len() implies inside(
            (#[trigger] front[i]).path,
            workspace,
        ) by {
            assert(front[i] == files[i]);
        }
        lemma_writes_stay(front, workspace, sources, updated);
        assert(inside(files[files.len() - 1].path, workspace));
        lemma_inside_resolves_under(files.last().path, workspace);
        let before = applier::write_plan(front, workspace, sources, updated).steps;
        let all = applier::write_plan(files, workspace, sources, updated).steps;
        assert forall|i: int| 0 <= i < all.len() implies step_under(
            #[trigger] all[i],
            workspace,
        ) by {
            if i < before.len() {
                assert(all[i] == before[i]);
            }
        }
    }
}

/// An edit that is not refused changes files under its working copy only: every
/// step that applies it does.
pub proof fn accepted_edits_stay_in_the_workspace(
    edit: WorkspaceEditView,
    workspace: Seq<char>,
    sources: Seq<Result<Seq<char>, Seq<char>>>,
    updated: Seq<Seq<char>>,
    i: int,
)
    requires
        edit_inside(edit, workspace),
        0 <= i < applier::plan_of(edit, workspace, sources, updated).steps.len(),
    ensures
        step_under(applier::plan_of(edit, workspace, sources, updated).steps[i], workspace),
{
    let writes = applier::write_plan(edit.files, workspace, sources, updated).steps;
    lemma_writes_stay(edit.files, workspace, sources, updated);
    if i < writes.len() {
        assert(applier::plan_of(edit, workspace, sources, updated).steps[i] == writes[i]);
    } else {
        let op = edit.file_ops[i - writes.len()];
        assert(op_inside(op, workspace));
        match op {
            FileOperationView::Create { path } => lemma_inside_resolves_under(path, workspace),
            FileOperationView::Rename { from, to } => {
                lemma_inside_resolves_under(from, workspace);
                lemma_inside_resolves_under(to, workspace);
            },
            FileOperationView::Delete { path } => lemma_inside_resolves_under(path, workspace),
        }
    }
}

/// The directories that a path lies in are those that it has components for: the
/// first lacks its last component, and each one more lacks one more.
pub proof fn ancestors_lose_one_component_each(p: Seq<char>, i: int)
    requires
        0 <= i < ancestors(p).len(),
    ensures
        path::components(ancestors(p)[i]) == path::components(p).take(
            path::components(p).len() - 1 - i,
        ),
        i < path::components(p).len(),
        path::under(p, ancestors(p)[i]),
    decreases p.len(),
{
    let all = path::components(p);
    let dir = path::parent_of(p).unwrap();
    path::parent_drops_last_component(p);
    lemma_parent_has_component(p);
    if i == 0 {
        assert(ancestors(p)[0] == dir);
        assert(all.drop_last() =~= all.take(all.len() - 1));
    } else {
        assert(ancestors(p)[i] == ancestors(dir)[i - 1]);
        ancestors_lose_one_component_each(dir, i - 1);
        assert(all.drop_last().take(all.len() - 1 - i) =~= all.take(all.len() - 1 - i));
    }
    assert(path::components(ancestors(p)[i]).len() == all.len() - 1 - i);
}

/// The working copy of a call is the one that the call names, as the server sees
/// it. Without one, it is looked for around an absolute file, from the nearest
/// directory on; with a relative file, or with none, it is the project root.
pub proof fn calls_decide_on_the_working_copy(
    args: JsonView,
    target: TargetView,
    root: Seq<char>,
    entries: Seq<(Seq<char>, Seq<char>)>,
    named: Seq<char>,
    file: Seq<char>,
)
    ensures
        args.get("workspace"@) == Some(JsonView::Text(named)) && named.len() > 0
            ==> workspace_search(args, target, root, entries) == WorkspaceSearchView::At(
            pathmap::mapped(entries, named),
        ),
        args.get("workspace"@) is None && target.file() == Some(file) && path::absolute(file)
            ==> workspace_search(args, target, root, entries) == WorkspaceSearchView::Nearest(
            ancestors(file),
        ),
        args.get("workspace"@) is None && !(target.file() matches Some(f) && path::absolute(f))
            ==> workspace_search(args, target, root, entries) == WorkspaceSearchView::At(root),
{
}

/// Of the directories that are looked at, the working copy is one that holds a
/// repository and has none before it that does. Where none does, it is the project
/// root.
pub proof fn the_nearest_repository_is_taken(dirs: Seq<Probed>, root: Seq<char>, n: int)
    requires
        0 <= n <= dirs.len(),
        forall|i: int| 0 <= i < n ==> !(#[trigger] dirs[i]).present,
        n < dirs.len() ==> dirs[n].present,
    ensures
        nearest_working_copy(dirs, root) == if n < dirs.len() {
            dirs[n].path@
        } else {
            root
        },
    decreases dirs.len(),
{
    if dirs.len() > 0 {
        let rest = dirs.skip(1);
        assert(dirs =~= seq![dirs[0]] + rest);
        locate::search_takes_the_first(dirs[0], rest);
        if n > 0 {
            assert forall|i: int| 0 <= i < n - 1 implies !(#[trigger] rest[i]).present by {
                assert(rest[i] == dirs[i + 1]);
            }
            the_nearest_repository_is_taken(rest, root, n - 1);
        }
    }
}

/// The same facts with the working copy and the project in each other's place.
pub open spec fn exchanged(facts: RepoFacts) -> RepoFacts {
    RepoFacts {
        workspace: facts.project,
        project: facts.workspace,
        workspace_canonical: facts.project_canonical,
        project_canonical: facts.workspace_canonical,
    }
}

/// Belonging together goes both ways. A working copy with a repository never belongs
/// to a project without one; two of one repository belong together wherever they
/// are; two of different repositories never do; a directory without a repository
/// belongs to the project that it is the root of.
pub proof fn repositories_decide_who_belongs_together(
    facts: RepoFacts,
    workspace: Seq<char>,
    project: Seq<char>,
)
    ensures
        same_repository(facts, workspace, project) == same_repository(
            exchanged(facts),
            project,
            workspace,
        ),
        facts.workspace is Some != facts.project is Some ==> !same_repository(
            facts,
            workspace,
            project,
        ),
        facts.workspace matches Some(a) ==> facts.project matches Some(b) ==> (same_repository(
            facts,
            workspace,
            project,
        ) <==> path::under(a@, b@) && path::under(b@, a@)),
        facts.workspace is None && facts.project is None && facts.workspace_canonical
            == facts.project_canonical && workspace == project ==> same_repository(
            facts,
            workspace,
            project,
        ),
        facts.workspace is None && facts.project is None ==> forall|a: PathBuf, b: PathBuf|
            facts.workspace_canonical == Some(a) && facts.project_canonical == Some(b)
                && #[trigger] path::under(a@, b@) != #[trigger] path::under(b@, a@)
                ==> !same_repository(facts, workspace, project),
{
    if let (Some(a), Some(b)) = (facts.workspace, facts.project) {
        let x = path::components(a@);
        let y = path::components(b@);
        if path::under(a@, b@) && path::under(b@, a@) {
            assert(x.take(y.len() as int) =~= x);
        }
        if x == y {
            assert(x.take(y.len() as int) =~= x);
        }
    }
    if facts.workspace is None && facts.project is None {
        assert forall|a: PathBuf, b: PathBuf|
            facts.workspace_canonical == Some(a) && facts.project_canonical == Some(b)
                && #[trigger] path::under(a@, b@) != #[trigger] path::under(
                b@,
                a@,
            ) implies !same_repository(facts, workspace, project) by {
            let x = path::components(a@);
            if x == path::components(b@) {
                assert(x.take(x.len() as int) =~= x);
            }
        }
    }
}

/// The file of a target that is mapped is the one that the server sees, where the
/// call names it absolutely. Its place in the file is the same.
pub proof fn mapping_a_target_keeps_its_place(
    entries: Seq<(Seq<char>, Seq<char>)>,
    target: TargetView,
)
    ensures
        remapped(entries, target).file() is Some == target.file() is Some,
        target.file() matches Some(f) ==> remapped(entries, target).file() == Some(
            if path::absolute(f) {
                pathmap::mapped(entries, f)
            } else {
                f
            },
        ),
        target matches TargetView::Position { position, .. } ==> (remapped(entries, target)
            matches TargetView::Position { position: p, .. } && p == position),
        target matches TargetView::Selection { range, .. } ==> (remapped(entries, target)
            matches TargetView::Selection { range: r, .. } && r == range),
        target is File ==> remapped(entries, target) is File,
        target is Project ==> remapped(entries, target) is Project,
{
}

/// Whether a refusal is about a text, and says so.
pub open spec fn refusal_says(e: McpErrorView, what: Seq<char>) -> bool {
    e matches McpErrorView::InvalidParams(why) && text::contains_text(why, what)
}

/// A call that expects nothing is never refused for what stands at its target, and
/// neither is one whose target is a whole file or a whole project. Any other goes on
/// exactly if the text between the ends of its selection, or the identifier that its
/// position touches, is the one that it expects.
pub proof fn expectations_are_checked_at_the_target(
    want: Seq<char>,
    target: TargetView,
    workspace: Seq<char>,
    content: Seq<char>,
    revision: Option<RevisionView>,
)
    ensures
        unmet(None, target, workspace, Ok(content), revision) is None,
        target is File || target is Project ==> unmet(
            Some(want),
            target,
            workspace,
            Ok(content),
            revision,
        ) is None,
        target matches TargetView::Selection { range, .. } ==> (unmet(
            Some(want),
            target,
            workspace,
            Ok(content),
            revision,
        ) is None <==> selects(content, range, want)),
        target matches TargetView::Position { position, .. } ==> (unmet(
            Some(want),
            target,
            workspace,
            Ok(content),
            revision,
        ) is None <==> position::identifier_of(content, position, PositionEncoding::Utf16) == Some(
            want,
        )),
        unmet(Some(want), target, workspace, Ok(content), revision) matches Some(e) ==> e
            == expectation_failed(want, target, workspace, found_at(content, target), revision),
{
    if let TargetView::Selection { range, .. } = target {
        let a = position::offset_of(content, range.start, PositionEncoding::Utf16);
        let b = position::offset_of(content, range.end, PositionEncoding::Utf16);
        if a is Some && b is Some {
            position::offset_stays_on_its_line(content, range.start, PositionEncoding::Utf16);
            position::offset_stays_on_its_line(content, range.end, PositionEncoding::Utf16);
            if found_at(content, target) == Some(want) {
                assert(content.subrange(a.unwrap() as int, b.unwrap() as int) == want);
            }
        }
    }
}

/// The refusal of a call that expects something else at its target says what was
/// expected, what was found, where, and in which working copy.
pub proof fn refusals_say_what_was_found(
    want: Seq<char>,
    target: TargetView,
    workspace: Seq<char>,
    found: Option<Seq<char>>,
    revision: Option<RevisionView>,
)
    requires
        target.file() is Some,
    ensures
        refusal_says(expectation_failed(want, target, workspace, found, revision), want),
        refusal_says(expectation_failed(want, target, workspace, found, revision), workspace),
        refusal_says(
            expectation_failed(want, target, workspace, found, revision),
            target.file().unwrap() + target_label(target),
        ),
        found matches Some(s) ==> refusal_says(
            expectation_failed(want, target, workspace, found, revision),
            s,
        ),
{
    let e = expectation_failed(want, target, workspace, found, revision);
    let why = e->InvalidParams_0;
    let what = found_word(target);
    let place = target.file().unwrap() + target_label(target);
    let saw = match found {
        Some(s) => "`"@ + s + "`"@,
        None => "no "@ + what,
    };
    let a = "target validation failed: expected "@ + what + " `"@;
    let b = "` at "@;
    let c = ", but Henka's copy has "@;
    let d = " there. Henka is reading `"@;
    let note = revision_note(revision);
    let last = ". The coordinate may have been computed against a different revision or checkout — call project_status to compare, or pass the matching `workspace`."@;
    let first = a + want + b;
    let second = place + c + saw + d;
    let third = workspace + "`"@ + note + last;
    assert(why == first + second + third);
    assert(why =~= a + want + (b + second + third)) by {
        assert(first + second + third =~= a + want + (b + second + third));
    }
    text::lemma_stands_between(a, want, b + second + third);
    assert(why =~= first + place + ((c + saw + d) + third)) by {
        assert(second =~= place + (c + saw + d));
        assert(first + (place + (c + saw + d)) + third =~= first + place + ((c + saw + d) + third));
    }
    text::lemma_stands_between(first, place, (c + saw + d) + third);
    assert(why =~= (first + second) + workspace + ("`"@ + note + last)) by {
        assert(third =~= workspace + ("`"@ + note + last));
    }
    text::lemma_stands_between(first + second, workspace, "`"@ + note + last);
    if let Some(s) = found {
        let front = first + (place + c + "`"@);
        assert(second =~= (place + c + "`"@) + s + ("`"@ + d));
        assert(why =~= front + s + (("`"@ + d) + third)) by {
            assert(first + ((place + c + "`"@) + s + ("`"@ + d)) + third =~= front + s + (("`"@ + d)
                + third));
        }
        text::lemma_stands_between(front, s, ("`"@ + d) + third);
    }
}

/// Whether a range of a text selects `want`: from the offset of its start to that of
/// its end.
pub open spec fn selects(content: Seq<char>, range: Range, want: Seq<char>) -> bool {
    exists|from: int, to: int|
        0 <= from <= to <= content.len() && position::offset_of(
            content,
            range.start,
            PositionEncoding::Utf16,
        ) == Some(from as nat) && position::offset_of(
            content,
            range.end,
            PositionEncoding::Utf16,
        ) == Some(to as nat) && #[trigger] content.subrange(from, to) == want
}

/// A file that cannot be read has the call refused, with the reason and with the
/// file as it is seen from the working copy.
pub proof fn unreadable_targets_are_refused(
    want: Seq<char>,
    target: TargetView,
    workspace: Seq<char>,
    why: Seq<char>,
    revision: Option<RevisionView>,
)
    requires
        target is Position || target is Selection,
    ensures
        unmet(Some(want), target, workspace, Err(why), revision) matches Some(e) && refusal_says(
            e,
            why,
        ) && refusal_says(e, applier::resolved(target.file().unwrap(), workspace)),
{
    let file = applier::resolved(target.file().unwrap(), workspace);
    let a = "cannot read `"@;
    let b = "` to validate the target: "@;
    let all = a + file + b + why;
    text::lemma_stands_between(a, file, b + why);
    assert(all =~= a + file + (b + why));
    text::lemma_stands_between(a + file + b, why, seq![]);
    assert(all =~= (a + file + b) + why + seq![]);
}

/// An edit is refused exactly if some path of it, seen from the working copy, does
/// not lie under the working copy.
pub proof fn edits_are_refused_for_leaving(edit: WorkspaceEditView, workspace: Seq<char>)
    ensures
        edit_inside(edit, workspace) <==> (forall|i: int|
            0 <= i < edit.files.len() ==> path::under(
                applier::resolved((#[trigger] edit.files[i]).path, workspace),
                workspace,
            )) && (forall|i: int|
            0 <= i < edit.file_ops.len() ==> op_stays(#[trigger] edit.file_ops[i], workspace)),
{
    if edit_inside(edit, workspace) {
        assert forall|i: int| 0 <= i < edit.files.len() implies path::under(
            applier::resolved((#[trigger] edit.files[i]).path, workspace),
            workspace,
        ) by {
            lemma_inside_resolves_under(edit.files[i].path, workspace);
        }
        assert forall|i: int| 0 <= i < edit.file_ops.len() implies op_stays(
            #[trigger] edit.file_ops[i],
            workspace,
        ) by {
            assert(op_inside(edit.file_ops[i], workspace));
            match edit.file_ops[i] {
                FileOperationView::Create { path } => lemma_inside_resolves_under(path, workspace),
                FileOperationView::Rename { from, to } => {
                    lemma_inside_resolves_under(from, workspace);
                    lemma_inside_resolves_under(to, workspace);
                },
                FileOperationView::Delete { path } => lemma_inside_resolves_under(path, workspace),
            }
        }
    }
}

/// Whether the paths of a file operation, seen from a working copy, lie under it.
pub open spec fn op_stays(op: FileOperationView, workspace: Seq<char>) -> bool {
    match op {
        FileOperationView::Create { path } => path::under(
            applier::resolved(path, workspace),
            workspace,
        ),
        FileOperationView::Rename { from, to } => path::under(
            applier::resolved(from, workspace),
            workspace,
        ) && path::under(applier::resolved(to, workspace), workspace),
        FileOperationView::Delete { path } => path::under(
            applier::resolved(path, workspace),
            workspace,
        ),
    }
}

/// A label begins with the line and ends with the character: of the position, or of
/// the start and the end of the selection.
pub proof fn labels_say_line_and_character(target: TargetView)
    ensures
        target matches TargetView::Position { position, .. } ==> text::begins_with(
            target_label(target),
            ":"@ + text::decimal(position.line as nat) + ":"@,
        ) && text::finishes_with(
            target_label(target),
            ":"@ + text::decimal(position.character as nat),
        ),
        target matches TargetView::Selection { range, .. } ==> text::begins_with(
            target_label(target),
            ":"@ + text::decimal(range.start.line as nat) + ":"@ + text::decimal(
                range.start.character as nat,
            ) + "-"@,
        ) && text::finishes_with(
            target_label(target),
            "-"@ + text::decimal(range.end.line as nat) + ":"@ + text::decimal(
                range.end.character as nat,
            ),
        ),
{
    let label = target_label(target);
    match target {
        TargetView::Position { position, .. } => {
            let front = ":"@ + text::decimal(position.line as nat) + ":"@;
            let back = ":"@ + text::decimal(position.character as nat);
            assert(label.subrange(0, front.len() as int) =~= front);
            assert(label.subrange(label.len() - back.len(), label.len() as int) =~= back);
        },
        TargetView::Selection { range, .. } => {
            let front = ":"@ + text::decimal(range.start.line as nat) + ":"@ + text::decimal(
                range.start.character as nat,
            ) + "-"@;
            let back = "-"@ + text::decimal(range.end.line as nat) + ":"@ + text::decimal(
                range.end.character as nat,
            );
            assert(label.subrange(0, front.len() as int) =~= front);
            assert(label.subrange(label.len() - back.len(), label.len() as int) =~= back);
        },
        _ => {},
    }
}

/// The note on a revision says its system, its id and its branch.
pub proof fn notes_say_the_revision(rev: RevisionView)
    ensures
        text::contains_text(revision_note(Some(rev)), vcs::vcs_name(rev.vcs)),
        text::contains_text(revision_note(Some(rev)), rev.id),
        rev.branch matches Some(b) ==> text::contains_text(revision_note(Some(rev)), b),
        revision_note(None).len() == 0,
{
    reveal_strlit("");
    let branch = match rev.branch {
        Some(b) => ", "@ + b,
        None => ""@,
    };
    let name = vcs::vcs_name(rev.vcs);
    let note = revision_note(Some(rev));
    assert(note =~= " ("@ + name + (" "@ + rev.id + branch + ")"@));
    text::lemma_stands_between(" ("@, name, " "@ + rev.id + branch + ")"@);
    assert(note =~= (" ("@ + name + " "@) + rev.id + (branch + ")"@));
    text::lemma_stands_between(" ("@ + name + " "@, rev.id, branch + ")"@);
    if let Some(b) = rev.branch {
        let front = " ("@ + name + " "@ + rev.id + ", "@;
        assert(note =~= front + b + ")"@);
        text::lemma_stands_between(front, b, ")"@);
    }
}

/// The refusal of a working copy of another repository names the working copy.
pub proof fn foreign_working_copies_are_named(workspace: Seq<char>)
    ensures
        refusal_says(foreign_workspace(workspace), workspace),
{
    text::lemma_stands_between(
        "workspace `"@,
        workspace,
        "` is not a working copy of the project"@,
    );
}

} // verus!
